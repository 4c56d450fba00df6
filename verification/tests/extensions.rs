use shiguredo_websocket::{Extension, ExtensionParseError, PerMessageDeflateConfig};

#[test]
fn test_extension_parse() {
    let extensions = Extension::parse("permessage-deflate; client_max_window_bits");
    assert_eq!(extensions.len(), 1);
    assert_eq!(extensions[0].name, "permessage-deflate");
    assert_eq!(extensions[0].params.len(), 1);
    assert_eq!(extensions[0].params[0].name, "client_max_window_bits");
    assert!(extensions[0].params[0].value.is_none());
}

#[test]
fn test_extension_parse_with_value() {
    let extensions = Extension::parse("permessage-deflate; server_max_window_bits=10");
    assert_eq!(extensions.len(), 1);
    assert_eq!(extensions[0].name, "permessage-deflate");
    assert_eq!(extensions[0].params.len(), 1);
    assert_eq!(extensions[0].params[0].name, "server_max_window_bits");
    assert_eq!(extensions[0].params[0].value, Some("10".to_string()));
}

#[test]
fn test_extension_parse_multiple() {
    let extensions = Extension::parse("foo, bar; param=value");
    assert_eq!(extensions.len(), 2);
    assert_eq!(extensions[0].name, "foo");
    assert_eq!(extensions[1].name, "bar");
}

#[test]
fn test_extension_encode() {
    let ext = Extension::new("permessage-deflate")
        .param("server_no_context_takeover", None)
        .param("client_max_window_bits", Some("15"));

    let encoded = ext.encode();
    assert!(encoded.contains("permessage-deflate"));
    assert!(encoded.contains("server_no_context_takeover"));
    assert!(encoded.contains("client_max_window_bits=15"));
}

#[test]
fn test_permessage_deflate_config() {
    let config = PerMessageDeflateConfig::new()
        .server_no_context_takeover()
        .client_max_window_bits(12);

    let ext = config.to_extension();
    assert_eq!(ext.name, "permessage-deflate");
    assert!(ext.get_param("server_no_context_takeover").is_some());
    assert_eq!(
        ext.get_param("client_max_window_bits")
            .and_then(|p| p.value.as_ref()),
        Some(&"12".to_string())
    );
}

#[test]
fn test_permessage_deflate_from_extension() {
    let ext = Extension::new("permessage-deflate")
        .param("server_no_context_takeover", None)
        .param("client_max_window_bits", Some("12"));

    let config = PerMessageDeflateConfig::from_extension(&ext).unwrap();
    assert!(config.server_no_context_takeover);
    assert!(!config.client_no_context_takeover);
    assert_eq!(config.client_max_window_bits, Some(12));
}

#[test]
fn test_reject_unknown_parameter() {
    let ext = Extension::new("permessage-deflate").param("unknown_param", None);

    let result = PerMessageDeflateConfig::from_extension_for_client_response(&ext);
    assert!(matches!(
        result,
        Err(ExtensionParseError::UnknownParameter(_))
    ));
}

#[test]
fn test_reject_duplicate_parameter() {
    let ext = Extension::new("permessage-deflate")
        .param("server_no_context_takeover", None)
        .param("server_no_context_takeover", None);

    let result = PerMessageDeflateConfig::from_extension_for_client_response(&ext);
    assert!(matches!(
        result,
        Err(ExtensionParseError::DuplicateParameter(_))
    ));
}

#[test]
fn test_reject_no_context_takeover_with_value() {
    let ext =
        Extension::new("permessage-deflate").param("server_no_context_takeover", Some("true"));

    let result = PerMessageDeflateConfig::from_extension_for_client_response(&ext);
    assert!(matches!(
        result,
        Err(ExtensionParseError::UnexpectedValue(_))
    ));
}

#[test]
fn test_client_response_requires_server_max_window_bits_value() {
    let ext = Extension::new("permessage-deflate").param("server_max_window_bits", None);

    let result = PerMessageDeflateConfig::from_extension_for_client_response(&ext);
    assert!(matches!(result, Err(ExtensionParseError::MissingValue(_))));
}

#[test]
fn test_server_request_requires_server_max_window_bits_value() {
    let ext = Extension::new("permessage-deflate").param("server_max_window_bits", None);

    let result = PerMessageDeflateConfig::from_extension_for_server_request(&ext);
    assert!(matches!(result, Err(ExtensionParseError::MissingValue(_))));
}

#[test]
fn test_client_response_requires_client_max_window_bits_value() {
    let ext = Extension::new("permessage-deflate").param("client_max_window_bits", None);

    let result = PerMessageDeflateConfig::from_extension_for_client_response(&ext);
    assert!(matches!(result, Err(ExtensionParseError::MissingValue(_))));
}

#[test]
fn test_server_request_allows_client_max_window_bits_without_value() {
    let ext = Extension::new("permessage-deflate").param("client_max_window_bits", None);

    let result = PerMessageDeflateConfig::from_extension_for_server_request(&ext);
    assert!(result.is_ok());
    assert_eq!(result.unwrap().client_max_window_bits, Some(15));
}

#[test]
fn test_negotiate_does_not_include_cmwb_when_not_offered() {
    let client = PerMessageDeflateConfig::new().server_max_window_bits(12);
    let server = PerMessageDeflateConfig::new().client_max_window_bits(10);
    let result = PerMessageDeflateConfig::negotiate(&client, &server);
    assert!(result.client_max_window_bits.is_none());
}

#[test]
fn test_negotiate_includes_cmwb_when_offered() {
    let client = PerMessageDeflateConfig::new().client_max_window_bits(12);
    let server = PerMessageDeflateConfig::new().client_max_window_bits(10);
    let result = PerMessageDeflateConfig::negotiate(&client, &server);
    assert_eq!(result.client_max_window_bits, Some(10));
}

#[test]
fn test_negotiate_cmwb_only_from_client() {
    let client = PerMessageDeflateConfig::new().client_max_window_bits(12);
    let server = PerMessageDeflateConfig::new();
    let result = PerMessageDeflateConfig::negotiate(&client, &server);
    assert_eq!(result.client_max_window_bits, Some(12));
}

#[test]
fn test_negotiate_forces_server_max_window_bits_to_none() {
    let client = PerMessageDeflateConfig::new().server_max_window_bits(10);
    let server = PerMessageDeflateConfig::new().server_max_window_bits(12);
    let result = PerMessageDeflateConfig::negotiate(&client, &server);
    assert!(result.server_max_window_bits.is_none());
}

#[test]
fn test_reject_invalid_window_bits_value() {
    let ext = Extension::new("permessage-deflate").param("server_max_window_bits", Some("7"));

    let result = PerMessageDeflateConfig::from_extension_for_client_response(&ext);
    assert!(matches!(result, Err(ExtensionParseError::InvalidValue(_))));

    let ext = Extension::new("permessage-deflate").param("server_max_window_bits", Some("16"));

    let result = PerMessageDeflateConfig::from_extension_for_client_response(&ext);
    assert!(matches!(result, Err(ExtensionParseError::InvalidValue(_))));
}

#[test]
fn test_accept_valid_window_bits_range() {
    for bits in 8u8..=15 {
        let ext = Extension::new("permessage-deflate")
            .param("server_max_window_bits", Some(&bits.to_string()));

        let result = PerMessageDeflateConfig::from_extension_for_client_response(&ext);
        assert!(result.is_ok());
        assert_eq!(result.unwrap().server_max_window_bits, Some(bits));
    }
}

#[test]
fn test_not_deflate_extension() {
    let ext = Extension::new("other-extension");

    let result = PerMessageDeflateConfig::from_extension_for_client_response(&ext);
    assert!(matches!(result, Err(ExtensionParseError::NotDeflate)));
}

#[test]
fn test_parse_quoted_string_valid_token() {
    let extensions = Extension::parse(r#"ext; param="simplevalue""#);
    assert_eq!(extensions.len(), 1);
    assert_eq!(extensions[0].params[0].name, "param");
    assert_eq!(
        extensions[0].params[0].value,
        Some("simplevalue".to_string())
    );
}

#[test]
fn test_parse_quoted_string_numeric() {
    let extensions = Extension::parse(r#"permessage-deflate; server_max_window_bits="10""#);
    assert_eq!(extensions.len(), 1);
    assert_eq!(extensions[0].name, "permessage-deflate");
    assert_eq!(extensions[0].params[0].value, Some("10".to_string()));
}

#[test]
fn test_parse_quoted_string_rejects_non_token_space() {
    let extensions = Extension::parse(r#"ext; param="quoted value""#);
    assert!(extensions.is_empty());
}

#[test]
fn test_parse_quoted_string_rejects_non_token_escape() {
    let extensions = Extension::parse(r#"ext; param="value\"quote""#);
    assert!(extensions.is_empty());
}

#[test]
fn test_parse_quoted_string_rejects_non_token_backslash() {
    let extensions = Extension::parse(r#"ext; param="path\\file""#);
    assert!(extensions.is_empty());
}

#[test]
fn test_parse_unquoted_token_unchanged() {
    let extensions = Extension::parse("ext; param=simplevalue");
    assert_eq!(extensions.len(), 1);
    assert_eq!(
        extensions[0].params[0].value,
        Some("simplevalue".to_string())
    );
}

#[test]
fn test_parse_respects_quotes_with_comma() {
    let extensions = Extension::parse(r#"ext; param="a,b", other"#);
    assert_eq!(extensions.len(), 1);
    assert_eq!(extensions[0].name, "other");
}

#[test]
fn test_parse_respects_quotes_with_semicolon() {
    let extensions = Extension::parse(r#"ext; param="a;b""#);
    assert!(extensions.is_empty());
}

#[test]
fn test_parse_rejects_invalid_unquoted_value() {
    let extensions = Extension::parse("ext; param=invalid value");
    assert!(extensions.is_empty());
}

#[test]
fn not_deflate_display_matches_fixed_text() {
    let err = ExtensionParseError::NotDeflate;
    assert_eq!(err.to_string(), "extension is not permessage-deflate");
}
