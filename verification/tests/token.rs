use shiguredo_websocket::is_valid_token;

#[test]
fn empty_string_is_not_a_valid_token() {
    assert!(!is_valid_token(""));
}
