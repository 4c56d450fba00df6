use base64ct::{Base64, Encoding};
use shiguredo_websocket::handshake::{client_key, validate_extension_entry, validate_key};
use shiguredo_websocket::response::HandshakeValidator;
use shiguredo_websocket::{
    calculate_accept, calculate_accept_from_key, ClientConnectionOptions, CloseCode,
    ConnectionEvent, ConnectionOutput, ConnectionState, ErrorKind, Extension, Frame,
    FrameDecoder, HttpResponseInfo, Opcode, PerMessageDeflateConfig, RandomSource,
    ServerConnectionOptions, ServerHandshakeResponse, TimerId, Timestamp,
    WebSocketClientConnection, WebSocketServerConnection,
};

struct FixedRandom;

impl RandomSource for FixedRandom {
    fn masking_key(&mut self) -> [u8; 4] {
        [0x01, 0x02, 0x03, 0x04]
    }

    fn nonce(&mut self) -> [u8; 16] {
        [7; 16]
    }
}

fn response_bytes(accept: &str, extra: &str) -> Vec<u8> {
    format!(
        "HTTP/1.1 101 Switching Protocols\r\nUpgrade: websocket\r\nConnection: Upgrade\r\nSec-WebSocket-Accept: {}\r\n{}\r\n",
        accept, extra
    )
    .into_bytes()
}

fn request_bytes(extra: &str) -> Vec<u8> {
    let key = Base64::encode_string(&[3u8; 16]);
    format!(
        "GET /chat HTTP/1.1\r\nHost: example.com\r\nUpgrade: websocket\r\nConnection: Upgrade\r\nSec-WebSocket-Key: {}\r\n{}\r\n",
        key, extra
    )
    .into_bytes()
}

fn drain_outputs_client(c: &mut WebSocketClientConnection<FixedRandom>) -> Vec<ConnectionOutput> {
    let mut v = Vec::new();
    while let Some(o) = c.poll_output() {
        v.push(o);
    }
    v
}

fn drain_events_client(c: &mut WebSocketClientConnection<FixedRandom>) -> Vec<ConnectionEvent> {
    let mut v = Vec::new();
    while let Some(e) = c.poll_event() {
        v.push(e);
    }
    v
}

fn drain_outputs_server(c: &mut WebSocketServerConnection) -> Vec<ConnectionOutput> {
    let mut v = Vec::new();
    while let Some(o) = c.poll_output() {
        v.push(o);
    }
    v
}

fn drain_events_server(c: &mut WebSocketServerConnection) -> Vec<ConnectionEvent> {
    let mut v = Vec::new();
    while let Some(e) = c.poll_event() {
        v.push(e);
    }
    v
}

fn connected_client(options: ClientConnectionOptions, extra: &str) -> WebSocketClientConnection<FixedRandom> {
    let mut c = WebSocketClientConnection::new(options, FixedRandom);
    c.connect().unwrap();
    drain_outputs_client(&mut c);
    let accept = calculate_accept(&[7; 16]);
    c.feed_recv_buf(&response_bytes(&accept, extra), Timestamp::from_millis(0)).unwrap();
    c
}

fn pending_server(options: ServerConnectionOptions, extra: &str) -> WebSocketServerConnection {
    let mut s = WebSocketServerConnection::new(options);
    s.feed_recv_buf(&request_bytes(&format!("Sec-WebSocket-Version: 13\r\n{}", extra))).unwrap();
    s
}

#[test]
fn accept_matches_rfc6455_example() {
    assert_eq!(
        calculate_accept_from_key("dGhlIHNhbXBsZSBub25jZQ=="),
        "s3pPLMBiTxaQ9kYGzzhZRbK+xOo="
    );
}

#[test]
fn accept_of_nonce_goes_through_base64_key() {
    let nonce = [9u8; 16];
    let key = client_key(&nonce);
    assert_eq!(key, Base64::encode_string(&nonce));
    assert_eq!(calculate_accept(&nonce), calculate_accept_from_key(&key));
}

#[test]
fn client_key_is_a_valid_key() {
    let key = client_key(&[5u8; 16]);
    assert!(validate_key(&key).is_ok());
}

#[test]
fn key_of_wrong_length_is_rejected() {
    let err = validate_key(&Base64::encode_string(&[1u8; 15])).unwrap_err();
    assert_eq!(err.kind, ErrorKind::HandshakeRejected);
    assert!(validate_key("not base64!").is_err());
}

#[test]
fn client_connect_sends_request_and_moves_to_connecting() {
    let options = ClientConnectionOptions::new("example.com", "/ws").protocol("chat");
    let mut c = WebSocketClientConnection::new(options, FixedRandom);
    assert_eq!(c.state(), ConnectionState::Disconnected);
    c.connect().unwrap();
    assert_eq!(c.state(), ConnectionState::Connecting);
    let outputs = drain_outputs_client(&mut c);
    assert_eq!(outputs.len(), 1);
    match &outputs[0] {
        ConnectionOutput::SendData(bytes) => {
            let text = String::from_utf8(bytes.clone()).unwrap();
            assert!(text.starts_with("GET /ws HTTP/1.1\r\n"));
            assert!(text.contains("Sec-WebSocket-Key: BwcHBwcHBwcHBwcHBwcHBw==\r\n"));
            assert!(text.contains("Sec-WebSocket-Version: 13\r\n"));
            assert!(text.contains("Sec-WebSocket-Protocol: chat\r\n"));
        }
        other => panic!("unexpected output {:?}", other),
    }
    let err = c.connect().unwrap_err();
    assert_eq!(err.kind, ErrorKind::InvalidState);
}

#[test]
fn client_completes_handshake_and_reports_connected() {
    let options = ClientConnectionOptions::new("example.com", "/").ping_interval(1000);
    let mut c = connected_client(options, "");
    assert_eq!(c.state(), ConnectionState::Connected);
    let events = drain_events_client(&mut c);
    assert!(events.contains(&ConnectionEvent::StateChanged(ConnectionState::Connected)));
    assert!(events.contains(&ConnectionEvent::Connected { protocol: None, extensions: vec![] }));
    let outputs = drain_outputs_client(&mut c);
    assert_eq!(
        outputs,
        vec![ConnectionOutput::SetTimer { id: TimerId::Ping, duration_millis: 1000 }]
    );
}

#[test]
fn client_rejects_wrong_accept() {
    let mut c = WebSocketClientConnection::new(ClientConnectionOptions::new("h", "/"), FixedRandom);
    c.connect().unwrap();
    let err = c
        .feed_recv_buf(&response_bytes("wrong", ""), Timestamp::from_millis(0))
        .unwrap_err();
    assert_eq!(err.kind, ErrorKind::HandshakeRejected);
    assert!(err.reason.starts_with("invalid Sec-WebSocket-Accept: expected "));
    let again = c.feed_recv_buf(b"", Timestamp::from_millis(0)).unwrap_err();
    assert_eq!(again.kind, ErrorKind::InvalidState);
    assert_eq!(again.reason, "connection has failed");
}

#[test]
fn client_rejects_unsolicited_protocol() {
    let mut c = WebSocketClientConnection::new(ClientConnectionOptions::new("h", "/"), FixedRandom);
    c.connect().unwrap();
    let accept = calculate_accept(&[7; 16]);
    let err = c
        .feed_recv_buf(
            &response_bytes(&accept, "Sec-WebSocket-Protocol: chat\r\n"),
            Timestamp::from_millis(0),
        )
        .unwrap_err();
    assert_eq!(err.kind, ErrorKind::HandshakeRejected);
    assert_eq!(err.reason, "server returned unsolicited protocol: chat");
}

#[test]
fn client_rejects_unsolicited_extension() {
    let mut c = WebSocketClientConnection::new(ClientConnectionOptions::new("h", "/"), FixedRandom);
    c.connect().unwrap();
    let accept = calculate_accept(&[7; 16]);
    let err = c
        .feed_recv_buf(
            &response_bytes(&accept, "Sec-WebSocket-Extensions: permessage-deflate\r\n"),
            Timestamp::from_millis(0),
        )
        .unwrap_err();
    assert_eq!(err.reason, "server returned unsolicited extension: permessage-deflate");
}

#[test]
fn client_accepts_offered_deflate() {
    let options = ClientConnectionOptions::new("h", "/")
        .deflate(PerMessageDeflateConfig::new().client_no_context_takeover());
    let c = connected_client(
        options,
        "Sec-WebSocket-Extensions: permessage-deflate; client_no_context_takeover\r\n",
    );
    assert_eq!(c.state(), ConnectionState::Connected);
    assert_eq!(
        c.extensions(),
        &["permessage-deflate; client_no_context_takeover".to_string()]
    );
}

#[test]
fn client_rejects_server_window_above_offer() {
    let options = ClientConnectionOptions::new("h", "/")
        .deflate(PerMessageDeflateConfig::new().server_max_window_bits(10));
    let mut c = WebSocketClientConnection::new(options, FixedRandom);
    c.connect().unwrap();
    let accept = calculate_accept(&[7; 16]);
    let err = c
        .feed_recv_buf(
            &response_bytes(
                &accept,
                "Sec-WebSocket-Extensions: permessage-deflate; server_max_window_bits=12\r\n",
            ),
            Timestamp::from_millis(0),
        )
        .unwrap_err();
    assert_eq!(err.reason, "server_max_window_bits 12 exceeds client offer 10");
}

#[test]
fn non_101_response_is_reported_as_http_response() {
    let validator = HandshakeValidator::new([7; 16]);
    let info = HttpResponseInfo {
        status_code: 404,
        reason_phrase: "Not Found".to_string(),
        headers: vec![("Content-Length".to_string(), "0".to_string())],
    };
    let err = validator.validate_response(&info).unwrap_err();
    assert_eq!(err.kind, ErrorKind::HttpResponse);
    assert_eq!(err.reason, "HTTP 404 Not Found");
    let got = err.http_response.unwrap();
    assert_eq!(got.status_code, 404);
    assert_eq!(got.headers, info.headers);
}

#[test]
fn response_checks_name_missing_and_duplicate_fields() {
    let validator = HandshakeValidator::new([7; 16]);
    let accept = calculate_accept(&[7; 16]);
    let base = |extra: Vec<(&str, &str)>| {
        let mut headers = vec![
            ("upgrade".to_string(), "WebSocket".to_string()),
            ("CONNECTION".to_string(), "keep-alive, Upgrade".to_string()),
        ];
        for (n, v) in extra {
            headers.push((n.to_string(), v.to_string()));
        }
        HttpResponseInfo { status_code: 101, reason_phrase: String::new(), headers }
    };
    let ok = validator
        .validate_response(&base(vec![("Sec-WebSocket-Accept", &accept)]))
        .unwrap()
        .unwrap();
    assert_eq!(ok.protocol, None);
    let missing = validator.validate_response(&base(vec![])).unwrap_err();
    assert_eq!(missing.reason, "missing Sec-WebSocket-Accept header");
    let dup = validator
        .validate_response(&base(vec![
            ("Sec-WebSocket-Accept", &accept),
            ("sec-websocket-accept", &accept),
        ]))
        .unwrap_err();
    assert_eq!(dup.reason, "duplicate Sec-WebSocket-Accept header");
    let no_upgrade = validator
        .validate_response(&HttpResponseInfo {
            status_code: 101,
            reason_phrase: String::new(),
            headers: vec![("Upgrade".to_string(), "h2c".to_string())],
        })
        .unwrap_err();
    assert_eq!(no_upgrade.reason, "invalid Upgrade header: h2c");
    let empty_ext = validator
        .validate_response(&base(vec![
            ("Sec-WebSocket-Accept", &accept),
            ("Sec-WebSocket-Extensions", " , "),
        ]))
        .unwrap_err();
    assert_eq!(
        empty_ext.reason,
        "malformed Sec-WebSocket-Extensions header: no valid extensions"
    );
}

#[test]
fn server_accepts_request_and_sends_101() {
    let mut s = pending_server(
        ServerConnectionOptions::new().protocol("chat").ping_interval(0),
        "Sec-WebSocket-Protocol: superchat, chat\r\n",
    );
    assert_eq!(s.state(), ConnectionState::Connecting);
    let request = s.handshake_request().unwrap();
    assert_eq!(request.path, "/chat");
    assert_eq!(request.host, "example.com");
    assert_eq!(request.protocols, vec!["superchat".to_string(), "chat".to_string()]);
    s.accept_handshake_auto().unwrap();
    assert_eq!(s.state(), ConnectionState::Connected);
    assert_eq!(s.protocol(), Some("chat"));
    let outputs = drain_outputs_server(&mut s);
    match &outputs[0] {
        ConnectionOutput::SendData(bytes) => {
            let text = String::from_utf8(bytes.clone()).unwrap();
            assert!(text.starts_with("HTTP/1.1 101 Switching Protocols\r\n"));
            let accept = calculate_accept(&[3u8; 16]);
            assert!(text.contains(&format!("Sec-WebSocket-Accept: {}\r\n", accept)));
            assert!(text.contains("Sec-WebSocket-Protocol: chat\r\n"));
        }
        other => panic!("unexpected output {:?}", other),
    }
    let events = drain_events_server(&mut s);
    assert!(events.contains(&ConnectionEvent::Connected {
        protocol: Some("chat".to_string()),
        extensions: vec![]
    }));
}

#[test]
fn server_answers_wrong_version_with_426() {
    let mut s = WebSocketServerConnection::new(ServerConnectionOptions::new());
    let err = s
        .feed_recv_buf(&request_bytes("Sec-WebSocket-Version: 8\r\n"))
        .unwrap_err();
    assert_eq!(err.kind, ErrorKind::VersionNotSupported);
    assert_eq!(s.state(), ConnectionState::Closed);
    let outputs = drain_outputs_server(&mut s);
    match &outputs[0] {
        ConnectionOutput::SendData(bytes) => {
            let text = String::from_utf8(bytes.clone()).unwrap();
            assert!(text.starts_with("HTTP/1.1 426 Upgrade Required\r\n"));
            assert!(text.contains("Sec-WebSocket-Version: 13\r\n"));
            assert_eq!(
                text,
                "HTTP/1.1 426 Upgrade Required\r\nConnection: close\r\nSec-WebSocket-Version: 13\r\n\r\n"
            );
        }
        other => panic!("unexpected output {:?}", other),
    }
    assert_eq!(outputs.last(), Some(&ConnectionOutput::CloseConnection));
}

#[test]
fn server_answers_missing_key_with_400() {
    let mut s = WebSocketServerConnection::new(ServerConnectionOptions::new());
    let err = s
        .feed_recv_buf(b"GET / HTTP/1.1\r\nHost: a\r\nUpgrade: websocket\r\nConnection: Upgrade\r\nSec-WebSocket-Version: 13\r\n\r\n")
        .unwrap_err();
    assert_eq!(err.kind, ErrorKind::HandshakeRejected);
    assert_eq!(err.reason, "missing Sec-WebSocket-Key header");
    let outputs = drain_outputs_server(&mut s);
    match &outputs[0] {
        ConnectionOutput::SendData(bytes) => {
            assert!(String::from_utf8(bytes.clone()).unwrap().starts_with("HTTP/1.1 400 Bad Request\r\n"));
            assert_eq!(
                String::from_utf8(bytes.clone()).unwrap(),
                "HTTP/1.1 400 Bad Request\r\nConnection: close\r\n\r\n"
            );
        }
        other => panic!("unexpected output {:?}", other),
    }
}

#[test]
fn server_refuses_response_with_unoffered_protocol_or_reserved_header() {
    let mut s = pending_server(ServerConnectionOptions::new(), "");
    let err = s
        .accept_handshake(ServerHandshakeResponse::new().protocol("chat"))
        .unwrap_err();
    assert_eq!(err.reason, "unsupported protocol: chat");
    let mut s = pending_server(ServerConnectionOptions::new(), "");
    let err = s
        .accept_handshake(ServerHandshakeResponse::new().header("Upgrade", "x"))
        .unwrap_err();
    assert_eq!(err.kind, ErrorKind::InvalidInput);
    assert_eq!(
        err.reason,
        "additional header 'Upgrade' conflicts with a reserved WebSocket header"
    );
}

#[test]
fn server_reject_handshake_closes() {
    let mut s = pending_server(ServerConnectionOptions::new(), "");
    s.reject_handshake(403, "Forbidden", &[("X-Reason", "no")]).unwrap();
    assert_eq!(s.state(), ConnectionState::Closed);
    let outputs = drain_outputs_server(&mut s);
    assert_eq!(outputs.len(), 2);
    assert_eq!(outputs[1], ConnectionOutput::CloseConnection);
    let err = s.reject_handshake(403, "Forbidden", &[]).unwrap_err();
    assert_eq!(err.reason, "handshake is not in progress");
}

#[test]
fn server_negotiates_deflate_from_offer() {
    let mut s = pending_server(
        ServerConnectionOptions::new().deflate(PerMessageDeflateConfig::new()),
        "Sec-WebSocket-Extensions: permessage-deflate; client_max_window_bits\r\n",
    );
    s.accept_handshake_auto().unwrap();
    assert_eq!(s.extensions(), &["permessage-deflate; client_max_window_bits=15".to_string()]);
}

#[test]
fn client_and_server_exchange_compressed_messages() {
    let mut s = WebSocketServerConnection::new(
        ServerConnectionOptions::new().deflate(PerMessageDeflateConfig::new()),
    );
    let options = ClientConnectionOptions::new("example.com", "/")
        .deflate(PerMessageDeflateConfig::new());
    let mut c = WebSocketClientConnection::new(options, FixedRandom);
    c.connect().unwrap();
    for o in drain_outputs_client(&mut c) {
        if let ConnectionOutput::SendData(b) = o {
            s.feed_recv_buf(&b).unwrap();
        }
    }
    s.accept_handshake_auto().unwrap();
    for o in drain_outputs_server(&mut s) {
        if let ConnectionOutput::SendData(b) = o {
            c.feed_recv_buf(&b, Timestamp::from_millis(0)).unwrap();
        }
    }
    assert_eq!(c.state(), ConnectionState::Connected);
    drain_events_client(&mut c);
    drain_events_server(&mut s);
    let message = "hello ".repeat(50);
    c.send_text(&message).unwrap();
    for o in drain_outputs_client(&mut c) {
        if let ConnectionOutput::SendData(b) = o {
            let mut d = FrameDecoder::new();
            d.feed(&b);
            let f = d.decode_with_info().unwrap().unwrap();
            assert!(f.masked);
            assert!(f.frame.rsv1);
            assert!(f.frame.payload.len() < message.len());
            s.feed_recv_buf(&b).unwrap();
        }
    }
    assert_eq!(
        drain_events_server(&mut s),
        vec![ConnectionEvent::TextMessage(message.clone())]
    );
    s.send_binary(&[1, 2, 3]).unwrap();
    for o in drain_outputs_server(&mut s) {
        if let ConnectionOutput::SendData(b) = o {
            c.feed_recv_buf(&b, Timestamp::from_millis(0)).unwrap();
        }
    }
    assert_eq!(
        drain_events_client(&mut c),
        vec![ConnectionEvent::BinaryMessage(vec![1, 2, 3])]
    );
}

#[test]
fn fragmented_message_is_reassembled() {
    let mut c = connected_client(ClientConnectionOptions::new("h", "/").ping_interval(0), "");
    drain_events_client(&mut c);
    let mut first = Frame::new(Opcode::Text, b"Hel".to_vec());
    first.fin = false;
    let last = Frame::new(Opcode::Continuation, b"lo".to_vec());
    let mut bytes = first.encode_unmasked();
    bytes.extend(last.encode_unmasked());
    c.feed_recv_buf(&bytes, Timestamp::from_millis(0)).unwrap();
    assert_eq!(
        drain_events_client(&mut c),
        vec![ConnectionEvent::TextMessage("Hello".to_string())]
    );
}

#[test]
fn continuation_without_start_is_a_protocol_error() {
    let mut c = connected_client(ClientConnectionOptions::new("h", "/").ping_interval(0), "");
    drain_outputs_client(&mut c);
    let bytes = Frame::new(Opcode::Continuation, b"x".to_vec()).encode_unmasked();
    let err = c.feed_recv_buf(&bytes, Timestamp::from_millis(0)).unwrap_err();
    assert_eq!(err.kind, ErrorKind::ProtocolViolation);
    assert_eq!(err.reason, "continuation frame without initial frame");
    assert_eq!(c.state(), ConnectionState::Closing);
}

#[test]
fn ping_is_answered_with_pong_of_same_data() {
    let mut c = connected_client(ClientConnectionOptions::new("h", "/").ping_interval(0), "");
    drain_outputs_client(&mut c);
    drain_events_client(&mut c);
    let bytes = Frame::ping(vec![4, 5]).encode_unmasked();
    c.feed_recv_buf(&bytes, Timestamp::from_millis(0)).unwrap();
    assert_eq!(drain_events_client(&mut c), vec![ConnectionEvent::Ping(vec![4, 5])]);
    let outputs = drain_outputs_client(&mut c);
    match &outputs[0] {
        ConnectionOutput::SendData(b) => {
            let mut d = FrameDecoder::new();
            d.feed(b);
            let f = d.decode_with_info().unwrap().unwrap();
            assert!(f.masked);
            assert_eq!(f.frame.opcode, Opcode::Pong);
            assert_eq!(f.frame.payload, vec![4, 5]);
        }
        other => panic!("unexpected output {:?}", other),
    }
}

#[test]
fn peer_close_is_answered_and_connection_closed() {
    let mut s = pending_server(ServerConnectionOptions::new().ping_interval(0), "");
    s.accept_handshake_auto().unwrap();
    drain_outputs_server(&mut s);
    drain_events_server(&mut s);
    let bytes = Frame::close(Some(1004), "bye").encode([1, 1, 1, 1]);
    s.feed_recv_buf(&bytes).unwrap();
    assert_eq!(s.state(), ConnectionState::Closed);
    let events = drain_events_server(&mut s);
    assert_eq!(
        events[0],
        ConnectionEvent::Close { code: Some(CloseCode::new(1004)), reason: "bye".to_string() }
    );
    let outputs = drain_outputs_server(&mut s);
    match &outputs[0] {
        ConnectionOutput::SendData(b) => {
            let mut d = FrameDecoder::new();
            d.feed(b);
            let f = d.decode().unwrap().unwrap();
            assert_eq!(f.opcode, Opcode::Close);
            assert_eq!(f.payload, vec![0x03, 0xE8]);
        }
        other => panic!("unexpected output {:?}", other),
    }
    assert_eq!(outputs.last(), Some(&ConnectionOutput::CloseConnection));
}

#[test]
fn close_checks_state_code_and_reason() {
    let mut c = WebSocketClientConnection::new(ClientConnectionOptions::new("h", "/"), FixedRandom);
    let err = c.close(CloseCode::NORMAL(), "").unwrap_err();
    assert_eq!(err.kind, ErrorKind::InvalidState);
    let mut c = connected_client(ClientConnectionOptions::new("h", "/").ping_interval(0), "");
    let err = c.close(CloseCode::new(1005), "").unwrap_err();
    assert_eq!(err.kind, ErrorKind::InvalidInput);
    assert_eq!(err.reason, "close code 1005 is not sendable");
    let long = "a".repeat(124);
    let err = c.close(CloseCode::NORMAL(), &long).unwrap_err();
    assert_eq!(err.reason, "close reason exceeds 123 bytes: 124 bytes");
    drain_outputs_client(&mut c);
    c.close(CloseCode::NORMAL(), "done").unwrap();
    assert_eq!(c.state(), ConnectionState::Closing);
    let outputs = drain_outputs_client(&mut c);
    assert_eq!(outputs.len(), 2);
    assert_eq!(
        outputs[1],
        ConnectionOutput::SetTimer { id: TimerId::CloseTimeout, duration_millis: 5000 }
    );
    c.handle_timer(TimerId::CloseTimeout).unwrap();
    assert_eq!(c.state(), ConnectionState::Closed);
    assert_eq!(drain_outputs_client(&mut c), vec![ConnectionOutput::CloseConnection]);
}

#[test]
fn ping_payload_over_125_bytes_is_refused() {
    let mut c = connected_client(ClientConnectionOptions::new("h", "/").ping_interval(0), "");
    let err = c.send_ping(&[0u8; 126]).unwrap_err();
    assert_eq!(err.kind, ErrorKind::InvalidInput);
    assert!(c.send_ping(&[0u8; 125]).is_ok());
}

#[test]
fn ping_timer_sends_ping_and_rearms() {
    let mut c = connected_client(ClientConnectionOptions::new("h", "/").ping_interval(250), "");
    drain_outputs_client(&mut c);
    c.handle_timer(TimerId::Ping).unwrap();
    let outputs = drain_outputs_client(&mut c);
    assert_eq!(outputs.len(), 3);
    assert_eq!(
        outputs[1],
        ConnectionOutput::SetTimer { id: TimerId::PongTimeout, duration_millis: 10000 }
    );
    assert_eq!(
        outputs[2],
        ConnectionOutput::SetTimer { id: TimerId::Ping, duration_millis: 250 }
    );
    c.handle_timer(TimerId::Ping).unwrap();
    assert_eq!(
        drain_outputs_client(&mut c),
        vec![ConnectionOutput::SetTimer { id: TimerId::Ping, duration_millis: 250 }]
    );
}

#[test]
fn reserved_bits_and_oversized_frames_are_refused() {
    let mut c = connected_client(
        ClientConnectionOptions::new("h", "/").ping_interval(0).max_frame_size(4),
        "",
    );
    let bytes = Frame::binary(vec![0; 5]).encode_unmasked();
    let err = c.feed_recv_buf(&bytes, Timestamp::from_millis(0)).unwrap_err();
    assert_eq!(err.reason, "frame payload too large");
    let mut c = connected_client(ClientConnectionOptions::new("h", "/").ping_interval(0), "");
    let mut f = Frame::binary(vec![1]);
    f.rsv2 = true;
    let err = c.feed_recv_buf(&f.encode_unmasked(), Timestamp::from_millis(0)).unwrap_err();
    assert_eq!(err.reason, "reserved bits set");
    let mut c = connected_client(ClientConnectionOptions::new("h", "/").ping_interval(0), "");
    let mut f = Frame::binary(vec![1]);
    f.rsv1 = true;
    let err = c.feed_recv_buf(&f.encode_unmasked(), Timestamp::from_millis(0)).unwrap_err();
    assert_eq!(err.reason, "rsv1 set without permessage-deflate");
}

#[test]
fn extension_parse_strict_refuses_bad_grammar() {
    assert!(Extension::parse_strict("permessage-deflate; client_max_window_bits").is_ok());
    let err = Extension::parse_strict("permessage deflate").unwrap_err();
    assert_eq!(err.reason, "invalid Sec-WebSocket-Extensions token: permessage deflate");
    let err = Extension::parse_strict("ext; a=b c").unwrap_err();
    assert_eq!(err.reason, "invalid extension-param value: 'a=b c'");
}

#[test]
fn extension_entry_reasons_name_the_faulty_part() {
    let reason = |s: &str| validate_extension_entry(s).unwrap_err().reason;
    assert!(validate_extension_entry("permessage-deflate; client_max_window_bits=15").is_ok());
    assert!(validate_extension_entry("x; p=\"ok\"").is_ok());
    assert_eq!(reason("permessage-deflate;"), "trailing ';' in Sec-WebSocket-Extensions: 'permessage-deflate;'");
    assert_eq!(reason("x; b@d=1"), "invalid extension-param name: 'b@d'");
    assert_eq!(reason("x; b@d"), "invalid extension-param name: 'b@d'");
    assert_eq!(reason("x; p=\"a"), "unclosed quoted-string in extension-param: 'p=\"a'");
    assert_eq!(reason("x; p=\"a\\"), "incomplete escape sequence in quoted-string: 'p=\"a\\'");
    assert_eq!(reason("x; p=\"a\"b"), "trailing characters after closing DQUOTE: 'p=\"a\"b'");
    assert_eq!(reason("x; p=\"a\u{7f}\""), "invalid character in quoted-string: 'p=\"a\u{7f}\"'");
    assert_eq!(reason("x; p=\"a b\""), "quoted-string value after unescaping is not a valid token: 'p=\"a b\"'");
}

#[test]
fn client_request_and_server_answer_read_back_on_both_sides() {
    let mut s = WebSocketServerConnection::new(ServerConnectionOptions::new().protocol("superchat"));
    let options = ClientConnectionOptions::new("example.com", "/chat")
        .origin("https://example.com")
        .protocol("chat")
        .protocol("superchat")
        .header("X-Trace", "abc");
    let mut c = WebSocketClientConnection::new(options, FixedRandom);
    c.connect().unwrap();
    for o in drain_outputs_client(&mut c) {
        if let ConnectionOutput::SendData(b) = o {
            s.feed_recv_buf(&b).unwrap();
        }
    }
    let req = s.handshake_request().unwrap();
    assert_eq!(req.path, "/chat");
    assert_eq!(req.host, "example.com");
    assert_eq!(req.origin.as_deref(), Some("https://example.com"));
    assert_eq!(req.key, Base64::encode_string(&[7u8; 16]));
    assert_eq!(req.protocols, vec!["chat".to_string(), "superchat".to_string()]);
    assert!(req.extensions.is_empty());
    s.accept_handshake_auto().unwrap();
    assert_eq!(s.protocol(), Some("superchat"));
    for o in drain_outputs_server(&mut s) {
        if let ConnectionOutput::SendData(b) = o {
            c.feed_recv_buf(&b, Timestamp::from_millis(0)).unwrap();
        }
    }
    assert_eq!(c.state(), ConnectionState::Connected);
    assert_eq!(c.protocol(), Some("superchat"));
}

fn handshake(
    client: ClientConnectionOptions,
    server: ServerConnectionOptions,
) -> (WebSocketClientConnection<FixedRandom>, WebSocketServerConnection, Result<(), String>) {
    let mut s = WebSocketServerConnection::new(server);
    let mut c = WebSocketClientConnection::new(client, FixedRandom);
    c.connect().unwrap();
    for o in drain_outputs_client(&mut c) {
        if let ConnectionOutput::SendData(b) = o {
            s.feed_recv_buf(&b).unwrap();
        }
    }
    s.accept_handshake_auto().unwrap();
    let mut result = Ok(());
    for o in drain_outputs_server(&mut s) {
        if let ConnectionOutput::SendData(b) = o {
            if let Err(e) = c.feed_recv_buf(&b, Timestamp::from_millis(0)) {
                result = Err(e.reason);
            }
        }
    }
    (c, s, result)
}

#[test]
fn client_accepts_deflate_negotiated_from_its_offer() {
    let (c, s, result) = handshake(
        ClientConnectionOptions::new("example.com", "/")
            .deflate(PerMessageDeflateConfig::new().client_max_window_bits(15).client_no_context_takeover()),
        ServerConnectionOptions::new().deflate(PerMessageDeflateConfig::new().server_no_context_takeover()),
    );
    assert_eq!(result, Ok(()));
    assert_eq!(c.state(), ConnectionState::Connected);
    let answer = "permessage-deflate; server_no_context_takeover; client_no_context_takeover; client_max_window_bits=15";
    assert_eq!(s.extensions(), &[answer.to_string()]);
    assert_eq!(c.extensions(), &[answer.to_string()]);
}

#[test]
fn client_refuses_negotiated_client_window_below_15() {
    let (c, _s, result) = handshake(
        ClientConnectionOptions::new("example.com", "/")
            .deflate(PerMessageDeflateConfig::new().client_max_window_bits(15)),
        ServerConnectionOptions::new().deflate(PerMessageDeflateConfig::new().client_max_window_bits(10)),
    );
    assert_eq!(
        result,
        Err("client_max_window_bits=10 is not supported (only 15 is supported)".to_string())
    );
    assert_ne!(c.state(), ConnectionState::Connected);
}

#[test]
fn request_bytes_are_the_request_line_fields_and_empty_line() {
    let req = shiguredo_websocket::HandshakeRequest::new("/chat", "example.com");
    let bytes = req.build([7; 16]).unwrap();
    let key = Base64::encode_string(&[7u8; 16]);
    let expected = format!(
        "GET /chat HTTP/1.1\r\nHost: example.com\r\nUpgrade: websocket\r\nConnection: Upgrade\r\nSec-WebSocket-Key: {}\r\nSec-WebSocket-Version: 13\r\n\r\n",
        key
    );
    assert_eq!(String::from_utf8(bytes).unwrap(), expected);
}

#[test]
fn response_bytes_are_the_status_line_fields_and_empty_line() {
    let fields = vec![("Upgrade".to_string(), "websocket".to_string()), ("X-A".to_string(), "b".to_string())];
    let bytes = shiguredo_websocket::server::encode_response(101, "Switching Protocols", &fields).unwrap();
    assert_eq!(
        String::from_utf8(bytes).unwrap(),
        "HTTP/1.1 101 Switching Protocols\r\nUpgrade: websocket\r\nX-A: b\r\n\r\n"
    );
    let bad = vec![("Bad Name".to_string(), "v".to_string())];
    let err = shiguredo_websocket::server::encode_response(400, "Bad Request", &bad).unwrap_err();
    assert_eq!(err.kind, ErrorKind::InvalidInput);
}

#[test]
fn validator_buffers_and_hands_back_bytes_after_the_head() {
    let mut v = HandshakeValidator::new([7; 16]);
    v.feed(b"HTTP/1.1 101 Switching");
    assert_eq!(v.remaining(), b"HTTP/1.1 101 Switching");
    assert!(v.validate().unwrap().is_none());
    let accept = calculate_accept(&[7; 16]);
    let rest = format!(
        " Protocols\r\nUpgrade: websocket\r\nConnection: Upgrade\r\nSec-WebSocket-Accept: {}\r\n\r\nabc",
        accept
    );
    v.feed(rest.as_bytes());
    assert!(v.validate().unwrap().is_some());
    assert_eq!(v.remaining(), b"abc");
    let mut big = HandshakeValidator::new([7; 16]);
    big.feed(&vec![b'a'; 70 * 1024]);
    assert_eq!(big.remaining(), b"");
    assert_eq!(big.validate().unwrap_err().kind, ErrorKind::InvalidData);
}

#[test]
fn connect_queues_the_request_built_from_the_options_and_nonce() {
    let options = ClientConnectionOptions::new("example.com", "/chat").protocol("chat");
    let mut c = WebSocketClientConnection::new(options, FixedRandom);
    c.connect().unwrap();
    let outputs = drain_outputs_client(&mut c);
    let expected = shiguredo_websocket::HandshakeRequest::new("/chat", "example.com")
        .protocol("chat")
        .build([7; 16])
        .unwrap();
    assert_eq!(outputs.len(), 1);
    match &outputs[0] {
        ConnectionOutput::SendData(b) => assert_eq!(b, &expected),
        other => panic!("unexpected output {:?}", other),
    }
    assert_eq!(c.connect().unwrap_err().kind, ErrorKind::InvalidState);
    assert!(drain_outputs_client(&mut c).is_empty());
}

#[test]
fn build_refuses_a_bad_target_field_name_or_value() {
    let nonce = [7u8; 16];
    assert!(shiguredo_websocket::HandshakeRequest::new("/a%4A", "example.com").build(nonce).is_ok());
    for target in ["", "/a b", "/%00", "/%4", "/%zz", "/é", "/a\"b"] {
        let err = shiguredo_websocket::HandshakeRequest::new(target, "example.com").build(nonce).unwrap_err();
        assert_eq!(err.kind, ErrorKind::InvalidInput, "target {:?}", target);
    }
    let bad_name = shiguredo_websocket::HandshakeRequest::new("/", "example.com").header("Bad Name", "v");
    assert_eq!(bad_name.build(nonce).unwrap_err().kind, ErrorKind::InvalidInput);
    let bad_value = shiguredo_websocket::HandshakeRequest::new("/", "example.com").header("X-A", "a\r\nb");
    assert_eq!(bad_value.build(nonce).unwrap_err().kind, ErrorKind::InvalidInput);
    let tab_value = shiguredo_websocket::HandshakeRequest::new("/", "example.com").header("X-A", "a\tb é");
    assert!(tab_value.build(nonce).is_ok());
}

#[test]
fn connect_fails_without_change_when_the_request_cannot_be_built() {
    let options = ClientConnectionOptions::new("example.com", "/a b");
    let mut c = WebSocketClientConnection::new(options, FixedRandom);
    assert_eq!(c.connect().unwrap_err().kind, ErrorKind::InvalidInput);
    assert_eq!(c.state(), ConnectionState::Disconnected);
    assert!(drain_outputs_client(&mut c).is_empty());
}
