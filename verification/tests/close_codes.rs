use shiguredo_websocket::{CloseCode, Error, ErrorKind, Opcode};

#[test]
fn test_close_code_constants() {
    assert_eq!(CloseCode::NORMAL().as_u16(), 1000);
    assert_eq!(CloseCode::GOING_AWAY().as_u16(), 1001);
    assert_eq!(CloseCode::PROTOCOL_ERROR().as_u16(), 1002);
    assert_eq!(CloseCode::ABNORMAL_CLOSURE().as_u16(), 1006);
}

#[test]
fn test_close_code_is_valid() {
    assert!(CloseCode::NORMAL().is_valid());
    assert!(CloseCode::GOING_AWAY().is_valid());
    assert!(CloseCode::new(3000).is_valid());
    assert!(CloseCode::new(4000).is_valid());
    assert!(!CloseCode::new(999).is_valid());
    // 1004 is reserved but accepted when received.
    assert!(CloseCode::new(1004).is_valid());
    // 1005, 1006 and 1015 must never be set as a status code.
    assert!(!CloseCode::new(1005).is_valid());
    assert!(!CloseCode::new(1006).is_valid());
    assert!(!CloseCode::new(1015).is_valid());
    // 1012-1014 are registered.
    assert!(CloseCode::new(1012).is_valid());
    assert!(CloseCode::new(1013).is_valid());
    assert!(CloseCode::new(1014).is_valid());
    // 1016-2999 are reserved but accepted when received.
    assert!(CloseCode::new(1016).is_valid());
    assert!(CloseCode::new(2999).is_valid());
    // 5000 and above are invalid.
    assert!(!CloseCode::new(5000).is_valid());
}

#[test]
fn test_close_code_is_sendable() {
    assert!(CloseCode::NORMAL().is_sendable());
    assert!(CloseCode::PROTOCOL_ERROR().is_sendable());
    assert!(!CloseCode::NO_STATUS_RECEIVED().is_sendable());
    assert!(!CloseCode::ABNORMAL_CLOSURE().is_sendable());
    assert!(!CloseCode::TLS_HANDSHAKE().is_sendable());
    // 1004 is reserved and never sent.
    assert!(!CloseCode::RESERVED().is_sendable());
    assert!(CloseCode::new(1012).is_sendable());
    assert!(CloseCode::new(1013).is_sendable());
    assert!(CloseCode::new(1014).is_sendable());
    // 2000-2999 are reserved and never sent.
    assert!(!CloseCode::new(2000).is_sendable());
    assert!(!CloseCode::new(2999).is_sendable());
    // 3000-4999 may be sent.
    assert!(CloseCode::new(3000).is_sendable());
    assert!(CloseCode::new(4999).is_sendable());
}

#[test]
fn close_code_text_names_the_code() {
    assert_eq!(CloseCode::NORMAL().to_string(), "1000 (Normal Closure)");
    assert_eq!(CloseCode::TLS_HANDSHAKE().to_string(), "1015 (TLS Handshake)");
    assert_eq!(CloseCode::new(3001).to_string(), "3001 (Library/Framework)");
    assert_eq!(CloseCode::new(4999).to_string(), "4999 (Application)");
    assert_eq!(CloseCode::new(1012).to_string(), "1012 (Unknown)");
    assert_eq!(CloseCode::new(7).to_string(), "7 (Unknown)");
}

#[test]
fn opcode_and_error_texts() {
    assert_eq!(Opcode::Continuation.to_string(), "Continuation");
    assert_eq!(Opcode::Pong.to_string(), "Pong");
    let e = Error::with_text(ErrorKind::ProtocolViolation, "bad frame");
    assert_eq!(e.to_string(), "ProtocolViolation: bad frame");
    let e = e.with_close_code(1002);
    assert_eq!(e.to_string(), "ProtocolViolation: bad frame (WebSocket close code: 1002)");
}
