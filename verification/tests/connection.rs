use base64ct::{Base64, Encoding};
use shiguredo_websocket::{
    ClientConnectionOptions, ConnectionEvent, ConnectionOutput, Frame, FrameDecoder, Opcode,
    RandomSource, ServerConnectionOptions, TimerId, Timestamp, WebSocketClientConnection,
    WebSocketServerConnection,
};

struct FixedRandom {
    masking_key: [u8; 4],
    nonce: [u8; 16],
}

impl FixedRandom {
    fn new() -> Self {
        Self {
            masking_key: [0xAB, 0xCD, 0xEF, 0x12],
            nonce: [1, 2, 3, 4, 5, 6, 7, 8, 9, 10, 11, 12, 13, 14, 15, 16],
        }
    }
}

impl RandomSource for FixedRandom {
    fn masking_key(&mut self) -> [u8; 4] {
        self.masking_key
    }

    fn nonce(&mut self) -> [u8; 16] {
        self.nonce
    }
}

fn compute_accept(nonce: &[u8; 16]) -> String {
    let key = Base64::encode_string(nonce.as_slice());
    let combined = format!("{}258EAFA5-E914-47DA-95CA-C5AB0DC85B11", key);
    let hash = aws_lc_rs::digest::digest(
        &aws_lc_rs::digest::SHA1_FOR_LEGACY_USE_ONLY,
        combined.as_bytes(),
    );
    Base64::encode_string(hash.as_ref())
}

fn create_valid_handshake_response(accept: &str) -> Vec<u8> {
    format!(
        "HTTP/1.1 101 Switching Protocols\r\n\
         Upgrade: websocket\r\n\
         Connection: Upgrade\r\n\
         Sec-WebSocket-Accept: {}\r\n\
         \r\n",
        accept
    )
    .into_bytes()
}

fn create_valid_handshake_request(key: &[u8; 16]) -> Vec<u8> {
    let encoded_key = Base64::encode_string(key.as_slice());
    format!(
        "GET /websocket HTTP/1.1\r\n\
         Host: example.com\r\n\
         Upgrade: websocket\r\n\
         Connection: Upgrade\r\n\
         Sec-WebSocket-Key: {}\r\n\
         Sec-WebSocket-Version: 13\r\n\
         \r\n",
        encoded_key
    )
    .into_bytes()
}

fn setup_connected_client() -> (WebSocketClientConnection<FixedRandom>, Timestamp) {
    let options = ClientConnectionOptions::new("example.com", "/ws");
    let random = FixedRandom::new();
    let nonce = random.nonce;
    let mut conn = WebSocketClientConnection::new(options, random);
    let now = Timestamp::from_millis(0);

    conn.connect().unwrap();
    while conn.poll_output().is_some() {}

    let accept = compute_accept(&nonce);
    let response = create_valid_handshake_response(&accept);
    conn.feed_recv_buf(&response, now).unwrap();

    while conn.poll_event().is_some() {}
    while conn.poll_output().is_some() {}

    (conn, now)
}

fn setup_connected_server() -> WebSocketServerConnection {
    let mut conn = WebSocketServerConnection::new(ServerConnectionOptions::new());
    let key: [u8; 16] = [0; 16];
    let request = create_valid_handshake_request(&key);
    conn.feed_recv_buf(&request).unwrap();
    conn.accept_handshake_auto().unwrap();

    while conn.poll_event().is_some() {}
    while conn.poll_output().is_some() {}

    conn
}

fn extract_close_code_from_unmasked_output(data: &[u8]) -> u16 {
    let mut decoder = FrameDecoder::new();
    decoder.feed(data);
    let frame = decoder
        .decode()
        .expect("decoding failed")
        .expect("frame incomplete");
    assert_eq!(frame.opcode, Opcode::Close, "not a close frame");
    assert!(frame.payload.len() >= 2, "close payload too short");
    u16::from_be_bytes([frame.payload[0], frame.payload[1]])
}

fn extract_close_code_from_masked_output(data: &[u8]) -> u16 {
    let mut decoder = FrameDecoder::new();
    decoder.feed(data);
    let decoded = decoder
        .decode_with_info()
        .expect("decoding failed")
        .expect("frame incomplete");
    assert_eq!(decoded.frame.opcode, Opcode::Close, "not a close frame");
    assert!(decoded.masked, "client frames must be masked");
    assert!(decoded.frame.payload.len() >= 2, "close payload too short");
    u16::from_be_bytes([decoded.frame.payload[0], decoded.frame.payload[1]])
}

#[test]
fn server_invalid_utf8_text_frame_sends_close_1007() {
    let mut conn = setup_connected_server();

    let mask_key = [0xAB, 0xCD, 0xEF, 0x12];
    let invalid_utf8 = vec![0xFF, 0xFE, 0x80];
    let frame = Frame::new(Opcode::Text, invalid_utf8).encode(mask_key);

    let result = conn.feed_recv_buf(&frame);
    assert!(result.is_err(), "invalid UTF-8 text must fail");

    let mut error_found = false;
    while let Some(event) = conn.poll_event() {
        if let ConnectionEvent::Error(msg) = event {
            assert!(msg.contains("invalid UTF-8"), "unexpected message: {}", msg);
            error_found = true;
            break;
        }
    }
    assert!(error_found, "no Error event queued");

    let mut close_found = false;
    while let Some(output) = conn.poll_output() {
        if let ConnectionOutput::SendData(data) = output {
            let code = extract_close_code_from_unmasked_output(&data);
            assert_eq!(code, 1007, "close code must be 1007 (Invalid Payload Data)");
            close_found = true;
            break;
        }
    }
    assert!(close_found, "no close frame queued");
}

#[test]
fn client_pong_timeout_sends_close_1008() {
    let (mut conn, _now) = setup_connected_client();

    conn.send_ping(&[]).unwrap();
    while conn.poll_output().is_some() {}

    let result = conn.handle_timer(TimerId::PongTimeout);
    assert!(result.is_ok(), "handle_timer must return Ok(())");

    let mut error_found = false;
    while let Some(event) = conn.poll_event() {
        if let ConnectionEvent::Error(msg) = event {
            assert_eq!(msg, "pong timeout");
            error_found = true;
            break;
        }
    }
    assert!(error_found, "no pong timeout event queued");

    let mut close_found = false;
    while let Some(output) = conn.poll_output() {
        if let ConnectionOutput::SendData(data) = output {
            let code = extract_close_code_from_masked_output(&data);
            assert_eq!(code, 1008, "close code must be 1008 (Policy Violation)");
            close_found = true;
            break;
        }
    }
    assert!(close_found, "no close frame queued");
}

#[test]
fn server_pong_timeout_sends_close_1008() {
    let mut conn = setup_connected_server();

    conn.send_ping(&[]).unwrap();
    while conn.poll_output().is_some() {}

    let result = conn.handle_timer(TimerId::PongTimeout);
    assert!(result.is_ok(), "handle_timer must return Ok(())");

    let mut error_found = false;
    while let Some(event) = conn.poll_event() {
        if let ConnectionEvent::Error(msg) = event {
            assert_eq!(msg, "pong timeout");
            error_found = true;
            break;
        }
    }
    assert!(error_found, "no pong timeout event queued");

    let mut close_found = false;
    while let Some(output) = conn.poll_output() {
        if let ConnectionOutput::SendData(data) = output {
            let code = extract_close_code_from_unmasked_output(&data);
            assert_eq!(code, 1008, "close code must be 1008 (Policy Violation)");
            close_found = true;
            break;
        }
    }
    assert!(close_found, "no close frame queued");
}

#[test]
fn client_masked_frame_sends_close_1002() {
    let (mut conn, now) = setup_connected_client();

    let masked_frame = Frame::new(Opcode::Text, b"hello".to_vec()).encode([0xAB, 0xCD, 0xEF, 0x12]);
    let result = conn.feed_recv_buf(&masked_frame, now);
    assert!(result.is_err(), "a masked server frame must fail");

    let mut close_found = false;
    while let Some(output) = conn.poll_output() {
        if let ConnectionOutput::SendData(data) = output {
            let code = extract_close_code_from_masked_output(&data);
            assert_eq!(code, 1002, "close code must be 1002 (Protocol Error)");
            close_found = true;
            break;
        }
    }
    assert!(close_found, "no close frame queued");
}

#[test]
fn server_unmasked_frame_sends_close_1002() {
    let mut conn = setup_connected_server();

    let unmasked_frame = Frame::new(Opcode::Text, b"hello".to_vec()).encode_unmasked();
    let result = conn.feed_recv_buf(&unmasked_frame);
    assert!(result.is_err(), "an unmasked client frame must fail");

    let mut close_found = false;
    while let Some(output) = conn.poll_output() {
        if let ConnectionOutput::SendData(data) = output {
            let code = extract_close_code_from_unmasked_output(&data);
            assert_eq!(code, 1002, "close code must be 1002 (Protocol Error)");
            close_found = true;
            break;
        }
    }
    assert!(close_found, "no close frame queued");
}
