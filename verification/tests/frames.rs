use shiguredo_websocket::{Frame, FrameDecoder, Opcode};

#[test]
fn test_encode_decode_text() {
    let frame = Frame::text("Hello");
    let masking_key = [0x12, 0x34, 0x56, 0x78];
    let encoded = frame.encode(masking_key);

    let mut decoder = FrameDecoder::new();
    decoder.feed(&encoded);
    let decoded = decoder.decode().unwrap().unwrap();

    assert!(decoded.fin);
    assert_eq!(decoded.opcode, Opcode::Text);
    assert_eq!(decoded.payload, b"Hello");
}

#[test]
fn test_encode_decode_binary() {
    let frame = Frame::binary(vec![0x01, 0x02, 0x03, 0x04]);
    let masking_key = [0xAA, 0xBB, 0xCC, 0xDD];
    let encoded = frame.encode(masking_key);

    let mut decoder = FrameDecoder::new();
    decoder.feed(&encoded);
    let decoded = decoder.decode().unwrap().unwrap();

    assert!(decoded.fin);
    assert_eq!(decoded.opcode, Opcode::Binary);
    assert_eq!(decoded.payload, vec![0x01, 0x02, 0x03, 0x04]);
}

#[test]
fn test_encode_decode_ping_pong() {
    let ping = Frame::ping(vec![0x01, 0x02]);
    let masking_key = [0x11, 0x22, 0x33, 0x44];
    let encoded = ping.encode(masking_key);

    let mut decoder = FrameDecoder::new();
    decoder.feed(&encoded);
    let decoded = decoder.decode().unwrap().unwrap();

    assert!(decoded.fin);
    assert_eq!(decoded.opcode, Opcode::Ping);
    assert_eq!(decoded.payload, vec![0x01, 0x02]);
}

#[test]
fn test_encode_decode_close() {
    let close = Frame::close(Some(1000), "goodbye");
    let masking_key = [0x55, 0x66, 0x77, 0x88];
    let encoded = close.encode(masking_key);

    let mut decoder = FrameDecoder::new();
    decoder.feed(&encoded);
    let decoded = decoder.decode().unwrap().unwrap();

    assert!(decoded.fin);
    assert_eq!(decoded.opcode, Opcode::Close);
    assert_eq!(&decoded.payload[0..2], &[0x03, 0xE8]);
    assert_eq!(&decoded.payload[2..], b"goodbye");
}

#[test]
fn test_large_payload() {
    let payload = vec![0xAB; 1000];
    let frame = Frame::binary(payload.clone());
    let masking_key = [0x12, 0x34, 0x56, 0x78];
    let encoded = frame.encode(masking_key);

    let mut decoder = FrameDecoder::new();
    decoder.feed(&encoded);
    let decoded = decoder.decode().unwrap().unwrap();

    assert_eq!(decoded.payload, payload);
}

#[test]
fn test_very_large_payload() {
    let payload = vec![0xCD; 70000];
    let frame = Frame::binary(payload.clone());
    let masking_key = [0x98, 0x76, 0x54, 0x32];
    let encoded = frame.encode(masking_key);

    let mut decoder = FrameDecoder::new();
    decoder.feed(&encoded);
    let decoded = decoder.decode().unwrap().unwrap();

    assert_eq!(decoded.payload, payload);
}

#[test]
fn test_partial_frame() {
    let frame = Frame::text("Hello");
    let masking_key = [0x12, 0x34, 0x56, 0x78];
    let encoded = frame.encode(masking_key);

    let mut decoder = FrameDecoder::new();

    for byte in &encoded[..encoded.len() - 1] {
        decoder.feed(&[*byte]);
        assert!(decoder.decode().unwrap().is_none());
    }

    decoder.feed(&[encoded[encoded.len() - 1]]);
    let decoded = decoder.decode().unwrap().unwrap();
    assert_eq!(decoded.payload, b"Hello");
}
