use shiguredo_websocket::buf::{ByteSliceExt, VecExt};
use shiguredo_websocket::close::truncate_reason;
use shiguredo_websocket::{
    ConnectionState, Compressor, Decompressor, ErrorKind, Extension, Frame, FrameDecoder, Opcode,
    PerMessageDeflateConfig, Timestamp,
};

#[test]
fn config_reads_back_as_itself() {
    let config = PerMessageDeflateConfig::new()
        .server_no_context_takeover()
        .client_no_context_takeover()
        .server_max_window_bits(9)
        .client_max_window_bits(15);
    let ext = config.to_extension();
    assert_eq!(
        PerMessageDeflateConfig::from_extension_for_client_response(&ext),
        Ok(config)
    );
    assert_eq!(
        PerMessageDeflateConfig::from_extension_for_server_request(&ext),
        Ok(config)
    );
}

#[test]
fn negotiation_stays_within_offers() {
    let client = PerMessageDeflateConfig::new().client_max_window_bits(12).server_no_context_takeover();
    let server = PerMessageDeflateConfig::new().client_max_window_bits(14).server_max_window_bits(10);
    let r = PerMessageDeflateConfig::negotiate(&client, &server);
    assert_eq!(r.client_max_window_bits, Some(12));
    assert_eq!(r.server_max_window_bits, None);
    assert!(r.server_no_context_takeover);
    assert!(!r.client_no_context_takeover);
}

#[test]
fn unmasked_frame_round_trips_with_trailing_bytes() {
    let mut f = Frame::new(Opcode::Binary, vec![9; 300]);
    f.fin = false;
    f.rsv1 = true;
    let mut bytes = f.encode_unmasked();
    assert_eq!(&bytes[..4], &[0x42, 126, 0x01, 0x2C]);
    bytes.extend_from_slice(&[0x81]);
    let mut d = FrameDecoder::new();
    d.feed(&bytes);
    let decoded = d.decode_with_info().unwrap().unwrap();
    assert!(!decoded.masked);
    assert_eq!(decoded.frame, f);
    assert_eq!(d.buffer_len(), 1);
}

#[test]
fn masked_encoding_matches_known_bytes() {
    let bytes = Frame::text("Hi").encode([1, 2, 3, 4]);
    assert_eq!(bytes, vec![0x81, 0x82, 1, 2, 3, 4, b'H' ^ 1, b'i' ^ 2]);
}

#[test]
fn decoder_refuses_unknown_opcode_and_long_control_frames() {
    let mut d = FrameDecoder::new();
    d.feed(&[0x83, 0x00]);
    assert_eq!(d.decode().unwrap_err().kind, ErrorKind::ProtocolViolation);
    let mut d = FrameDecoder::new();
    let mut bytes = vec![0x89, 126, 0, 126];
    bytes.extend(vec![0; 126]);
    d.feed(&bytes);
    assert_eq!(d.decode().unwrap_err().kind, ErrorKind::ProtocolViolation);
}

#[test]
fn opcode_round_trips() {
    for v in 0u8..16 {
        if let Some(op) = Opcode::from_u8(v) {
            assert_eq!(op.as_u8(), v);
        }
    }
    assert!(Opcode::from_u8(3).is_none());
    assert!(Opcode::Ping.is_control());
    assert!(Opcode::Text.is_data());
}

#[test]
fn truncated_reason_ends_on_character_boundary() {
    let reason = "é".repeat(70);
    let cut = truncate_reason(&reason, 123);
    assert_eq!(cut.len(), 122);
    assert_eq!(truncate_reason("short", 123), "short");
}

#[test]
fn timestamp_add_then_subtract() {
    let t = Timestamp::from_millis(1000);
    let later = t.add_millis(250);
    assert_eq!(later.as_millis(), 1250);
    assert_eq!(later.saturating_sub(t), 250);
    assert_eq!(t.saturating_sub(later), 0);
    assert_eq!(Timestamp::from_millis(u64::MAX).add_millis(5).as_millis(), u64::MAX);
}

#[test]
fn buffer_write_then_read() {
    let mut v: Vec<u8> = Vec::new();
    v.write_u16(0x0102);
    v.write_u32(0x03040506);
    v.write_u64(0x0708090A0B0C0D0E);
    v.write_bytes(b"ok");
    let mut s: &[u8] = &v;
    assert_eq!(s.read_u16().unwrap(), 0x0102);
    assert_eq!(s.read_u32().unwrap(), 0x03040506);
    assert_eq!(s.read_u64().unwrap(), 0x0708090A0B0C0D0E);
    assert_eq!(s.read_utf8(2).unwrap(), "ok");
    assert_eq!(s.read_u8().unwrap_err().kind, ErrorKind::InsufficientBuffer);
    let bad: Vec<u8> = vec![0xFF];
    let mut s: &[u8] = &bad;
    let err = s.read_utf8(1).unwrap_err();
    assert_eq!(err.kind, ErrorKind::InvalidUtf8);
    assert!(err.reason.starts_with("invalid UTF-8 bytes: "));
}

#[test]
fn decompression_respects_the_limit() {
    let config = PerMessageDeflateConfig::new();
    let mut compressor = Compressor::new(&config, true);
    let data = vec![0u8; 10000];
    let compressed = compressor.compress(&data).unwrap();
    assert!(compressed.len() < data.len());
    let mut small = Decompressor::new(&config, false);
    let err = small.decompress(&compressed, 100).unwrap_err();
    assert_eq!(err.kind, ErrorKind::InvalidData);
    let mut big = Decompressor::new(&config, false);
    assert_eq!(big.decompress(&compressed, 20000).unwrap(), data);
}

#[test]
fn transitions_only_move_forward() {
    let all = [
        ConnectionState::Disconnected,
        ConnectionState::Connecting,
        ConnectionState::Connected,
        ConnectionState::Closing,
        ConnectionState::Closed,
    ];
    for a in all {
        assert!(a.can_transition_to(a));
        for b in all {
            if a != b && a.can_transition_to(b) {
                assert!(!b.can_transition_to(a));
            }
        }
        assert_eq!(
            ConnectionState::Closed.can_transition_to(a),
            a == ConnectionState::Closed
        );
    }
    assert!(ConnectionState::Connecting.can_transition_to(ConnectionState::Closed));
    assert!(!ConnectionState::Disconnected.can_transition_to(ConnectionState::Connected));
}

#[test]
fn encoded_extension_parses_back() {
    let ext = Extension::new("x-custom")
        .param("flag", None)
        .param("level", Some("9"))
        .param("mode", Some("fast~1"));
    let text = ext.encode();
    assert_eq!(text, "x-custom; flag; level=9; mode=fast~1");
    assert_eq!(Extension::parse(&text), vec![ext]);
    let bare = Extension::new("permessage-deflate");
    assert_eq!(Extension::parse(&bare.encode()), vec![bare]);
}

#[test]
fn large_messages_and_kept_context_decompress_whole() {
    let config = PerMessageDeflateConfig::new();
    let mut compressor = Compressor::new(&config, true);
    let mut decompressor = Decompressor::new(&config, false);
    let big = vec![0u8; 1_000_000];
    let compressed = compressor.compress(&big).unwrap();
    assert!(!compressed.ends_with(&[0x00, 0x00, 0xFF, 0xFF]));
    assert_eq!(decompressor.decompress(&compressed, 16 * 1024 * 1024).unwrap(), big);
    let text = b"hello hello hello hello hello hello hello hello hello hello hello hello".to_vec();
    let first = compressor.compress(&text).unwrap();
    let second = compressor.compress(&text).unwrap();
    assert_eq!(decompressor.decompress(&first, 1000).unwrap(), text);
    assert_eq!(decompressor.decompress(&second, 1000).unwrap(), text);
}

#[test]
fn decompression_failure_reports_and_drops_the_context() {
    let config = PerMessageDeflateConfig::new();
    let mut decompressor = Decompressor::new(&config, false);
    let err = decompressor.decompress(&[0xFF, 0xFF, 0xFF], 1000).unwrap_err();
    assert_eq!(err.kind, ErrorKind::InvalidData);
    assert!(err.reason.starts_with("decompression failed: "));
    let mut compressor = Compressor::new(&config, true);
    let data = b"after a failure the next message decodes on a fresh context".to_vec();
    let compressed = compressor.compress(&data).unwrap();
    assert_eq!(decompressor.decompress(&compressed, 1000).unwrap(), data);
    let limit = decompressor.decompress(&compressor.compress(&vec![7u8; 5000]).unwrap(), 10).unwrap_err();
    assert_eq!(limit.reason, "decompressed size exceeds maximum limit of 10 bytes");
}
