use phantom::frame::{
    decode, decode_message, encode, encode_message, Frame, FrameDecoder, FrameError, FrameType,
    HEADER_SIZE, MAX_PAYLOAD,
};

#[test]
fn roundtrip_data_frame() {
    let frame = Frame::data(42, b"hello world".to_vec());
    let encoded = encode(&frame, false).unwrap();
    let (decoded, consumed) = decode(&encoded).unwrap().unwrap();
    assert_eq!(consumed, encoded.len());
    assert_eq!(decoded, frame);
}

#[test]
fn roundtrip_data_compressed() {
    let payload = vec![0x41; 1024];
    let frame = Frame::data(1, payload.clone());
    let encoded = encode(&frame, true).unwrap();
    assert!(encoded.len() < HEADER_SIZE + 1024);
    let (decoded, _) = decode(&encoded).unwrap().unwrap();
    assert_eq!(decoded.payload, payload);
    assert_eq!(decoded.sequence, 1);
}

#[test]
fn roundtrip_resize() {
    let frame = Frame::resize(7, 120, 40);
    let encoded = encode(&frame, false).unwrap();
    let (decoded, _) = decode(&encoded).unwrap().unwrap();
    assert_eq!(decoded.parse_resize(), Some((120, 40)));
}

#[test]
fn roundtrip_heartbeat() {
    let frame = Frame::heartbeat(99);
    let encoded = encode(&frame, false).unwrap();
    let (decoded, _) = decode(&encoded).unwrap().unwrap();
    assert_eq!(decoded.frame_type, FrameType::Heartbeat);
    assert_eq!(decoded.sequence, 99);
    assert!(decoded.payload.is_empty());
}

#[test]
fn roundtrip_close() {
    let frame = Frame::close(100);
    let encoded = encode(&frame, false).unwrap();
    let (decoded, _) = decode(&encoded).unwrap().unwrap();
    assert_eq!(decoded.frame_type, FrameType::Close);
}

#[test]
fn roundtrip_window_update() {
    let frame = Frame::window_update(5, 262144);
    let encoded = encode(&frame, false).unwrap();
    let (decoded, _) = decode(&encoded).unwrap().unwrap();
    assert_eq!(decoded.parse_window_update(), Some(262144));
}

#[test]
fn roundtrip_scrollback() {
    let frame = Frame::scrollback(10, b"terminal scrollback data".to_vec());
    let encoded = encode(&frame, false).unwrap();
    let (decoded, _) = decode(&encoded).unwrap().unwrap();
    assert_eq!(decoded.frame_type, FrameType::Scrollback);
    assert_eq!(decoded.payload, b"terminal scrollback data");
}

#[test]
fn decode_incomplete_header() {
    let result = decode(&[0x01, 0x00]).unwrap();
    assert!(result.is_none());
}

#[test]
fn decode_incomplete_payload() {
    let frame = Frame::data(1, b"hello".to_vec());
    let encoded = encode(&frame, false).unwrap();
    let result = decode(&encoded[..HEADER_SIZE + 2]).unwrap();
    assert!(result.is_none());
}

#[test]
fn decode_unknown_type() {
    let buf = vec![0xFF; HEADER_SIZE];
    let err = decode(&buf).unwrap_err();
    assert!(matches!(err, FrameError::UnknownType(0xFF)));
}

#[test]
fn payload_too_large() {
    let frame = Frame::data(1, vec![0; MAX_PAYLOAD + 1]);
    let err = encode(&frame, false).unwrap_err();
    assert!(matches!(err, FrameError::PayloadTooLarge(_)));
}

#[test]
fn streaming_decoder() {
    let f1 = Frame::data(1, b"first".to_vec());
    let f2 = Frame::data(2, b"second".to_vec());

    let e1 = encode(&f1, false).unwrap();
    let e2 = encode(&f2, false).unwrap();

    let mut decoder = FrameDecoder::new();

    decoder.feed(&e1[..10]);
    assert!(decoder.decode_next().unwrap().is_none());

    decoder.feed(&e1[10..]);
    decoder.feed(&e2);

    let d1 = decoder.decode_next().unwrap().unwrap();
    assert_eq!(d1, f1);

    let d2 = decoder.decode_next().unwrap().unwrap();
    assert_eq!(d2, f2);

    assert!(decoder.decode_next().unwrap().is_none());
}

#[test]
fn control_message_roundtrip() {
    let json = br#"{"type":"ping","request_id":"abc123"}"#;
    let encoded = encode_message(json);
    let (decoded, consumed) = decode_message(&encoded).unwrap();
    assert_eq!(decoded, json);
    assert_eq!(consumed, encoded.len());
}

#[test]
fn control_message_incomplete() {
    let json = br#"{"type":"ping"}"#;
    let encoded = encode_message(json);
    assert!(decode_message(&encoded[..3]).is_none());
    assert!(decode_message(&encoded[..6]).is_none());
}

#[test]
fn compression_not_used_for_small_payloads() {
    let frame = Frame::data(1, b"tiny".to_vec());
    let encoded = encode(&frame, true).unwrap();
    assert_eq!(u16::from_be_bytes([encoded[13], encoded[14]]), 0);
}

#[test]
fn compression_skipped_when_not_beneficial() {
    let payload: Vec<u8> = (0..512).map(|i| (i * 37 + 13) as u8).collect();
    let frame = Frame::data(1, payload.clone());
    let encoded_compressed = encode(&frame, true).unwrap();
    let encoded_plain = encode(&frame, false).unwrap();
    let (d1, _) = decode(&encoded_compressed).unwrap().unwrap();
    let (d2, _) = decode(&encoded_plain).unwrap().unwrap();
    assert_eq!(d1.payload, payload);
    assert_eq!(d2.payload, payload);
}

// ── Further cases ───────────────────────────────────────────────────────

fn xorshift_bytes(n: usize, mut state: u64) -> Vec<u8> {
    let mut out = Vec::with_capacity(n);
    for _ in 0..n {
        state ^= state << 13;
        state ^= state >> 7;
        state ^= state << 17;
        out.push((state >> 24) as u8);
    }
    out
}

#[test]
fn header_layout_is_big_endian() {
    let frame = Frame::data(0x0102030405060708, vec![0xAA, 0xBB, 0xCC]);
    let encoded = encode(&frame, false).unwrap();
    assert_eq!(
        encoded,
        vec![0x01, 0, 0, 0, 3, 1, 2, 3, 4, 5, 6, 7, 8, 0, 0, 0xAA, 0xBB, 0xCC]
    );
}

#[test]
fn zeros_compress_and_set_flag() {
    let frame = Frame::data(1, vec![0u8; 1024]);
    let encoded = encode(&frame, true).unwrap();
    let flags = u16::from_be_bytes([encoded[13], encoded[14]]);
    assert_eq!(flags & 0x0001, 1);
    assert!(encoded.len() < HEADER_SIZE + 1024);
    let (decoded, consumed) = decode(&encoded).unwrap().unwrap();
    assert_eq!(consumed, encoded.len());
    assert_eq!(decoded.payload, vec![0u8; 1024]);
}

#[test]
fn random_payload_is_sent_plain() {
    let payload = xorshift_bytes(4096, 0x9E3779B97F4A7C15);
    let frame = Frame::data(3, payload.clone());
    let encoded = encode(&frame, true).unwrap();
    assert_eq!(u16::from_be_bytes([encoded[13], encoded[14]]), 0);
    assert_eq!(encoded.len(), HEADER_SIZE + payload.len());
    assert_eq!(&encoded[HEADER_SIZE..], &payload[..]);
}

#[test]
fn compressed_round_trip_is_never_longer() {
    for (i, n) in [0usize, 1, 256, 257, 1000, 4096, MAX_PAYLOAD].iter().enumerate() {
        let mut payload = xorshift_bytes(*n / 2, i as u64 + 1);
        payload.extend(std::iter::repeat(b'z').take(*n - *n / 2));
        let frame = Frame::data(i as u64, payload.clone());
        let encoded = encode(&frame, true).unwrap();
        assert!(encoded.len() <= HEADER_SIZE + payload.len());
        let (decoded, consumed) = decode(&encoded).unwrap().unwrap();
        assert_eq!(consumed, encoded.len());
        assert_eq!(decoded.payload, payload);
        assert_eq!(decoded.sequence, i as u64);
    }
}

#[test]
fn max_payload_is_accepted() {
    let frame = Frame::data(1, vec![7; MAX_PAYLOAD]);
    let encoded = encode(&frame, false).unwrap();
    assert_eq!(encoded.len(), HEADER_SIZE + MAX_PAYLOAD);
    let (decoded, _) = decode(&encoded).unwrap().unwrap();
    assert_eq!(decoded, frame);
}

#[test]
fn decode_rejects_announced_oversize() {
    let mut buf = vec![0x01, 0x00, 0x01, 0x00, 0x01];
    buf.extend_from_slice(&[0; 10]);
    let err = decode(&buf).unwrap_err();
    assert!(matches!(err, FrameError::PayloadTooLarge(65537)));
}

#[test]
fn decode_reports_bad_compressed_payload() {
    let mut buf = vec![0x01, 0, 0, 0, 4, 0, 0, 0, 0, 0, 0, 0, 1, 0, 1];
    buf.extend_from_slice(&[1, 2, 3, 4]);
    let err = decode(&buf).unwrap_err();
    assert!(matches!(err, FrameError::Decompress(_)));
}

#[test]
fn every_type_round_trips_plain() {
    let frames = vec![
        Frame::data(1, b"abc".to_vec()),
        Frame::resize(2, 80, 24),
        Frame::heartbeat(3),
        Frame::close(4),
        Frame::scrollback(0, b"history".to_vec()),
        Frame::window_update(6, u64::MAX),
    ];
    for f in frames {
        let encoded = encode(&f, false).unwrap();
        let (decoded, consumed) = decode(&encoded).unwrap().unwrap();
        assert_eq!(decoded, f);
        assert_eq!(consumed, encoded.len());
    }
}

#[test]
fn streaming_decoder_ignores_chunk_boundaries() {
    let frames = vec![
        Frame::data(1, b"one".to_vec()),
        Frame::resize(2, 100, 30),
        Frame::data(3, vec![b'q'; 2000]),
        Frame::close(4),
    ];
    let mut bytes = Vec::new();
    for f in &frames {
        bytes.extend(encode(f, true).unwrap());
    }
    for chunk in [1usize, 2, 7, 15, 16, 100, bytes.len()] {
        let mut decoder = FrameDecoder::new();
        let mut out = Vec::new();
        for piece in bytes.chunks(chunk) {
            decoder.feed(piece);
            while let Some(f) = decoder.decode_next().unwrap() {
                out.push(f);
            }
        }
        assert_eq!(out, frames);
    }
}

#[test]
fn parse_helpers_reject_other_types() {
    assert_eq!(Frame::data(1, vec![0; 8]).parse_resize(), None);
    assert_eq!(Frame::data(1, vec![0; 8]).parse_window_update(), None);
    assert_eq!(Frame::resize(1, 1, 2).parse_window_update(), None);
}

#[test]
fn control_message_layout() {
    let encoded = encode_message(b"{}");
    assert_eq!(encoded, vec![0, 0, 0, 2, b'{', b'}']);
    let mut longer = encoded.clone();
    longer.extend_from_slice(b"rest");
    let (body, used) = decode_message(&longer).unwrap();
    assert_eq!(body, b"{}");
    assert_eq!(used, 6);
}

#[test]
fn default_decoder_starts_empty() {
    let mut decoder = FrameDecoder::default();
    assert!(decoder.decode_next().unwrap().is_none());
    decoder.feed(&encode(&Frame::heartbeat(1), false).unwrap());
    assert_eq!(decoder.decode_next().unwrap().unwrap(), Frame::heartbeat(1));
}
