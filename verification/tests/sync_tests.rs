use zelland::sync::{
    decode_message, encode_awareness, encode_sync_step1, encode_sync_step2, encode_update,
    read_var_bytes, read_var_uint, write_var_bytes, write_var_uint, SyncError, SyncMessage,
};

#[test]
fn test_var_uint_roundtrip_small() {
    for value in [0u64, 1, 42, 127] {
        let mut buf = Vec::new();
        write_var_uint(&mut buf, value);
        let (decoded, consumed) = read_var_uint(&buf).unwrap();
        assert_eq!(decoded, value);
        assert_eq!(consumed, buf.len());
    }
}

#[test]
fn test_var_uint_roundtrip_medium() {
    for value in [128u64, 255, 16383, 16384, 65535] {
        let mut buf = Vec::new();
        write_var_uint(&mut buf, value);
        let (decoded, consumed) = read_var_uint(&buf).unwrap();
        assert_eq!(decoded, value);
        assert_eq!(consumed, buf.len());
    }
}

#[test]
fn test_var_uint_roundtrip_large() {
    let value = 1_000_000_000u64;
    let mut buf = Vec::new();
    write_var_uint(&mut buf, value);
    let (decoded, consumed) = read_var_uint(&buf).unwrap();
    assert_eq!(decoded, value);
    assert_eq!(consumed, buf.len());
}

#[test]
fn test_var_uint_single_byte_encoding() {
    let mut buf = Vec::new();
    write_var_uint(&mut buf, 0);
    assert_eq!(buf, vec![0x00]);

    buf.clear();
    write_var_uint(&mut buf, 127);
    assert_eq!(buf, vec![0x7F]);
}

#[test]
fn test_var_uint_two_byte_encoding() {
    let mut buf = Vec::new();
    write_var_uint(&mut buf, 128);
    assert_eq!(buf, vec![0x80, 0x01]);
}

#[test]
fn test_var_bytes_roundtrip() {
    let data = b"hello world";
    let mut buf = Vec::new();
    write_var_bytes(&mut buf, data);
    let (decoded, consumed) = read_var_bytes(&buf).unwrap();
    assert_eq!(decoded, data);
    assert_eq!(consumed, buf.len());
}

#[test]
fn test_var_bytes_empty() {
    let mut buf = Vec::new();
    write_var_bytes(&mut buf, b"");
    let (decoded, consumed) = read_var_bytes(&buf).unwrap();
    assert!(decoded.is_empty());
    assert_eq!(consumed, buf.len());
}

#[test]
fn test_encode_decode_sync_step1() {
    let sv = vec![1, 2, 3, 4, 5];
    let encoded = encode_sync_step1(&sv);
    let decoded = decode_message(&encoded).unwrap();
    match decoded {
        SyncMessage::SyncStep1(data) => assert_eq!(data, sv),
        other => panic!("Expected SyncStep1, got {:?}", other),
    }
}

#[test]
fn test_encode_decode_sync_step2() {
    let update = vec![10, 20, 30];
    let encoded = encode_sync_step2(&update);
    let decoded = decode_message(&encoded).unwrap();
    match decoded {
        SyncMessage::SyncStep2(data) => assert_eq!(data, update),
        other => panic!("Expected SyncStep2, got {:?}", other),
    }
}

#[test]
fn test_encode_decode_update() {
    let update = vec![0xFF, 0xFE, 0xFD];
    let encoded = encode_update(&update);
    let decoded = decode_message(&encoded).unwrap();
    match decoded {
        SyncMessage::Update(data) => assert_eq!(data, update),
        other => panic!("Expected Update, got {:?}", other),
    }
}

#[test]
fn test_encode_decode_awareness() {
    let awareness_data = vec![5, 6, 7, 8];
    let encoded = encode_awareness(&awareness_data);
    let decoded = decode_message(&encoded).unwrap();
    match decoded {
        SyncMessage::Awareness(data) => assert_eq!(data, awareness_data),
        other => panic!("Expected Awareness, got {:?}", other),
    }
}

#[test]
fn test_decode_unknown_message_type() {
    let data = vec![99];
    match decode_message(&data) {
        Err(SyncError::UnknownMessageType(99)) => {}
        other => panic!("Expected UnknownMessageType(99), got {:?}", other),
    }
}

#[test]
fn test_decode_empty_message() {
    match decode_message(&[]) {
        Err(SyncError::UnexpectedEof) => {}
        other => panic!("Expected UnexpectedEof, got {:?}", other),
    }
}

#[test]
fn test_decode_truncated_sync() {
    let data = vec![0x00, 0x00];
    match decode_message(&data) {
        Err(SyncError::UnexpectedEof) => {}
        Ok(SyncMessage::SyncStep1(sv)) => assert!(sv.is_empty()),
        other => panic!("Expected error or empty SyncStep1, got {:?}", other),
    }
}

// --- further cases ---

#[test]
fn var_uint_max_value_roundtrips_in_ten_bytes() {
    let mut buf = Vec::new();
    write_var_uint(&mut buf, u64::MAX);
    assert_eq!(buf.len(), 10);
    assert_eq!(read_var_uint(&buf).unwrap(), (u64::MAX, 10));
}

#[test]
fn var_uint_keeps_low_bit_of_tenth_byte_only() {
    // nine continuation bytes of zero, then a tenth byte 0x7F: only bit 63 survives
    let mut data = vec![0x80u8; 9];
    data.push(0x7F);
    assert_eq!(read_var_uint(&data).unwrap(), (1u64 << 63, 10));
}

#[test]
fn var_uint_refuses_eleven_byte_encoding() {
    let data = vec![0x80u8; 11];
    assert!(matches!(read_var_uint(&data), Err(SyncError::UnexpectedEof)));
}

#[test]
fn var_uint_unterminated_is_eof() {
    assert!(matches!(read_var_uint(&[0x80, 0x80]), Err(SyncError::UnexpectedEof)));
}

#[test]
fn var_bytes_length_past_end_is_eof() {
    assert!(matches!(read_var_bytes(&[5, 1, 2]), Err(SyncError::UnexpectedEof)));
}

#[test]
fn decode_unknown_sync_type() {
    match decode_message(&[0, 7, 0]) {
        Err(SyncError::UnknownSyncType(7)) => {}
        other => panic!("Expected UnknownSyncType(7), got {:?}", other),
    }
}

#[test]
fn decode_ignores_bytes_after_payload() {
    let mut encoded = encode_update(&[1, 2]);
    encoded.extend_from_slice(&[7, 7, 7]);
    match decode_message(&encoded).unwrap() {
        SyncMessage::Update(d) => assert_eq!(d, vec![1, 2]),
        other => panic!("Expected Update, got {:?}", other),
    }
}

#[test]
fn encode_sync_step1_exact_bytes() {
    assert_eq!(encode_sync_step1(&[9, 8]), vec![0, 0, 2, 9, 8]);
    assert_eq!(encode_sync_step2(&[]), vec![0, 1, 0]);
    assert_eq!(encode_awareness(&[4]), vec![1, 4]);
}

#[test]
fn test_sync_error_messages() {
    assert_eq!(SyncError::UnexpectedEof.message(), "unexpected end of message");
    assert_eq!(SyncError::UnknownMessageType(7).message(), "unknown message type: 7");
    assert_eq!(SyncError::UnknownSyncType(42).message(), "unknown sync type: 42");
}

#[test]
fn test_decode_wide_message_types_are_unknown() {
    match decode_message(&[0x80, 0x02, 0x00, 0x00]) {
        Err(SyncError::UnknownMessageType(256)) => {}
        other => panic!("expected an unknown message type, got {:?}", other),
    }
    match decode_message(&[0x00, 0x80, 0x02, 0x00]) {
        Err(SyncError::UnknownSyncType(256)) => {}
        other => panic!("expected an unknown sync type, got {:?}", other),
    }
}
