use rcon_cli::codec::{decode_packet, encode_packet, PacketKind, ProtocolError, RconPacket};

fn packet(id: i32, kind: PacketKind, body: &[u8]) -> RconPacket {
    RconPacket {
        id,
        kind,
        body: body.to_vec(),
    }
}

#[test]
fn encode_exact_layout() {
    let bytes = encode_packet(&packet(5, PacketKind::Auth, b"hunter2")).unwrap();
    let mut expected: Vec<u8> = Vec::new();
    expected.extend_from_slice(&[17, 0, 0, 0]); // size: 7 + 10
    expected.extend_from_slice(&[5, 0, 0, 0]); // id
    expected.extend_from_slice(&[3, 0, 0, 0]); // AUTH
    expected.extend_from_slice(b"hunter2");
    expected.extend_from_slice(&[0, 0]);
    assert_eq!(bytes, expected);
}

#[test]
fn size_prefix_counts_trailing_bytes() {
    let bytes = encode_packet(&packet(42, PacketKind::ExecCommand, b"status")).unwrap();
    let declared = i32::from_le_bytes([bytes[0], bytes[1], bytes[2], bytes[3]]);
    assert_eq!(declared as usize, bytes.len() - 4);
}

#[test]
fn round_trip_exec_command() {
    let original = packet(7, PacketKind::ExecCommand, b"list players");
    let bytes = encode_packet(&original).unwrap();
    let (decoded, consumed) = decode_packet(&bytes, false).unwrap();
    assert_eq!(decoded.id, 7);
    assert!(matches!(decoded.kind, PacketKind::ExecCommand));
    assert_eq!(decoded.body, b"list players".to_vec());
    assert_eq!(consumed, bytes.len());
}

#[test]
fn round_trip_empty_body() {
    let original = packet(1, PacketKind::ResponseValue, b"");
    let bytes = encode_packet(&original).unwrap();
    assert_eq!(bytes.len(), 14);
    let (decoded, consumed) = decode_packet(&bytes, true).unwrap();
    assert_eq!(decoded.id, 1);
    assert!(matches!(decoded.kind, PacketKind::ResponseValue));
    assert!(decoded.body.is_empty());
    assert_eq!(consumed, 14);
}

#[test]
fn round_trip_negative_id() {
    let original = packet(-1, PacketKind::AuthResponse, b"denied");
    let bytes = encode_packet(&original).unwrap();
    let (decoded, _) = decode_packet(&bytes, true).unwrap();
    assert_eq!(decoded.id, -1);
    assert!(matches!(decoded.kind, PacketKind::AuthResponse));
    assert_eq!(decoded.body, b"denied".to_vec());
}

#[test]
fn encode_rejects_embedded_nul() {
    let result = encode_packet(&packet(3, PacketKind::ExecCommand, b"sta\0tus"));
    assert!(matches!(result, Err(ProtocolError::EncodingError)));
}

#[test]
fn decode_empty_stream_is_truncated() {
    let result = decode_packet(&[], true);
    assert!(matches!(result, Err(ProtocolError::TruncatedPacketError)));
}

#[test]
fn decode_short_prefix_is_truncated() {
    let result = decode_packet(&[10, 0, 0], true);
    assert!(matches!(result, Err(ProtocolError::TruncatedPacketError)));
}

#[test]
fn decode_short_payload_is_truncated() {
    // Declares 20 bytes after the prefix but delivers only 10.
    let mut bytes: Vec<u8> = vec![20, 0, 0, 0];
    bytes.extend_from_slice(&[0; 10]);
    let result = decode_packet(&bytes, true);
    assert!(matches!(result, Err(ProtocolError::TruncatedPacketError)));
}

#[test]
fn decode_undersized_declaration_is_malformed() {
    // A size below 10 cannot hold id, kind and the two terminators.
    let bytes: Vec<u8> = vec![5, 0, 0, 0, 0, 0, 0, 0, 0];
    let result = decode_packet(&bytes, true);
    assert!(matches!(result, Err(ProtocolError::MalformedPacketError)));
}

#[test]
fn decode_unknown_kind_is_malformed() {
    let mut bytes: Vec<u8> = vec![10, 0, 0, 0];
    bytes.extend_from_slice(&[1, 0, 0, 0]); // id
    bytes.extend_from_slice(&[7, 0, 0, 0]); // no such kind code
    bytes.extend_from_slice(&[0, 0]);
    let result = decode_packet(&bytes, true);
    assert!(matches!(result, Err(ProtocolError::MalformedPacketError)));
}

#[test]
fn decode_direction_fixes_shared_code() {
    let bytes = encode_packet(&packet(9, PacketKind::ExecCommand, b"say hi")).unwrap();
    let (toward_server, _) = decode_packet(&bytes, false).unwrap();
    assert!(matches!(toward_server.kind, PacketKind::ExecCommand));
    let (from_server, _) = decode_packet(&bytes, true).unwrap();
    assert!(matches!(from_server.kind, PacketKind::AuthResponse));
}

#[test]
fn decode_body_stops_at_first_nul() {
    let mut bytes: Vec<u8> = vec![14, 0, 0, 0];
    bytes.extend_from_slice(&[2, 0, 0, 0]); // id
    bytes.extend_from_slice(&[0, 0, 0, 0]); // RESPONSE_VALUE
    bytes.extend_from_slice(b"ab\0cd\0");
    let (decoded, consumed) = decode_packet(&bytes, true).unwrap();
    assert_eq!(decoded.body, b"ab".to_vec());
    assert_eq!(consumed, bytes.len());
}

#[test]
fn decode_leaves_following_frames_alone() {
    let first = encode_packet(&packet(1, PacketKind::ResponseValue, b"one")).unwrap();
    let second = encode_packet(&packet(2, PacketKind::AuthResponse, b"two")).unwrap();
    let mut stream = first.clone();
    stream.extend_from_slice(&second);
    let (decoded, consumed) = decode_packet(&stream, true).unwrap();
    assert_eq!(decoded.id, 1);
    assert_eq!(consumed, first.len());
    let (next, _) = decode_packet(&stream[consumed..], true).unwrap();
    assert_eq!(next.id, 2);
    assert_eq!(next.body, b"two".to_vec());
}
