use mars_mesh::error::MeshError;
use mars_mesh::frame::{
    Frame, FRAME_MAGIC, MSG_FIND_NODE, MSG_FIND_NODE_RESULT, MSG_FIND_VALUE, MSG_FIND_VALUE_RESULT, MSG_PING, MSG_PONG,
    MSG_STORE, MSG_STORE_ACK, PROTOCOL_VERSION,
};

#[test]
fn frame_roundtrip() {
    let frame = Frame::new(MSG_PING, b"hello".to_vec());
    let bytes = frame.to_bytes();
    let parsed = Frame::from_bytes(&bytes).unwrap();
    assert_eq!(parsed.magic, FRAME_MAGIC);
    assert_eq!(parsed.version, PROTOCOL_VERSION);
    assert_eq!(parsed.msg_type, MSG_PING);
    assert_eq!(parsed.msg_id, frame.msg_id);
    assert_eq!(parsed.body, b"hello");
}

#[test]
fn frame_response() {
    let req = Frame::new(MSG_PING, vec![]);
    let resp = Frame::response(&req, MSG_PONG, b"pong".to_vec());
    assert_eq!(resp.msg_id, req.msg_id);
    assert_eq!(resp.msg_type, MSG_PONG);
    assert!(resp.is_response());
    assert!(!req.is_response());
}

#[test]
fn frame_invalid_magic() {
    let mut bytes = Frame::new(MSG_PING, vec![]).to_bytes();
    bytes[0] = 0xFF;
    assert!(matches!(Frame::from_bytes(&bytes), Err(MeshError::InvalidMagic(_))));
}

#[test]
fn frame_unsupported_version() {
    let mut bytes = Frame::new(MSG_PING, vec![]).to_bytes();
    bytes[2] = 0x99;
    assert!(matches!(Frame::from_bytes(&bytes), Err(MeshError::UnsupportedVersion(0x99))));
}

#[test]
fn frame_truncated() {
    let bytes = Frame::new(MSG_PING, b"hello".to_vec()).to_bytes();
    assert!(Frame::from_bytes(&bytes[..25]).is_err());
}

#[test]
fn frame_too_short() {
    assert!(Frame::from_bytes(&[0u8; 10]).is_err());
}

#[test]
fn frame_header_size() {
    let frame = Frame::new(MSG_PING, vec![]);
    let bytes = frame.to_bytes();
    assert_eq!(bytes.len(), 24);
}

#[test]
fn message_type_response_bit() {
    assert_eq!(MSG_PING | 0x80, MSG_PONG);
    assert_eq!(MSG_STORE | 0x80, MSG_STORE_ACK);
    assert_eq!(MSG_FIND_NODE | 0x80, MSG_FIND_NODE_RESULT);
    assert_eq!(MSG_FIND_VALUE | 0x80, MSG_FIND_VALUE_RESULT);
}

#[test]
fn frame_empty_body() {
    let frame = Frame::new(MSG_PONG, vec![]);
    let bytes = frame.to_bytes();
    let parsed = Frame::from_bytes(&bytes).unwrap();
    assert!(parsed.body.is_empty());
}

#[test]
fn frame_large_body() {
    let body = vec![0xAB; 10_000];
    let frame = Frame::new(MSG_STORE, body.clone());
    let bytes = frame.to_bytes();
    let parsed = Frame::from_bytes(&bytes).unwrap();
    assert_eq!(parsed.body, body);
}

#[test]
fn frame_body_len_exceeds_data() {
    let mut buf = Vec::new();
    buf.extend_from_slice(&FRAME_MAGIC.to_be_bytes());
    buf.push(PROTOCOL_VERSION);
    buf.push(MSG_PING);
    buf.extend_from_slice(&[0u8; 16]);
    buf.extend_from_slice(&1000u32.to_be_bytes());
    buf.extend_from_slice(&[0u8; 10]);
    assert!(Frame::from_bytes(&buf).is_err());
}

#[test]
fn frame_valid_msg_types() {
    for &t in &[MSG_PING, MSG_STORE, MSG_FIND_NODE, MSG_FIND_VALUE] {
        assert_eq!(t & 0x80, 0, "request type 0x{t:02x} should have bit 7 clear");
    }
    for &t in &[MSG_PONG, MSG_STORE_ACK, MSG_FIND_NODE_RESULT, MSG_FIND_VALUE_RESULT] {
        assert_ne!(t & 0x80, 0, "response type 0x{t:02x} should have bit 7 set");
    }
}

#[test]
fn frame_zero_body_len() {
    let frame = Frame::new(MSG_PING, vec![]);
    let bytes = frame.to_bytes();
    let body_len = u32::from_be_bytes([bytes[20], bytes[21], bytes[22], bytes[23]]);
    assert_eq!(body_len, 0);
    let parsed = Frame::from_bytes(&bytes).unwrap();
    assert!(parsed.body.is_empty());
}

#[test]
fn frame_error_messages() {
    let mut bytes = Frame::new(MSG_PING, vec![]).to_bytes();
    bytes[0] = 0x12;
    bytes[1] = 0x34;
    let err = Frame::from_bytes(&bytes).unwrap_err();
    assert_eq!(err.message(), "invalid frame magic: 0x1234");
    let mut bytes = Frame::new(MSG_PING, vec![]).to_bytes();
    bytes[2] = 7;
    let err = Frame::from_bytes(&bytes).unwrap_err();
    assert_eq!(err.message(), "unsupported protocol version: 7");
}

#[test]
fn frame_wire_layout_is_exact() {
    let frame = Frame::new(MSG_STORE, vec![1, 2, 3]);
    let bytes = frame.to_bytes();
    assert_eq!(&bytes[0..2], &[0x4D, 0x48]);
    assert_eq!(bytes[2], 0x01);
    assert_eq!(bytes[3], MSG_STORE);
    assert_eq!(&bytes[4..20], &frame.msg_id);
    assert_eq!(&bytes[20..24], &[0, 0, 0, 3]);
    assert_eq!(&bytes[24..], &[1, 2, 3]);
}

#[test]
fn header_check_accepts_and_reports_body_length() {
    let frame = Frame::new(MSG_PING, vec![7u8; 300]);
    let bytes = frame.to_bytes();
    assert!(matches!(Frame::check_header(&bytes[..24]), Ok(300)));
}

#[test]
fn header_check_rejects_oversized_body() {
    let mut bytes = Frame::new(MSG_PING, vec![]).to_bytes();
    bytes[20..24].copy_from_slice(&(1_048_577u32).to_be_bytes());
    match Frame::check_header(&bytes[..24]) {
        Err(MeshError::FrameBody(msg)) => assert_eq!(msg, "body too large: 1048577 bytes (max 1048576)"),
        other => panic!("unexpected {other:?}"),
    }
    bytes[20..24].copy_from_slice(&(1_048_576u32).to_be_bytes());
    assert!(matches!(Frame::check_header(&bytes[..24]), Ok(1_048_576)));
}

#[test]
fn header_check_rejects_magic_then_version() {
    let mut bytes = Frame::new(MSG_PING, vec![]).to_bytes();
    bytes[2] = 9;
    assert!(matches!(Frame::check_header(&bytes[..24]), Err(MeshError::UnsupportedVersion(9))));
    bytes[0] = 0;
    assert!(matches!(Frame::check_header(&bytes[..24]), Err(MeshError::InvalidMagic(_))));
}
