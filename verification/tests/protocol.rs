use sha1::Digest;
use trade_robot::futu::ConnectorError;
use trade_robot::protocol::{
    frame_disposition, pack_message, unpack_header, FrameDisposition, HEAD_LEN,
};

#[test]
fn pack_then_unpack_roundtrip() {
    let body = b"hello opend".to_vec();
    let frame = pack_message(3004, 77, &body);
    assert_eq!(frame.len(), HEAD_LEN + body.len());
    assert_eq!(&frame[0..2], b"FT");
    let mut head = [0u8; 44];
    head.copy_from_slice(&frame[..44]);
    let h = unpack_header(&head).unwrap();
    assert_eq!(h.proto_id, 3004);
    assert_eq!(h.serial_no, 77);
    assert_eq!(h.body_len as usize, body.len());
    assert_eq!(h.proto_fmt_type, 0);
    assert_eq!(h.proto_ver, 0);
    let expected: [u8; 20] = sha1::Sha1::digest(&body).into();
    assert_eq!(h.sha1, expected);
    assert_eq!(&frame[44..], &body[..]);
    assert_eq!(frame_disposition(&h, &body), FrameDisposition::Reply);
}

#[test]
fn pack_layout_is_little_endian() {
    let frame = pack_message(0x0102_0304, 0x0A0B_0C0D, &[]);
    assert_eq!(&frame[2..6], &[4, 3, 2, 1]);
    assert_eq!(&frame[6..8], &[0, 0]);
    assert_eq!(&frame[8..12], &[0x0D, 0x0C, 0x0B, 0x0A]);
    assert_eq!(&frame[12..16], &[0, 0, 0, 0]);
    // SHA-1 of the empty input.
    assert_eq!(hex::encode(&frame[16..36]), "da39a3ee5e6b4b0d3255bfef95601890afd80709");
    assert_eq!(&frame[36..44], &[0u8; 8]);
}

#[test]
fn unpack_rejects_bad_magic() {
    let mut head = [0u8; 44];
    head[0] = b'F';
    head[1] = b'X';
    match unpack_header(&head) {
        Err(ConnectorError::Protocol(m)) => assert_eq!(m, "invalid magic"),
        _ => panic!("expected invalid magic"),
    }
}

#[test]
fn frame_dispositions() {
    let body = b"push".to_vec();
    let frame = pack_message(3005, 1, &body);
    let mut head = [0u8; 44];
    head.copy_from_slice(&frame[..44]);
    let mut h = unpack_header(&head).unwrap();
    assert_eq!(frame_disposition(&h, &body), FrameDisposition::Push);
    assert_eq!(frame_disposition(&h, b"pusH"), FrameDisposition::DigestMismatch);
    h.proto_fmt_type = 1;
    assert_eq!(frame_disposition(&h, &body), FrameDisposition::UnsupportedFormat);
}
