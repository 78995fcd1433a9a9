use sealrpc::codec::{
    decode_request, decode_response, encode_request, encode_response, parse_request_header,
    parse_response_header, request_body_len, response_body_len, FrameError, MAX_SEGMENT_LEN,
    REQUEST_HEADER_LEN, RESPONSE_HEADER_LEN,
};

#[test]
fn request_round_trips() {
    let buf = encode_request(7, 3, b"/a/b", b"payload", b"meta").unwrap();
    let frame = decode_request(&buf).unwrap();
    assert_eq!(frame.operation_type, 7);
    assert_eq!(frame.flags, 3);
    assert_eq!(frame.path, b"/a/b".to_vec());
    assert_eq!(frame.data, b"payload".to_vec());
    assert_eq!(frame.metadata, b"meta".to_vec());
}

#[test]
fn request_layout_is_fixed() {
    let buf = encode_request(0x0102_0304, 0x0A0B_0C0D, b"p", b"dd", b"mmm").unwrap();
    assert_eq!(buf.len(), REQUEST_HEADER_LEN + 6);
    assert_eq!(&buf[0..4], &[0x04, 0x03, 0x02, 0x01]);
    assert_eq!(&buf[4..8], &[0x0D, 0x0C, 0x0B, 0x0A]);
    assert_eq!(&buf[8..12], &[1, 0, 0, 0]);
    assert_eq!(&buf[12..16], &[2, 0, 0, 0]);
    assert_eq!(&buf[16..20], &[3, 0, 0, 0]);
    assert_eq!(&buf[20..], b"pddmmm");
}

#[test]
fn zero_length_payload_round_trips() {
    let buf = encode_request(9, 0, b"", b"", b"").unwrap();
    assert_eq!(buf.len(), REQUEST_HEADER_LEN);
    assert_eq!(&buf[8..20], &[0u8; 12]);
    let frame = decode_request(&buf).unwrap();
    assert_eq!(frame.operation_type, 9);
    assert_eq!(frame.flags, 0);
    assert!(frame.path.is_empty());
    assert!(frame.data.is_empty());
    assert!(frame.metadata.is_empty());
}

#[test]
fn oversized_request_segment_is_refused() {
    let long = vec![0u8; MAX_SEGMENT_LEN as usize + 1];
    assert_eq!(encode_request(1, 0, b"", &long, b""), Err(FrameError::SegmentTooLong));
    let ok = vec![7u8; 16];
    assert!(encode_request(1, 0, &ok, &ok, &ok).is_ok());
}

#[test]
fn truncated_request_is_refused() {
    let buf = encode_request(7, 3, b"/a", b"xy", b"z").unwrap();
    match decode_request(&buf[..buf.len() - 1]) {
        Err(FrameError::Truncated) => {}
        other => panic!("expected a truncation error, got {:?}", other),
    }
    match decode_request(&buf[..10]) {
        Err(FrameError::Truncated) => {}
        other => panic!("expected a truncation error, got {:?}", other),
    }
}

#[test]
fn implausible_declared_length_is_refused() {
    let mut buf = encode_request(7, 3, b"/a", b"xy", b"z").unwrap();
    // declare a data length beyond MAX_SEGMENT_LEN
    buf[12..16].copy_from_slice(&(MAX_SEGMENT_LEN + 1).to_le_bytes());
    match decode_request(&buf) {
        Err(FrameError::SegmentTooLong) => {}
        other => panic!("expected a length error, got {:?}", other),
    }
}

#[test]
fn request_header_announces_body() {
    let buf = encode_request(5, 1, b"abc", b"defg", b"h").unwrap();
    let header = parse_request_header(&buf[..REQUEST_HEADER_LEN]).unwrap();
    assert_eq!(header.operation_type, 5);
    assert_eq!(header.flags, 1);
    assert_eq!(header.path_len, 3);
    assert_eq!(header.data_len, 4);
    assert_eq!(header.metadata_len, 1);
    assert_eq!(request_body_len(&header), 8);
    assert_eq!(buf.len(), REQUEST_HEADER_LEN + 8);
}

#[test]
fn response_round_trips() {
    let buf = encode_response(-5, 2, b"meta", b"body").unwrap();
    let frame = decode_response(&buf).unwrap();
    assert_eq!(frame.status, -5);
    assert_eq!(frame.flags, 2);
    assert_eq!(frame.metadata, b"meta".to_vec());
    assert_eq!(frame.data, b"body".to_vec());
}

#[test]
fn response_header_announces_body() {
    let buf = encode_response(0, 9, b"mm", b"ddd").unwrap();
    let header = parse_response_header(&buf[..RESPONSE_HEADER_LEN]).unwrap();
    assert_eq!(header.status, 0);
    assert_eq!(header.flags, 9);
    assert_eq!(header.metadata_len, 2);
    assert_eq!(header.data_len, 3);
    assert_eq!(response_body_len(&header), 5);
}

#[test]
fn truncated_response_is_refused() {
    let buf = encode_response(1, 0, b"m", b"d").unwrap();
    match decode_response(&buf[..RESPONSE_HEADER_LEN]) {
        Err(FrameError::Truncated) => {}
        other => panic!("expected a truncation error, got {:?}", other),
    }
}
