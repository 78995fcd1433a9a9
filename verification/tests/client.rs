use sealrpc::client::{complete_call, deliver_response, Client, RpcError};
use sealrpc::codec::encode_response;
use sealrpc::codec::{encode_request, parse_response_header, ResponseHeader, RESPONSE_HEADER_LEN};
use sealrpc::heartbeat::{encode_heartbeat, ManagerHandler, OP_SEND_HEART, SERVER_FLAG};
use sealrpc::server::serve_frame;

#[test]
fn pool_is_idempotent_per_address() {
    let mut client = Client::new();
    assert!(!client.has_connection(b"10.0.0.1:8000"));
    client.add_connection(b"10.0.0.1:8000");
    client.add_connection(b"10.0.0.1:8000");
    client.add_connection(b"10.0.0.2:8000");
    assert!(client.has_connection(b"10.0.0.1:8000"));
    assert!(client.has_connection(b"10.0.0.2:8000"));
    assert!(!client.has_connection(b"10.0.0.3:8000"));
}

#[test]
fn eviction_self_heals() {
    let mut client = Client::new();
    client.add_connection(b"10.0.0.1:8000");
    client.add_connection(b"10.0.0.2:8000");
    // an I/O error mid-call evicts the connection
    client.remove_connection(b"10.0.0.1:8000");
    assert!(!client.has_connection(b"10.0.0.1:8000"));
    assert!(client.has_connection(b"10.0.0.2:8000"));
    // the next call to the same address pools it afresh
    client.add_connection(b"10.0.0.1:8000");
    assert!(client.has_connection(b"10.0.0.1:8000"));
    assert!(client.has_connection(b"10.0.0.2:8000"));
}

#[test]
fn removing_an_unknown_address_changes_nothing() {
    let mut client = Client::new();
    client.add_connection(b"10.0.0.1:8000");
    client.remove_connection(b"10.0.0.9:8000");
    assert!(client.has_connection(b"10.0.0.1:8000"));
}

#[test]
fn delivery_copies_exactly_the_declared_bytes() {
    let header = ResponseHeader { status: 0, flags: 7, metadata_len: 3, data_len: 4 };
    let payload = b"MMMdata".to_vec();
    let mut out_metadata = vec![9u8; 5];
    let mut out_data = vec![9u8; 4];
    let (status, flags, metadata_len, data_len) =
        deliver_response(&header, &payload, &mut out_metadata, &mut out_data).unwrap();
    assert_eq!(status, 0);
    assert_eq!(flags, 7);
    assert_eq!(metadata_len, 3);
    assert_eq!(data_len, 4);
    // the declared bytes land at the front; the rest of the buffer stands
    assert_eq!(&out_metadata[..3], b"MMM");
    assert_eq!(&out_metadata[3..], &[9u8, 9u8]);
    assert_eq!(out_data, b"data".to_vec());
}

#[test]
fn short_buffer_fails_without_partial_write() {
    let header = ResponseHeader { status: 0, flags: 0, metadata_len: 2, data_len: 6 };
    let payload = b"mmpayload"[..8].to_vec();
    let mut out_metadata = vec![1u8; 2];
    let mut out_data = vec![1u8; 5];  // one byte short of the declared length
    let r = deliver_response(&header, &payload, &mut out_metadata, &mut out_data);
    assert_eq!(r, Err(RpcError::BufferTooSmall));
    // neither buffer was touched, not even the one that was large enough
    assert_eq!(out_metadata, vec![1u8; 2]);
    assert_eq!(out_data, vec![1u8; 5]);
}

#[test]
fn completion_decodes_and_delivers() {
    let response = encode_response(-2, 5, b"mm", b"dddd").unwrap();
    let mut out_metadata = vec![0u8; 2];
    let mut out_data = vec![0u8; 6];
    let (status, flags, metadata_len, data_len) =
        complete_call(&response, &mut out_metadata, &mut out_data).unwrap();
    assert_eq!(status, -2);
    assert_eq!(flags, 5);
    assert_eq!(metadata_len, 2);
    assert_eq!(data_len, 4);
    assert_eq!(out_metadata, b"mm".to_vec());
    assert_eq!(&out_data[..4], b"dddd");
    assert_eq!(&out_data[4..], &[0u8, 0u8]);
}

#[test]
fn completion_refuses_a_malformed_response() {
    let response = encode_response(0, 0, b"mm", b"dddd").unwrap();
    let mut out_metadata = vec![7u8; 8];
    let mut out_data = vec![7u8; 8];
    let r = complete_call(&response[..response.len() - 1], &mut out_metadata, &mut out_data);
    assert_eq!(r, Err(RpcError::MalformedResponse));
    assert_eq!(out_metadata, vec![7u8; 8]);
    assert_eq!(out_data, vec![7u8; 8]);
}

#[test]
fn completion_refuses_a_short_buffer() {
    let response = encode_response(0, 0, b"mm", b"dddd").unwrap();
    let mut out_metadata = vec![7u8; 2];
    let mut out_data = vec![7u8; 3];
    let r = complete_call(&response, &mut out_metadata, &mut out_data);
    assert_eq!(r, Err(RpcError::BufferTooSmall));
    assert_eq!(out_metadata, vec![7u8; 2]);
    assert_eq!(out_data, vec![7u8; 3]);
}

#[test]
fn heartbeat_call_round_trip() {
    // a caller at one node announces itself to the manager and observes
    // a success status and empty payloads
    let announcement = encode_heartbeat(b"10.0.0.2:9000", SERVER_FLAG, b"30s");
    let request =
        encode_request(OP_SEND_HEART, 0, b"10.0.0.2:9000", &announcement, b"").unwrap();
    let response = serve_frame(&ManagerHandler {}, &request).unwrap();
    let header = parse_response_header(&response[..RESPONSE_HEADER_LEN]).unwrap();
    let payload = &response[RESPONSE_HEADER_LEN..];
    let mut out_metadata: Vec<u8> = Vec::new();
    let mut out_data: Vec<u8> = Vec::new();
    let (status, flags, metadata_len, data_len) =
        deliver_response(&header, payload, &mut out_metadata, &mut out_data).unwrap();
    assert_eq!(status, 0);
    assert_eq!(flags, 0);
    assert_eq!(metadata_len, 0);
    assert_eq!(data_len, 0);
    assert!(out_metadata.is_empty());
    assert!(out_data.is_empty());
}
