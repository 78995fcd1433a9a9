use sealrpc::codec::{decode_response, encode_request};
use sealrpc::heartbeat::{encode_heartbeat, ManagerHandler, OP_SEND_HEART, SERVER_FLAG};
use sealrpc::server::{serve_connection, serve_frame, Handler, HandlerError, ServeError};

fn heartbeat_frame(address: &[u8]) -> Vec<u8> {
    let announcement = encode_heartbeat(address, SERVER_FLAG, b"30s");
    encode_request(OP_SEND_HEART, 0, address, &announcement, b"").unwrap()
}

#[test]
fn heartbeat_is_acknowledged() {
    let handler = ManagerHandler {};
    let request = heartbeat_frame(b"10.0.0.2:9000");
    let response = serve_frame(&handler, &request).unwrap();
    let frame = decode_response(&response).unwrap();
    assert_eq!(frame.status, 0);
    assert_eq!(frame.flags, 0);
    assert!(frame.metadata.is_empty());
    assert!(frame.data.is_empty());
}

#[test]
fn unknown_operation_fails_rather_than_succeeds() {
    let handler = ManagerHandler {};
    assert!(matches!(
        handler.dispatch(999, 0, b"", b"", b""),
        Err(HandlerError::UnsupportedOperation)
    ));
    let request = encode_request(999, 0, b"", b"", b"").unwrap();
    assert_eq!(serve_frame(&handler, &request), Err(ServeError::HandlerFailed));
}

#[test]
fn malformed_frame_is_a_framing_error() {
    let handler = ManagerHandler {};
    let mut request = heartbeat_frame(b"10.0.0.2:9000");
    request.pop();
    assert_eq!(serve_frame(&handler, &request), Err(ServeError::MalformedRequest));
}

#[test]
fn responses_come_back_in_request_order() {
    let handler = ManagerHandler {};
    let requests = vec![
        heartbeat_frame(b"10.0.0.2:9000"),
        heartbeat_frame(b"10.0.0.3:9000"),
        heartbeat_frame(b"10.0.0.4:9000"),
    ];
    let responses = serve_connection(&handler, &requests);
    assert_eq!(responses.len(), 3);
    for (request, response) in requests.iter().zip(responses.iter()) {
        assert_eq!(serve_frame(&handler, request).unwrap(), *response);
    }
}

#[test]
fn a_failure_ends_only_its_own_connection() {
    let handler = ManagerHandler {};
    // one connection's handler failure stops that connection's loop...
    let failing = vec![
        heartbeat_frame(b"10.0.0.2:9000"),
        encode_request(999, 0, b"", b"", b"").unwrap(),
        heartbeat_frame(b"10.0.0.2:9000"),
    ];
    let responses = serve_connection(&handler, &failing);
    assert_eq!(responses.len(), 1);
    // ...while another connection, served by the same shared handler,
    // is answered in full
    let healthy = vec![
        heartbeat_frame(b"10.0.0.3:9000"),
        heartbeat_frame(b"10.0.0.3:9000"),
    ];
    let responses = serve_connection(&handler, &healthy);
    assert_eq!(responses.len(), 2);
}
