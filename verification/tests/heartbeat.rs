use sealrpc::heartbeat::{
    decode_heartbeat, encode_heartbeat, HeartbeatDirective, HeartbeatReporter, SERVER_FLAG,
};

#[test]
fn announcement_round_trips() {
    let buf = encode_heartbeat(b"10.0.0.2:9000", SERVER_FLAG, b"30s");
    let announcement = decode_heartbeat(&buf).unwrap();
    assert_eq!(announcement.address, b"10.0.0.2:9000".to_vec());
    assert_eq!(announcement.flags, SERVER_FLAG);
    assert_eq!(announcement.lifetime, b"30s".to_vec());
}

#[test]
fn announcement_matches_the_standard_serializer() {
    // the manager decodes with a fixed-width little-endian serializer;
    // the library's layout must agree with it byte for byte
    let expected = bincode::serialize(&(
        "10.0.0.2:9000".to_string(),
        SERVER_FLAG,
        "30s".to_string(),
    ))
    .unwrap();
    assert_eq!(encode_heartbeat(b"10.0.0.2:9000", SERVER_FLAG, b"30s"), expected);
}

#[test]
fn empty_announcement_round_trips() {
    let buf = encode_heartbeat(b"", 0, b"");
    assert_eq!(buf.len(), 20);
    let announcement = decode_heartbeat(&buf).unwrap();
    assert!(announcement.address.is_empty());
    assert_eq!(announcement.flags, 0);
    assert!(announcement.lifetime.is_empty());
}

#[test]
fn truncated_announcement_is_refused() {
    let buf = encode_heartbeat(b"10.0.0.2:9000", 1, b"30s");
    assert!(decode_heartbeat(&buf[..buf.len() - 1]).is_none());
    assert!(decode_heartbeat(&buf[..7]).is_none());
}

#[test]
fn tick_data_is_the_announcement() {
    let reporter = HeartbeatReporter::new(
        b"10.0.0.1:8081".to_vec(),
        b"10.0.0.2:9000".to_vec(),
        b"30s".to_vec(),
        SERVER_FLAG,
        3,
    );
    assert_eq!(reporter.tick_data(), encode_heartbeat(b"10.0.0.2:9000", SERVER_FLAG, b"30s"));
}

#[test]
fn one_failed_round_is_not_terminal() {
    let mut reporter =
        HeartbeatReporter::new(b"m:1".to_vec(), b"s:2".to_vec(), b"30s".to_vec(), 1, 3);
    assert_eq!(reporter.record_outcome(false), HeartbeatDirective::Continue);
    assert_eq!(reporter.record_outcome(false), HeartbeatDirective::Continue);
    // a success clears the failure count
    assert_eq!(reporter.record_outcome(true), HeartbeatDirective::Continue);
    assert_eq!(reporter.record_outcome(false), HeartbeatDirective::Continue);
    assert_eq!(reporter.record_outcome(false), HeartbeatDirective::Continue);
    // only the configured number of consecutive failures gives up
    assert_eq!(reporter.record_outcome(false), HeartbeatDirective::GiveUp);
}

#[test]
fn zero_tolerance_gives_up_at_once() {
    let mut reporter =
        HeartbeatReporter::new(b"m:1".to_vec(), b"s:2".to_vec(), b"30s".to_vec(), 1, 0);
    assert_eq!(reporter.record_outcome(true), HeartbeatDirective::Continue);
    assert_eq!(reporter.record_outcome(false), HeartbeatDirective::GiveUp);
}
