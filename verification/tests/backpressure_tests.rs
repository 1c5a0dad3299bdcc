use transport_core::backpressure::{BackpressurePolicy, RttEvent, Web4RttBinding};
use transport_core::errors::TransportError;

fn engine(max_queue: usize, policy: &str) -> Web4RttBinding {
    Web4RttBinding::new(max_queue, Some(policy), 100, 7, 1000, 0).unwrap()
}

#[test]
fn policy_parse_ignores_ascii_case() {
    assert_eq!(BackpressurePolicy::parse(Some("DropOldest")), Ok(BackpressurePolicy::DropOldest));
    assert_eq!(BackpressurePolicy::parse(Some("dropnewest")), Ok(BackpressurePolicy::DropNewest));
    assert_eq!(BackpressurePolicy::parse(Some("BLOCK")), Ok(BackpressurePolicy::Block));
    assert_eq!(BackpressurePolicy::parse(Some("Error")), Ok(BackpressurePolicy::Error));
    assert_eq!(BackpressurePolicy::parse(None), Ok(BackpressurePolicy::Error));
    assert_eq!(
        BackpressurePolicy::parse(Some("bogus")),
        Err(TransportError::InvalidArgument)
    );
}

#[test]
fn new_raises_zero_capacity_to_one() {
    let mut b = Web4RttBinding::new(0, Some("error"), 100, 7, 1000, 0).unwrap();
    b.send("one".to_string()).unwrap();
    assert_eq!(b.send("two".to_string()), Err(TransportError::CapacityExceeded));
    assert_eq!(b.pending(), 1);
}

#[test]
fn drop_oldest_keeps_last_n_and_counts_one_eviction() {
    let mut b = engine(3, "dropoldest");
    for m in ["m1", "m2", "m3", "m4"] {
        b.send(m.to_string()).unwrap();
    }
    let stats = b.stats();
    assert_eq!(stats.dropped_oldest, 1);
    assert_eq!(stats.overflow_events, 1);
    assert_eq!(stats.enqueued, 4);
    assert_eq!(b.pending(), 3);
    assert_eq!(b.receive(), Some("m2".to_string()));
    assert_eq!(b.receive(), Some("m3".to_string()));
    assert_eq!(b.receive(), Some("m4".to_string()));
    assert_eq!(b.receive(), None);
}

#[test]
fn drop_newest_keeps_first_and_counts_one_discard() {
    let mut b = engine(1, "dropnewest");
    b.send("first".to_string()).unwrap();
    b.send("second".to_string()).unwrap();
    let stats = b.stats();
    assert_eq!(stats.dropped_newest, 1);
    assert_eq!(stats.enqueued, 1);
    assert_eq!(b.pending(), 1);
    assert_eq!(b.receive(), Some("first".to_string()));
    assert_eq!(b.receive(), None);
}

#[test]
fn block_on_full_queue_times_out_and_counts_blocked() {
    let mut b = engine(1, "block");
    b.send("first".to_string()).unwrap();
    assert_eq!(b.send("second".to_string()), Err(TransportError::Timeout));
    let stats = b.stats();
    assert_eq!(stats.blocked, 1);
    assert_eq!(stats.errors, 1);
    assert_eq!(stats.overflow_events, 1);
    assert_eq!(b.pending(), 1);
    assert_eq!(b.receive(), Some("first".to_string()));
}

#[test]
fn error_policy_fails_immediately_on_overflow() {
    let mut b = engine(2, "error");
    b.send("x".to_string()).unwrap();
    b.send("y".to_string()).unwrap();
    assert_eq!(b.send("z".to_string()), Err(TransportError::CapacityExceeded));
    assert_eq!(b.receive(), Some("x".to_string()));
    assert_eq!(b.receive(), Some("y".to_string()));
    assert_eq!(b.receive(), None);
}

#[test]
fn send_while_disconnected_is_an_error_and_receive_is_none() {
    let mut b = engine(4, "error");
    b.send("kept".to_string()).unwrap();
    b.disconnect(Some("going away"));
    assert_eq!(b.send("lost".to_string()), Err(TransportError::Disconnected));
    assert_eq!(b.receive(), None);
    assert_eq!(b.stats().errors, 1);
    assert_eq!(b.take_events(), vec![RttEvent::SessionClose]);
}

#[test]
fn reconnect_records_session_open_and_restores_delivery() {
    let mut b = engine(4, "error");
    b.send("kept".to_string()).unwrap();
    b.disconnect(None);
    b.connect(50);
    assert_eq!(
        b.take_events(),
        vec![RttEvent::SessionClose, RttEvent::SessionOpen]
    );
    assert_eq!(b.receive(), Some("kept".to_string()));
    b.connect(60);
    assert_eq!(b.take_events(), Vec::new());
}

#[test]
fn heartbeat_timeout_disconnects_and_notifies() {
    let mut b = Web4RttBinding::new(4, Some("error"), 100, 7, 1000, 0).unwrap();
    assert!(!b.check_heartbeat_timeout(500));
    assert!(b.check_heartbeat_timeout(1000));
    assert_eq!(
        b.take_events(),
        vec![RttEvent::HeartbeatTimeout, RttEvent::SessionClose]
    );
    assert!(!b.check_heartbeat_timeout(2000));
    assert_eq!(b.send("m".to_string()), Err(TransportError::Disconnected));
}

#[test]
fn heartbeat_refresh_defers_the_timeout() {
    let mut b = Web4RttBinding::new(4, Some("error"), 100, 7, 1000, 0).unwrap();
    b.heartbeat(900);
    assert!(!b.check_heartbeat_timeout(1500));
    assert!(b.check_heartbeat_timeout(1900));
}

#[test]
fn stats_track_high_water_mark() {
    let mut b = engine(8, "error");
    b.send("a".to_string()).unwrap();
    b.send("b".to_string()).unwrap();
    b.send("c".to_string()).unwrap();
    b.receive();
    b.receive();
    b.send("d".to_string()).unwrap();
    let stats = b.stats();
    assert_eq!(stats.max_queue_len, 3);
    assert_eq!(stats.attempted, 4);
    assert_eq!(stats.enqueued, 4);
    assert_eq!(stats.dropped_oldest, 0);
    assert_eq!(stats.dropped_newest, 0);
    assert_eq!(stats.blocked, 0);
    assert_eq!(stats.errors, 0);
    assert_eq!(stats.overflow_events, 0);
}
