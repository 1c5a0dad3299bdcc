use transport_core::config::TransportConfig;
use transport_core::errors::TransportError;
use transport_core::transport::{ChannelKind, TransportHandle};

fn config(
    heartbeat_ms: u64,
    max_channels: u64,
    max_queue_depth: usize,
    max_payload_bytes: usize,
) -> TransportConfig {
    TransportConfig::new(
        Some(heartbeat_ms),
        Some(max_channels),
        Some(max_queue_depth),
        Some(max_payload_bytes),
    )
}

#[test]
fn config_defaults() {
    let cfg = TransportConfig::new(None, None, None, None);
    assert_eq!(cfg.heartbeat_ms, 5000);
    assert_eq!(cfg.max_channels, 64);
    assert_eq!(cfg.max_queue_depth, 1024);
    assert_eq!(cfg.max_payload_bytes, 256 * 1024);
}

#[test]
fn kind_names_round_trip() {
    assert_eq!(ChannelKind::parse("state"), Some(ChannelKind::State));
    assert_eq!(ChannelKind::parse("knowledge"), Some(ChannelKind::Knowledge));
    assert_eq!(ChannelKind::parse("control"), Some(ChannelKind::Control));
    assert_eq!(ChannelKind::parse("STATE"), None);
    assert_eq!(ChannelKind::parse("bogus"), None);
    assert_eq!(ChannelKind::State.as_str(), "state");
    assert_eq!(ChannelKind::Knowledge.as_str(), "knowledge");
    assert_eq!(ChannelKind::Control.as_str(), "control");
}

#[test]
fn open_channel_unknown_kind_is_invalid_argument() {
    let mut h = TransportHandle::new(config(5000, 4, 4, 1024));
    assert_eq!(h.open_channel("bogus", None), Err(TransportError::InvalidArgument));
}

#[test]
fn open_channel_unknown_session_is_not_found() {
    let mut h = TransportHandle::new(config(5000, 4, 4, 1024));
    assert_eq!(h.open_channel("state", Some(77)), Err(TransportError::NotFound));
}

#[test]
fn capacity_failure_leaves_registry_unchanged() {
    let mut h = TransportHandle::new(config(5000, 1, 4, 1024));
    let a = h.open_channel("state", None).unwrap();
    let before = h.list_channels();
    assert_eq!(h.open_channel("control", None), Err(TransportError::CapacityExceeded));
    let after = h.list_channels();
    assert_eq!(before.len(), after.len());
    assert_eq!(after.len(), 1);
    assert_eq!(after[0].0, a);
}

#[test]
fn closed_slot_reopens_with_fresh_id() {
    let mut h = TransportHandle::new(config(5000, 1, 4, 1024));
    let a = h.open_channel("state", None).unwrap();
    assert_eq!(h.open_channel("state", None), Err(TransportError::CapacityExceeded));
    h.close_channel(a).unwrap();
    let c = h.open_channel("state", None).unwrap();
    assert_ne!(c, a);
    assert!(c > a);
}

#[test]
fn fifo_send_then_receive_in_order() {
    let mut h = TransportHandle::new(config(5000, 4, 16, 1024));
    let c = h.open_channel("state", None).unwrap();
    for payload in [b"one".to_vec(), b"two".to_vec(), b"three".to_vec()] {
        h.send(c, &payload).unwrap();
    }
    assert_eq!(h.receive(c).unwrap(), Some(b"one".to_vec()));
    assert_eq!(h.receive(c).unwrap(), Some(b"two".to_vec()));
    assert_eq!(h.receive(c).unwrap(), Some(b"three".to_vec()));
    assert_eq!(h.receive(c).unwrap(), None);
}

#[test]
fn fifo_send_then_drain_in_order() {
    let mut h = TransportHandle::new(config(5000, 4, 16, 1024));
    let c = h.open_channel("knowledge", None).unwrap();
    h.send(c, &b"a".to_vec()).unwrap();
    h.send(c, &b"b".to_vec()).unwrap();
    h.send(c, &b"c".to_vec()).unwrap();
    let drained = h.drain(c, None).unwrap();
    assert_eq!(drained, vec![b"a".to_vec(), b"b".to_vec(), b"c".to_vec()]);
    assert_eq!(h.queue_len(c).unwrap(), 0);
}

#[test]
fn drain_respects_limit() {
    let mut h = TransportHandle::new(config(5000, 4, 16, 1024));
    let c = h.open_channel("state", None).unwrap();
    for p in [b"1".to_vec(), b"2".to_vec(), b"3".to_vec()] {
        h.send(c, &p).unwrap();
    }
    let drained = h.drain(c, Some(2)).unwrap();
    assert_eq!(drained, vec![b"1".to_vec(), b"2".to_vec()]);
    assert_eq!(h.queue_len(c).unwrap(), 1);
    assert_eq!(h.drain(c, Some(10)).unwrap(), vec![b"3".to_vec()]);
}

#[test]
fn error_policy_scenario_on_depth_two() {
    let mut h = TransportHandle::new(config(5000, 4, 2, 1024));
    let c = h.open_channel("state", None).unwrap();
    h.send(c, &b"x".to_vec()).unwrap();
    h.send(c, &b"y".to_vec()).unwrap();
    assert_eq!(h.send(c, &b"z".to_vec()), Err(TransportError::CapacityExceeded));
    assert_eq!(h.receive(c).unwrap(), Some(b"x".to_vec()));
    assert_eq!(h.receive(c).unwrap(), Some(b"y".to_vec()));
    assert_eq!(h.receive(c).unwrap(), None);
}

#[test]
fn oversized_payload_is_capacity_exceeded() {
    let mut h = TransportHandle::new(config(5000, 4, 4, 3));
    let c = h.open_channel("state", None).unwrap();
    assert_eq!(h.send(c, &b"toolong".to_vec()), Err(TransportError::CapacityExceeded));
    assert_eq!(h.queue_len(c).unwrap(), 0);
    h.send(c, &b"ok".to_vec()).unwrap();
}

#[test]
fn send_and_receive_unknown_channel_are_not_found() {
    let mut h = TransportHandle::new(config(5000, 4, 4, 1024));
    assert_eq!(h.send(9, &b"p".to_vec()), Err(TransportError::NotFound));
    assert_eq!(h.receive(9), Err(TransportError::NotFound));
    assert_eq!(h.queue_len(9), Err(TransportError::NotFound));
    assert_eq!(h.drain(9, None), Err(TransportError::NotFound));
    assert_eq!(h.clear_channel(9), Err(TransportError::NotFound));
    assert!(matches!(h.channel_info(9), Err(TransportError::NotFound)));
}

#[test]
fn counters_track_sent_and_received_bytes() {
    let mut h = TransportHandle::new(config(5000, 4, 4, 1024));
    let c = h.open_channel("control", None).unwrap();
    h.send(c, &b"12345".to_vec()).unwrap();
    h.send(c, &b"678".to_vec()).unwrap();
    h.receive(c).unwrap();
    let (kind, session, qlen, sent_count, recv_count, sent_bytes, recv_bytes) =
        h.channel_stats(c).unwrap();
    assert_eq!(kind, "control");
    assert_eq!(session, None);
    assert_eq!(qlen, 1);
    assert_eq!(sent_count, 2);
    assert_eq!(recv_count, 1);
    assert_eq!(sent_bytes, 8);
    assert_eq!(recv_bytes, 5);
}

#[test]
fn drain_leaves_receive_counters_alone() {
    let mut h = TransportHandle::new(config(5000, 4, 4, 1024));
    let c = h.open_channel("state", None).unwrap();
    h.send(c, &b"abc".to_vec()).unwrap();
    h.drain(c, None).unwrap();
    let (_, _, _, _, recv_count, _, recv_bytes) = h.channel_stats(c).unwrap();
    assert_eq!(recv_count, 0);
    assert_eq!(recv_bytes, 0);
}

#[test]
fn clear_channel_reports_dropped_count() {
    let mut h = TransportHandle::new(config(5000, 4, 8, 1024));
    let c = h.open_channel("state", None).unwrap();
    h.send(c, &b"a".to_vec()).unwrap();
    h.send(c, &b"b".to_vec()).unwrap();
    assert_eq!(h.clear_channel(c).unwrap(), 2);
    assert_eq!(h.queue_len(c).unwrap(), 0);
}

#[test]
fn handshake_echoes_and_refreshes() {
    let mut h = TransportHandle::new(config(1000, 4, 4, 1024));
    let s = h.create_session("peer-a", 0);
    let echo = h.handshake(s, &b"challenge".to_vec(), 500).unwrap();
    assert_eq!(echo, b"challenge".to_vec());
    let (_, _, hb_gap) = h.session_info(s, 600).unwrap();
    assert_eq!(hb_gap, 100);
    assert_eq!(h.handshake(99, &b"c".to_vec(), 0), Err(TransportError::NotFound));
}

#[test]
fn heartbeat_reports_liveness_and_refreshes() {
    let mut h = TransportHandle::new(config(1000, 4, 4, 1024));
    let s = h.create_session("peer-a", 0);
    assert_eq!(h.heartbeat(s, 2000).unwrap(), true);
    assert_eq!(h.heartbeat(s, 4000).unwrap(), true);
    assert_eq!(h.heartbeat(s, 6001).unwrap(), false);
    assert_eq!(h.heartbeat(s, 6100).unwrap(), true);
    assert_eq!(h.heartbeat(42, 0), Err(TransportError::NotFound));
}

#[test]
fn session_info_reports_age_and_gap() {
    let mut h = TransportHandle::new(config(1000, 4, 4, 1024));
    let s = h.create_session("peer-a", 1000);
    let (peer, age, gap) = h.session_info(s, 1500).unwrap();
    assert_eq!(peer, "peer-a");
    assert_eq!(age, 500);
    assert_eq!(gap, 500);
    assert!(matches!(h.session_info(999, 0), Err(TransportError::NotFound)));
}

#[test]
fn list_sessions_snapshots_every_session() {
    let mut h = TransportHandle::new(config(1000, 4, 4, 1024));
    let s1 = h.create_session("peer-a", 0);
    let s2 = h.create_session("peer-b", 100);
    let listed = h.list_sessions(200);
    assert_eq!(listed.len(), 2);
    assert_eq!(listed[0], (s1, "peer-a".to_string(), 200, 200));
    assert_eq!(listed[1], (s2, "peer-b".to_string(), 100, 100));
}

#[test]
fn session_ids_and_channel_ids_share_one_counter() {
    let mut h = TransportHandle::new(config(1000, 4, 4, 1024));
    let s = h.create_session("peer-a", 0);
    let c = h.open_channel("state", None).unwrap();
    let s2 = h.create_session("peer-b", 0);
    assert_eq!(s, 1);
    assert_eq!(c, 2);
    assert_eq!(s2, 3);
}

#[test]
fn prune_removes_only_stale_sessions() {
    let mut h = TransportHandle::new(config(1000, 4, 4, 1024));
    let stale = h.create_session("old-peer", 0);
    let fresh = h.create_session("new-peer", 5000);
    let removed = h.prune_sessions(5500);
    assert_eq!(removed, 1);
    assert!(matches!(h.session_info(stale, 5500), Err(TransportError::NotFound)));
    assert!(h.session_info(fresh, 5500).is_ok());
}

#[test]
fn send_on_pruned_session_channel_is_disconnected() {
    let mut h = TransportHandle::new(config(1000, 4, 4, 1024));
    let s = h.create_session("peer-a", 0);
    let c = h.open_channel("state", Some(s)).unwrap();
    assert_eq!(h.prune_sessions(10_000), 1);
    assert_eq!(h.send(c, &b"p".to_vec()), Err(TransportError::Disconnected));
    assert_eq!(h.receive(c), Err(TransportError::Disconnected));
    let (kind, session) = h.channel_info(c).unwrap();
    assert_eq!(kind, "state");
    assert_eq!(session, Some(s));
}

#[test]
fn bind_channel_requires_both_ids() {
    let mut h = TransportHandle::new(config(1000, 4, 4, 1024));
    let s = h.create_session("peer-a", 0);
    let c = h.open_channel("state", None).unwrap();
    assert_eq!(h.bind_channel(c, 999), Err(TransportError::NotFound));
    assert_eq!(h.bind_channel(999, s), Err(TransportError::NotFound));
    h.bind_channel(c, s).unwrap();
    let (_, session) = h.channel_info(c).unwrap();
    assert_eq!(session, Some(s));
}

#[test]
fn close_session_cascades_to_bound_channels() {
    let mut h = TransportHandle::new(config(1000, 8, 4, 1024));
    let s = h.create_session("peer-a", 0);
    let c1 = h.open_channel("state", Some(s)).unwrap();
    let c2 = h.open_channel("control", Some(s)).unwrap();
    let free = h.open_channel("knowledge", None).unwrap();
    h.send(c1, &b"queued".to_vec()).unwrap();
    h.close_session(s).unwrap();
    assert_eq!(h.send(c1, &b"p".to_vec()), Err(TransportError::NotFound));
    assert_eq!(h.send(c2, &b"p".to_vec()), Err(TransportError::NotFound));
    assert_eq!(h.receive(c1), Err(TransportError::NotFound));
    assert_eq!(h.receive(c2), Err(TransportError::NotFound));
    assert_eq!(h.queue_len(c1), Err(TransportError::NotFound));
    assert!(h.queue_len(free).is_ok());
    assert!(matches!(h.session_info(s, 0), Err(TransportError::NotFound)));
    h.close_session(s).unwrap();
}

#[test]
fn list_channel_stats_snapshots_queues() {
    let mut h = TransportHandle::new(config(1000, 8, 4, 1024));
    let c1 = h.open_channel("state", None).unwrap();
    let c2 = h.open_channel("control", None).unwrap();
    h.send(c1, &b"aa".to_vec()).unwrap();
    let stats = h.list_channel_stats();
    assert_eq!(stats.len(), 2);
    assert_eq!(stats[0].0, c1);
    assert_eq!(stats[0].1, "state");
    assert_eq!(stats[0].3, 1);
    assert_eq!(stats[0].4, 1);
    assert_eq!(stats[0].6, 2);
    assert_eq!(stats[1].0, c2);
    assert_eq!(stats[1].1, "control");
    assert_eq!(stats[1].3, 0);
}

#[test]
fn getters_report_configuration() {
    let h = TransportHandle::new(config(123, 4, 5, 6));
    assert_eq!(h.heartbeat_ms(), 123);
    assert_eq!(h.max_channels(), 4);
    assert_eq!(h.max_queue_depth(), 5);
    assert_eq!(h.max_payload_bytes(), 6);
}

#[test]
fn empty_payload_is_distinguished_from_no_message() {
    let mut h = TransportHandle::new(config(1000, 4, 4, 1024));
    let c = h.open_channel("state", None).unwrap();
    h.send(c, &Vec::new()).unwrap();
    assert_eq!(h.receive(c).unwrap(), Some(Vec::new()));
    assert_eq!(h.receive(c).unwrap(), None);
}
