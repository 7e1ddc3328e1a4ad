use corvid::flow::dir::{likely_server_is_dst, same_conversation};
use corvid::flow::{
    canonicalize, BiflowPairer, ConnRegistry, Direction, ExpiryPolicy, ExpiryReason, FlowKey, FlowRecord, FlowState,
    FlowStats, FlowTable,
};

#[test]
fn pairs_mirror_flows() {
    let mut p = BiflowPairer::new();
    let mut fwd = FlowRecord::new(FlowKey::new(1, 2, 0, 100, 200, 6), 0);
    fwd.accumulate(1000, 10, 0);
    let mut rev = FlowRecord::new(FlowKey::new(2, 1, 0, 200, 100, 6), 0);
    rev.accumulate(500, 8, 0);
    p.observe(&fwd);
    p.observe(&rev);
    assert_eq!(p.len(), 1);
    let bf = p.biflows().iter().next().unwrap();
    assert_eq!(bf.total_octets(), 1500);
}

#[test]
fn biflow_keeps_direction_counters() {
    let mut p = BiflowPairer::new();
    let mut fwd = FlowRecord::new(FlowKey::new(1, 2, 0, 100, 200, 6), 0);
    fwd.accumulate(1000, 10, 0);
    let mut rev = FlowRecord::new(FlowKey::new(2, 1, 0, 200, 100, 6), 0);
    rev.accumulate(500, 8, 0);
    p.observe(&fwd);
    p.observe(&rev);
    let bf = &p.biflows()[0];
    assert_eq!(bf.fwd_octets, 1000);
    assert_eq!(bf.rev_octets, 500);
    assert_eq!(bf.fwd_packets, 10);
    assert_eq!(bf.rev_packets, 8);
}

#[test]
fn queued_request_dropped_after_reset() {
    let mut r = ConnRegistry::new(64);
    r.open(1);
    r.enqueue(1, 0x10, b"hi").unwrap();
    r.reset(1);
    r.process_queue();
    let (processed, dropped) = r.stats();
    assert_eq!(processed, 0);
    assert_eq!(dropped, 1);
}

#[test]
fn served_when_live() {
    let mut r = ConnRegistry::new(64);
    r.open(2);
    r.enqueue(2, 0x20, b"data").unwrap();
    r.process_queue();
    assert_eq!(r.stats().0, 1);
}

#[test]
fn enqueue_to_unknown_connection_fails() {
    let mut r = ConnRegistry::new(64);
    assert!(r.enqueue(9, 0x10, b"x").is_err());
    assert_eq!(r.queued(), 0);
}

#[test]
fn directions_share_canonical() {
    let fwd = FlowKey::new(0x0a00_0001, 0x0a00_0002, 1, 1000, 80, 6);
    let rev = FlowKey::new(0x0a00_0002, 0x0a00_0001, 1, 80, 1000, 6);
    assert!(same_conversation(&fwd, &rev));
    assert_eq!(canonicalize(&fwd).direction, Direction::Forward);
    assert_eq!(canonicalize(&rev).direction, Direction::Reverse);
}

#[test]
fn canonical_keys_agree() {
    let fwd = FlowKey::new(0x0a00_0001, 0x0a00_0002, 1, 1000, 80, 6);
    let rev = FlowKey::new(0x0a00_0002, 0x0a00_0001, 1, 80, 1000, 6);
    assert_eq!(canonicalize(&fwd).key, canonicalize(&rev).key);
    assert_eq!(canonicalize(&canonicalize(&rev).key).key, canonicalize(&rev).key);
}

#[test]
fn server_heuristic() {
    let k = FlowKey::new(1, 2, 0, 40000, 443, 6);
    assert!(likely_server_is_dst(&k));
}

#[test]
fn idle_expiry() {
    let p = ExpiryPolicy::new(1000, 100_000);
    let mut r = FlowRecord::new(FlowKey::from_flow_id(1), 0);
    r.accumulate(1, 1, 500);
    assert_eq!(p.evaluate(&r, 2000), ExpiryReason::Idle);
    assert_eq!(p.evaluate(&r, 800), ExpiryReason::Live);
}

#[test]
fn active_expiry() {
    let p = ExpiryPolicy::new(10_000, 1000);
    let mut r = FlowRecord::new(FlowKey::from_flow_id(1), 0);
    r.accumulate(1, 1, 100);
    assert_eq!(p.evaluate(&r, 1500), ExpiryReason::Active);
}

#[test]
fn idle_deadline_is_last_seen_plus_idle() {
    let p = ExpiryPolicy::new(1000, 100_000);
    let mut r = FlowRecord::new(FlowKey::from_flow_id(1), 0);
    r.accumulate(1, 1, 500);
    assert_eq!(p.next_idle_deadline(&r), 1500);
    assert!(p.should_expire(&r, 1500));
    assert!(!p.should_expire(&r, 1499));
}

#[test]
fn distinct_keys_distinct() {
    let a = FlowKey::new(1, 2, 3, 4, 5, 6);
    let b = FlowKey::new(1, 2, 3, 4, 5, 7);
    assert_ne!(a, b);
    assert_ne!(a.digest(), b.digest());
}

#[test]
fn digest_is_stable() {
    let a = FlowKey::new(1, 2, 3, 4, 5, 6);
    let b = FlowKey::new(1, 2, 3, 4, 5, 6);
    assert_eq!(a.digest(), b.digest());
}

#[test]
fn accumulation() {
    let mut r = FlowRecord::new(FlowKey::from_flow_id(1), 100);
    r.accumulate(50, 1, 100);
    r.accumulate(50, 1, 200);
    assert_eq!(r.octets, 100);
    assert_eq!(r.records, 2);
    assert_eq!(r.state, FlowState::Active);
}

#[test]
fn layout_change_flagged() {
    let mut r = FlowRecord::new(FlowKey::from_flow_id(1), 0);
    r.bind_template(5, 1, 3);
    r.bind_template(5, 2, 4);
    assert!(r.layout_changed);
}

#[test]
fn same_generation_keeps_layout() {
    let mut r = FlowRecord::new(FlowKey::from_flow_id(1), 0);
    r.bind_template(5, 1, 3);
    r.bind_template(5, 1, 3);
    assert!(!r.layout_changed);
}

fn rec(octets: u64, packets: u64, dur: u64) -> FlowRecord {
    let mut r = FlowRecord::new(FlowKey::from_flow_id(1), 0);
    r.accumulate(octets, packets, dur);
    r.first_ms = 0;
    r.last_ms = dur;
    r
}

#[test]
fn rates_computed() {
    let r = rec(1000, 10, 1000);
    let s = FlowStats::of(&r);
    assert_eq!(s.duration_ms, 1000);
    assert_eq!(s.mean_packet_bytes, 100);
    assert_eq!(s.bits_per_sec, 8000);
}

#[test]
fn zero_packets_safe() {
    let mut r = rec(0, 0, 0);
    r.last_ms = 0;
    let s = FlowStats::of(&r);
    assert_eq!(s.mean_packet_bytes, 0);
    assert_eq!(s.burstiness(), 100);
}

#[test]
fn packet_rate_over_two_seconds() {
    let r = rec(4000, 20, 2000);
    let s = FlowStats::of(&r);
    assert_eq!(s.packets_per_sec, 10);
    assert_eq!(s.bits_per_sec, 16000);
    assert!(s.is_elephant(16000));
    assert!(!s.is_elephant(16001));
}

#[test]
fn create_and_accumulate() {
    let mut t = FlowTable::new(16, 1000, 8192);
    let k = FlowKey::from_flow_id(1);
    t.update(k, 100, 1, 5, 1, 3, 10);
    t.update(k, 50, 1, 5, 1, 3, 20);
    assert_eq!(t.get(&k).unwrap().octets, 150);
    assert_eq!(t.len(), 1);
}

#[test]
fn capacity_evicts_oldest() {
    let mut t = FlowTable::new(2, 0, 8192);
    for i in 0..4u32 {
        t.update(FlowKey::from_flow_id(i), 1, 1, 1, 1, 1, i as u64);
    }
    assert_eq!(t.len(), 2);
    let evicted = t.drain_exported();
    assert!(evicted.len() >= 2);
    assert_eq!(evicted[0].key, FlowKey::from_flow_id(0));
    assert!(t.get(&FlowKey::from_flow_id(0)).is_none());
    assert!(t.get(&FlowKey::from_flow_id(3)).is_some());
}

#[test]
fn purge_template_drops_bound_flows() {
    let mut t = FlowTable::new(16, 0, 8192);
    t.update(FlowKey::from_flow_id(1), 1, 1, 7, 1, 3, 0);
    t.update(FlowKey::from_flow_id(2), 1, 1, 9, 1, 3, 0);
    t.purge_template(7);
    assert!(t.get(&FlowKey::from_flow_id(1)).is_none());
    assert!(t.get(&FlowKey::from_flow_id(2)).is_some());
}

#[test]
fn table_never_exceeds_capacity() {
    let mut t = FlowTable::new(3, 0, 8192);
    for i in 0..10u32 {
        t.update(FlowKey::from_flow_id(i), 1, 1, 1, 1, 1, i as u64);
        assert!(t.len() <= 3);
    }
    assert_eq!(t.created(), 10);
}
