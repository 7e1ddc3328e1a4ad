use corvid::decode::{Decoded, RecordImage};
use corvid::flow::{FlowKey, FlowRecord};
use corvid::snapshot::merge;
use corvid::snapshot::{decode, encode, SnapshotIndex};
use corvid::store::{FieldIndex, RecordStore};

#[test]
fn snapshot_roundtrip() {
    let mut a = FlowRecord::new(FlowKey::new(1, 2, 3, 4, 5, 6), 10);
    a.accumulate(500, 3, 20);
    a.bind_template(256, 2, 4);
    let b = FlowRecord::new(FlowKey::from_flow_id(9), 0);
    let buf = encode(&[a, b]);
    let back = decode(&buf).unwrap();
    assert_eq!(back.len(), 2);
    assert_eq!(back[0].octets, 500);
    assert_eq!(back[0].template_id, 256);
}

#[test]
fn snapshot_roundtrip_keeps_keys_and_times() {
    let mut a = FlowRecord::new(FlowKey::new(1, 2, 3, 4, 5, 6), 10);
    a.accumulate(500, 3, 20);
    let back = decode(&encode(&[a])).unwrap();
    assert_eq!(back[0].key, a.key);
    assert_eq!(back[0].packets, 3);
    assert_eq!(back[0].first_ms, 20);
    assert_eq!(back[0].last_ms, 20);
}

#[test]
fn corrupt_crc_rejected() {
    let buf = encode(&[FlowRecord::new(FlowKey::from_flow_id(1), 0)]);
    let mut bad = buf.clone();
    let n = bad.len();
    bad[n - 1] ^= 0xFF;
    assert!(decode(&bad).is_err());
}

#[test]
fn build_and_query() {
    let mut a = FlowRecord::new(FlowKey::from_flow_id(1), 0);
    a.accumulate(100, 1, 10);
    let mut b = FlowRecord::new(FlowKey::from_flow_id(2), 0);
    b.accumulate(900, 1, 20);
    let snap = encode(&[a, b]);
    let idx = SnapshotIndex::build(&snap).unwrap();
    assert_eq!(idx.len(), 2);
    assert_eq!(idx.total_octets(), 1000);
    assert_eq!(idx.heaviest(1)[0].key.flow_id, 2);
    assert!(idx.find_flow(1).is_some());
}

#[test]
fn idle_before_selects_old_flows() {
    let mut a = FlowRecord::new(FlowKey::from_flow_id(1), 0);
    a.accumulate(100, 1, 10);
    let mut b = FlowRecord::new(FlowKey::from_flow_id(2), 0);
    b.accumulate(900, 1, 20);
    let idx = SnapshotIndex::build(&encode(&[a, b])).unwrap();
    assert_eq!(idx.idle_before(15).len(), 1);
    assert!(idx.find_flow(3).is_none());
}

#[test]
fn merge_sums_counters() {
    let mut r = FlowRecord::new(FlowKey::new(1, 2, 3, 0, 0, 6), 0);
    r.accumulate(100, 1, 0);
    let a = encode(&[r]);
    let mut r2 = FlowRecord::new(FlowKey::new(1, 2, 3, 0, 0, 6), 0);
    r2.accumulate(50, 1, 0);
    let b = encode(&[r2]);
    let merged = decode(&merge(&a, &b).unwrap()).unwrap();
    assert_eq!(merged.len(), 1);
    assert_eq!(merged[0].octets, 150);
}

#[test]
fn merge_rejects_corrupt_input() {
    let a = encode(&[FlowRecord::new(FlowKey::from_flow_id(1), 0)]);
    assert!(merge(&a, b"junk").is_err());
    assert!(merge(b"junk", &a).is_err());
}

#[test]
fn point_and_range() {
    let mut idx = FieldIndex::new();
    idx.insert(1, 10);
    idx.insert(2, 10);
    idx.insert(3, 20);
    assert_eq!(idx.point(10).len(), 2);
    assert_eq!(idx.range(10, 20).len(), 3);
}

#[test]
fn reindex_moves_key() {
    let mut idx = FieldIndex::new();
    idx.insert(1, 10);
    idx.insert(1, 20);
    assert!(idx.point(10).is_empty());
    assert_eq!(idx.point(20), vec![1]);
}

#[test]
fn range_is_sorted_and_bounded() {
    let mut idx = FieldIndex::new();
    idx.insert(9, 15);
    idx.insert(4, 12);
    idx.insert(7, 30);
    idx.insert(1, 10);
    assert_eq!(idx.range(11, 20), vec![4, 9]);
    assert_eq!(idx.distinct_values(), 4);
    idx.remove(9);
    assert_eq!(idx.range(11, 20), vec![4]);
    idx.insert(2, 30);
    assert_eq!(idx.distinct_values(), 3);
}

fn img(v: u32) -> RecordImage {
    RecordImage { values: vec![Decoded::U32(v)] }
}

#[test]
fn put_get_hit_miss() {
    let mut s = RecordStore::new(4, 0);
    s.put(1, img(10));
    assert!(s.get(1).is_some());
    assert!(s.get(2).is_none());
    let (hits, misses, _) = s.stats();
    assert_eq!((hits, misses), (1, 1));
}

#[test]
fn ttl_expires() {
    let mut s = RecordStore::new(4, 100);
    s.tick(0);
    s.put(1, img(1));
    s.tick(200);
    assert!(s.get(1).is_none());
}

#[test]
fn ttl_keeps_fresh_entries() {
    let mut s = RecordStore::new(4, 100);
    s.tick(0);
    s.put(1, img(1));
    s.tick(50);
    s.put(2, img(2));
    s.tick(120);
    assert!(s.get(1).is_none());
    assert!(s.get(2).is_some());
    assert_eq!(s.len(), 1);
}

#[test]
fn lru_eviction() {
    let mut s = RecordStore::new(2, 0);
    s.put(1, img(1));
    s.put(2, img(2));
    let _ = s.get(1);
    s.put(3, img(3));
    assert!(s.get(2).is_none());
    assert!(s.get(1).is_some());
}

#[test]
fn get_returns_the_stored_image() {
    let mut s = RecordStore::new(2, 0);
    s.put(5, img(42));
    match s.get(5) {
        Some(r) => match r.values[0] {
            Decoded::U32(v) => assert_eq!(v, 42),
            _ => panic!("wrong value"),
        },
        None => panic!("missing"),
    }
    let taken = s.remove(5).unwrap();
    assert_eq!(taken.values.len(), 1);
    assert!(s.is_empty());
    assert!(s.remove(5).is_none());
}

#[test]
fn zero_capacity_holds_one() {
    let mut s = RecordStore::new(0, 0);
    s.put(1, img(1));
    s.put(2, img(2));
    assert_eq!(s.len(), 1);
    assert_eq!(s.stats().2, 1);
    assert!(s.get(2).is_some());
}
