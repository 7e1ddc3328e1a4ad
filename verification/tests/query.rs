use corvid::flow::{FlowKey, FlowRecord};
use corvid::query::{Aggregate, AggregateKind, Query, SortKey};
use corvid::reassembly::policy::{OverlapPolicy, Resolution, Span};
use corvid::reassembly::tracker::CoverageTracker;
use corvid::reassembly::{Reassembler, Window};
use corvid::report::render_flows;

#[test]
fn min_max() {
    let mut mn = Aggregate::new(AggregateKind::MinOctets);
    let mut mx = Aggregate::new(AggregateKind::MaxOctets);
    for o in [30u64, 10, 90] {
        let mut r = FlowRecord::new(FlowKey::from_flow_id(1), 0);
        r.accumulate(o, 1, 0);
        mn.observe(&r);
        mx.observe(&r);
    }
    assert_eq!(mn.value(), 10);
    assert_eq!(mx.value(), 90);
}

#[test]
fn empty_aggregates_are_zero() {
    let mn = Aggregate::new(AggregateKind::MinOctets);
    let sum = Aggregate::new(AggregateKind::SumOctets);
    assert_eq!(mn.value(), 0);
    assert_eq!(sum.value(), 0);
    assert_eq!(sum.kind(), AggregateKind::SumOctets);
}

fn flow(id: u32, octets: u64) -> FlowRecord {
    let mut r = FlowRecord::new(FlowKey::from_flow_id(id), 0);
    r.accumulate(octets, 1, 100);
    r
}

#[test]
fn filter_sort_limit() {
    let flows = vec![flow(1, 50), flow(2, 500), flow(3, 150)];
    let q = Query::new().where_clause("octets >= 100").unwrap().order_by(SortKey::Octets, true).limit(1);
    let rs = q.run(&flows);
    assert_eq!(rs.total_matched, 2);
    assert_eq!(rs.rows.len(), 1);
    assert_eq!(rs.rows[0].key.flow_id, 2);
}

#[test]
fn ascending_order_without_limit() {
    let flows = vec![flow(1, 50), flow(2, 500), flow(3, 150)];
    let rs = Query::new().order_by(SortKey::Octets, false).run(&flows);
    assert_eq!(rs.scanned, 3);
    let ids: Vec<u32> = rs.rows.iter().map(|r| r.key.flow_id).collect();
    assert_eq!(ids, vec![1, 3, 2]);
}

#[test]
fn bad_filter_is_rejected() {
    assert!(Query::new().where_clause("octets ~ 3").is_err());
    assert!(SortKey::parse("octets").is_some());
    assert!(SortKey::parse("nonsense").is_none());
}

#[test]
fn aggregate_sum() {
    let flows = vec![flow(1, 50), flow(2, 500)];
    let q = Query::new().aggregate(AggregateKind::SumOctets);
    let rs = q.run(&flows);
    assert_eq!(rs.aggregate(AggregateKind::SumOctets).unwrap().value(), 550);
}

#[test]
fn ordered_reassembly() {
    let mut r = Reassembler::new(16, 4096);
    r.add(4, b"world").unwrap();
    r.add(0, b"helo").unwrap();
    let out = r.reassemble().unwrap();
    assert_eq!(&out, b"heloworld");
}

#[test]
fn later_fragment_overwrites_overlap() {
    let mut r = Reassembler::new(16, 4096);
    r.add(0, b"aaaa").unwrap();
    r.add(2, b"bb").unwrap();
    assert_eq!(r.reassemble().unwrap(), b"aabb".to_vec());
    assert_eq!(r.fragment_count(), 2);
    assert_eq!(r.total_bytes(), 6);
    r.clear();
    assert_eq!(r.fragment_count(), 0);
}

#[test]
fn negative_span_rejected() {
    let mut r = Reassembler::new(16, 4096);
    assert!(r.reorder(0x200, 0x100).is_err());
}

#[test]
fn fragment_limit() {
    let mut r = Reassembler::new(2, 4096);
    r.add(0, b"a").unwrap();
    r.add(1, b"b").unwrap();
    assert!(r.add(2, b"c").is_err());
    assert_eq!(r.fragment_count(), 2);
    assert_eq!(r.total_bytes(), 2);
    assert_eq!(r.reassemble().unwrap(), b"ab".to_vec());
}

#[test]
fn disjoint_takes_new() {
    let a = Span::new(0, 10);
    let b = Span::new(10, 5);
    assert_eq!(OverlapPolicy::Strict.resolve(&a, &b, false), Resolution::TakeNew(b));
}

#[test]
fn strict_rejects_inconsistent_overlap() {
    let a = Span::new(0, 10);
    let b = Span::new(5, 10);
    assert_eq!(OverlapPolicy::Strict.resolve(&a, &b, false), Resolution::Conflict);
}

#[test]
fn last_wins_takes_new() {
    let a = Span::new(0, 10);
    let b = Span::new(5, 10);
    assert_eq!(OverlapPolicy::LastWins.resolve(&a, &b, false), Resolution::TakeNew(b));
}

#[test]
fn intersection_math() {
    let a = Span::new(0, 10);
    let b = Span::new(4, 10);
    assert_eq!(a.intersection(&b), Some(Span { start: 4, end: 10 }));
}

#[test]
fn disjoint_spans_do_not_intersect() {
    let a = Span::new(0, 4);
    let b = Span::new(4, 4);
    assert!(!a.overlaps(&b));
    assert_eq!(a.intersection(&b), None);
    assert_eq!(b.len(), 4);
}

#[test]
fn coalesces_adjacent() {
    let mut t = CoverageTracker::new();
    t.add(0, 100);
    t.add(100, 100);
    assert_eq!(t.interval_count(), 1);
    assert_eq!(t.contiguous_prefix(), 200);
}

#[test]
fn reports_gaps() {
    let mut t = CoverageTracker::new();
    t.add(0, 50);
    t.add(100, 50);
    let gaps = t.gaps(150);
    assert_eq!(gaps, vec![(50, 50)]);
    assert!(!t.is_complete(150));
    assert_eq!(t.gaps(200), vec![(50, 50), (150, 50)]);
    assert_eq!(t.gaps(40), vec![]);
    assert_eq!(t.interval_count(), 2);
}

#[test]
fn empty_ranges_add_nothing() {
    let mut t = CoverageTracker::new();
    t.add(u64::MAX, 5);
    t.add(7, 0);
    assert_eq!(t.interval_count(), 0);
    assert_eq!(t.total_covered(), 0);
}

#[test]
fn coverage_totals_and_completion() {
    let mut t = CoverageTracker::new();
    t.add(10, 20);
    t.add(0, 10);
    assert_eq!(t.total_covered(), 30);
    assert_eq!(t.scan_coverage(), 30);
    assert!(t.is_complete(30));
    assert_eq!(t.gaps(40), vec![(30, 10)]);
}

#[test]
fn place_and_read_wrapping() {
    let mut w = Window::new(64);
    w.place(60, b"abcdef").unwrap();
    let out = w.read(60, 6).unwrap();
    assert_eq!(&out, b"abcdef");
}

#[test]
fn place_at_the_last_sequence_wraps() {
    let mut w = Window::new(64);
    w.place(u64::MAX, b"ab").unwrap();
    assert_eq!(w.read(u64::MAX, 2).unwrap(), b"ab".to_vec());
    assert_eq!(w.high_seq(), u64::MAX);
}

#[test]
fn oversize_rejected() {
    let mut w = Window::new(64);
    assert!(w.place(0, &vec![0u8; 65]).is_err());
    assert!(w.read(0, 65).is_err());
}

#[test]
fn renders_table() {
    let mut r = FlowRecord::new(FlowKey::new(0x0100_0001, 0x0100_0002, 7, 1, 2, 6), 0);
    r.accumulate(1234, 10, 100);
    let rs = Query::new().run(&[r]);
    let text = render_flows(&rs);
    assert!(text.contains("flow"));
    assert!(text.contains("1234"));
    assert!(text.contains("1 flow(s) shown"));
}

#[test]
fn rendered_row_is_aligned() {
    let mut r = FlowRecord::new(FlowKey::new(0x0100_0001, 0x0100_0002, 7, 1, 2, 6), 0);
    r.accumulate(1234, 10, 100);
    let rs = Query::new().aggregate(AggregateKind::SumOctets).run(&[r]);
    let text = render_flows(&rs);
    let row = text.lines().nth(2).unwrap();
    assert_eq!(row, "         7  1.0.0.1          1.0.0.2                  1234          10         1");
    assert!(text.contains("1 flow(s) shown of 1 matched (1 scanned)"));
}
