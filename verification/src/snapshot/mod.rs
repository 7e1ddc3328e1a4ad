//! Persisting and restoring flow-table state.

pub mod format;
pub mod index;

pub use format::{decode, encode};
pub use index::SnapshotIndex;

use vstd::prelude::*;

use crate::error::{Error, Kind};
use crate::flow::record::wadd;
use crate::flow::FlowRecord;
use format::{snap_ok, spec_decode, spec_encode};

verus! {

/// Records that merge into one another: same source, destination and flow id.
pub open spec fn same_flow(a: FlowRecord, b: FlowRecord) -> bool {
    a.key.src == b.key.src && a.key.dst == b.key.dst && a.key.flow_id == b.key.flow_id
}

/// `e` with `r`'s counters summed in (wrapping) and the later last-seen time.
pub open spec fn combine(e: FlowRecord, r: FlowRecord) -> FlowRecord {
    FlowRecord {
        octets: wadd(e.octets, r.octets),
        packets: wadd(e.packets, r.packets),
        records: wadd(e.records, r.records),
        last_ms: if e.last_ms >= r.last_ms { e.last_ms } else { r.last_ms },
        ..e
    }
}

/// The first entry of `acc` for the same flow as `r`.
pub open spec fn find_same(acc: Seq<FlowRecord>, r: FlowRecord) -> Option<int>
    decreases acc.len(),
{
    if acc.len() == 0 {
        None
    } else if same_flow(acc[0], r) {
        Some(0)
    } else {
        match find_same(acc.drop_first(), r) {
            Some(i) => Some(i + 1),
            None => None,
        }
    }
}

/// Fold `r` into `acc`: combined into its flow's entry, or appended.
pub open spec fn merge_one(acc: Seq<FlowRecord>, r: FlowRecord) -> Seq<FlowRecord> {
    match find_same(acc, r) {
        Some(i) => acc.update(i, combine(acc[i], r)),
        None => acc.push(r),
    }
}

pub open spec fn merge_all(acc: Seq<FlowRecord>, rs: Seq<FlowRecord>) -> Seq<FlowRecord>
    decreases rs.len(),
{
    if rs.len() == 0 {
        acc
    } else {
        merge_one(merge_all(acc, rs.drop_last()), rs.last())
    }
}

proof fn lemma_find_same_bound(acc: Seq<FlowRecord>, r: FlowRecord)
    ensures
        find_same(acc, r) matches Some(i) ==> 0 <= i < acc.len(),
    decreases acc.len(),
{
    if acc.len() > 0 && !same_flow(acc[0], r) {
        lemma_find_same_bound(acc.drop_first(), r);
    }
}

proof fn lemma_find_same(acc: Seq<FlowRecord>, r: FlowRecord)
    ensures
        find_same(acc, r) matches Some(i) ==> 0 <= i < acc.len() && same_flow(acc[i], r),
        find_same(acc, r) is None ==> forall|j: int| 0 <= j < acc.len() ==> !same_flow(#[trigger] acc[j], r),
    decreases acc.len(),
{
    if acc.len() > 0 && !same_flow(acc[0], r) {
        let d = acc.drop_first();
        lemma_find_same(d, r);
        assert forall|j: int| 0 < j < acc.len() implies acc[j] == d[j - 1] by {}
    }
}

/// The sum of one counter over the records of `rs` that belong to the same
/// flow (source, destination, flow id) as `f`.
pub open spec fn flow_total(rs: Seq<FlowRecord>, f: FlowRecord, field: spec_fn(FlowRecord) -> u64) -> int
    decreases rs.len(),
{
    if rs.len() == 0 {
        0
    } else {
        flow_total(rs.drop_last(), f, field) + if same_flow(rs.last(), f) {
            field(rs.last()) as int
        } else {
            0
        }
    }
}

proof fn lemma_flow_total_congruent(rs: Seq<FlowRecord>, f: FlowRecord, g: FlowRecord, field: spec_fn(FlowRecord) -> u64)
    requires
        same_flow(f, g),
    ensures
        flow_total(rs, f, field) == flow_total(rs, g, field),
    decreases rs.len(),
{
    if rs.len() > 0 {
        lemma_flow_total_congruent(rs.drop_last(), f, g, field);
    }
}

proof fn lemma_flow_total_none(rs: Seq<FlowRecord>, f: FlowRecord, field: spec_fn(FlowRecord) -> u64)
    requires
        forall|k: int| 0 <= k < rs.len() ==> !same_flow(#[trigger] rs[k], f),
    ensures
        flow_total(rs, f, field) == 0,
    decreases rs.len(),
{
    if rs.len() > 0 {
        let d = rs.drop_last();
        assert forall|k: int| 0 <= k < d.len() implies !same_flow(#[trigger] d[k], f) by {
            assert(d[k] == rs[k]);
        }
        lemma_flow_total_none(d, f, field);
        assert(!same_flow(rs[rs.len() - 1], f));
    }
}

/// Merging keeps one entry per flow, covers every input record's flow, and
/// a counter that combining sums (wrapping) ends up as the wrapping sum of
/// that counter over the flow's input records.
proof fn lemma_merge_field(rs: Seq<FlowRecord>, field: spec_fn(FlowRecord) -> u64)
    requires
        forall|e: FlowRecord, r: FlowRecord| #[trigger] field(combine(e, r)) == wadd(field(e), field(r)),
    ensures
        ({
            let m = merge_all(Seq::empty(), rs);
            &&& forall|i: int, j: int| 0 <= i < j < m.len() ==> !same_flow(#[trigger] m[i], #[trigger] m[j])
            &&& forall|k: int| 0 <= k < rs.len() ==> exists|i: int| 0 <= i < m.len() && same_flow(#[trigger] m[i], #[trigger] rs[k])
            &&& forall|i: int| 0 <= i < m.len() ==> (#[trigger] field(m[i])) == flow_total(rs, m[i], field) % 0x1_0000_0000_0000_0000
        }),
    decreases rs.len(),
{
    let md: int = 0x1_0000_0000_0000_0000;
    if rs.len() == 0 {
    } else {
        let p = rs.drop_last();
        let r = rs.last();
        lemma_merge_field(p, field);
        let a = merge_all(Seq::empty(), p);
        let m = merge_all(Seq::empty(), rs);
        assert(m == merge_one(a, r));
        lemma_find_same(a, r);
        assert forall|k: int| 0 <= k < p.len() implies p[k] == rs[k] by {}
        match find_same(a, r) {
            Some(i) => {
                assert(m == a.update(i, combine(a[i], r)));
                assert forall|j: int| 0 <= j < m.len() implies #[trigger] same_flow(m[j], a[j]) by {}
                assert forall|i1: int, j1: int| 0 <= i1 < j1 < m.len() implies !same_flow(#[trigger] m[i1], #[trigger] m[j1]) by {
                    assert(same_flow(m[i1], a[i1]) && same_flow(m[j1], a[j1]));
                    assert(!same_flow(a[i1], a[j1]));
                }
                assert forall|k: int| 0 <= k < rs.len() implies exists|x: int| 0 <= x < m.len() && same_flow(#[trigger] m[x], #[trigger] rs[k]) by {
                    if k < p.len() {
                        let x = choose|x: int| 0 <= x < a.len() && same_flow(#[trigger] a[x], p[k]);
                        assert(same_flow(m[x], a[x]));
                        assert(same_flow(m[x], rs[k]));
                    } else {
                        assert(same_flow(m[i], rs[k]));
                    }
                }
                assert forall|j: int| 0 <= j < m.len() implies (#[trigger] field(m[j])) == flow_total(rs, m[j], field) % md by {
                    lemma_flow_total_congruent(p, m[j], a[j], field);
                    let t = flow_total(p, a[j], field);
                    assert(field(a[j]) == t % md);
                    if j == i {
                        assert(same_flow(r, m[j]));
                        assert(flow_total(rs, m[j], field) == t + field(r));
                        vstd::arithmetic::div_mod::lemma_add_mod_noop(t, field(r) as int, md);
                        vstd::arithmetic::div_mod::lemma_small_mod(field(r) as nat, md as nat);
                        assert(t >= 0) by {
                            lemma_flow_total_nonneg(p, a[j], field);
                        }
                    } else {
                        assert(!same_flow(a[i], a[j]));
                        assert(!same_flow(r, m[j]));
                        assert(m[j] == a[j]);
                    }
                }
            },
            None => {
                assert(m == a.push(r));
                assert forall|i1: int, j1: int| 0 <= i1 < j1 < m.len() implies !same_flow(#[trigger] m[i1], #[trigger] m[j1]) by {
                    if j1 == a.len() {
                        assert(!same_flow(a[i1], r));
                    } else {
                        assert(m[i1] == a[i1] && m[j1] == a[j1]);
                    }
                }
                assert forall|k: int| 0 <= k < rs.len() implies exists|x: int| 0 <= x < m.len() && same_flow(#[trigger] m[x], #[trigger] rs[k]) by {
                    if k < p.len() {
                        let x = choose|x: int| 0 <= x < a.len() && same_flow(#[trigger] a[x], p[k]);
                        assert(m[x] == a[x]);
                        assert(same_flow(m[x], rs[k]));
                    } else {
                        assert(same_flow(m[a.len() as int], rs[k]));
                    }
                }
                assert forall|j: int| 0 <= j < m.len() implies (#[trigger] field(m[j])) == flow_total(rs, m[j], field) % md by {
                    if j < a.len() {
                        assert(m[j] == a[j]);
                        assert(!same_flow(a[j], r));
                    } else {
                        assert(m[j] == r);
                        assert forall|k: int| 0 <= k < p.len() implies !same_flow(#[trigger] p[k], r) by {
                            let x = choose|x: int| 0 <= x < a.len() && same_flow(#[trigger] a[x], p[k]);
                            assert(!same_flow(a[x], r));
                        }
                        lemma_flow_total_none(p, r, field);
                        vstd::arithmetic::div_mod::lemma_small_mod(field(r) as nat, md as nat);
                    }
                }
            },
        }
    }
}

proof fn lemma_flow_total_nonneg(rs: Seq<FlowRecord>, f: FlowRecord, field: spec_fn(FlowRecord) -> u64)
    ensures
        flow_total(rs, f, field) >= 0,
    decreases rs.len(),
{
    if rs.len() > 0 {
        lemma_flow_total_nonneg(rs.drop_last(), f, field);
    }
}

/// The latest last-seen time among the records of `rs` for the same flow as
/// `f` (-1 when there are none).
pub open spec fn flow_latest(rs: Seq<FlowRecord>, f: FlowRecord) -> int
    decreases rs.len(),
{
    if rs.len() == 0 {
        -1
    } else {
        let prev = flow_latest(rs.drop_last(), f);
        if same_flow(rs.last(), f) && rs.last().last_ms > prev {
            rs.last().last_ms as int
        } else {
            prev
        }
    }
}

proof fn lemma_flow_latest_congruent(rs: Seq<FlowRecord>, f: FlowRecord, g: FlowRecord)
    requires
        same_flow(f, g),
    ensures
        flow_latest(rs, f) == flow_latest(rs, g),
    decreases rs.len(),
{
    if rs.len() > 0 {
        lemma_flow_latest_congruent(rs.drop_last(), f, g);
    }
}

proof fn lemma_flow_latest_none(rs: Seq<FlowRecord>, f: FlowRecord)
    requires
        forall|k: int| 0 <= k < rs.len() ==> !same_flow(#[trigger] rs[k], f),
    ensures
        flow_latest(rs, f) == -1,
    decreases rs.len(),
{
    if rs.len() > 0 {
        let d = rs.drop_last();
        assert forall|k: int| 0 <= k < d.len() implies !same_flow(#[trigger] d[k], f) by {
            assert(d[k] == rs[k]);
        }
        lemma_flow_latest_none(d, f);
        assert(!same_flow(rs[rs.len() - 1], f));
    }
}

/// A merged record was last seen at the latest last-seen time of its flow's
/// input records.
pub proof fn lemma_merge_latest(rs: Seq<FlowRecord>)
    ensures
        ({
            let m = merge_all(Seq::empty(), rs);
            forall|i: int| 0 <= i < m.len() ==> (#[trigger] m[i]).last_ms == flow_latest(rs, m[i])
        }),
    decreases rs.len(),
{
    let fo = |x: FlowRecord| x.octets;
    assert forall|e: FlowRecord, r: FlowRecord| #[trigger] fo(combine(e, r)) == wadd(fo(e), fo(r)) by {}
    if rs.len() > 0 {
        let p = rs.drop_last();
        let r = rs.last();
        lemma_merge_latest(p);
        lemma_merge_field(p, fo);
        let a = merge_all(Seq::empty(), p);
        let m = merge_all(Seq::empty(), rs);
        assert(m == merge_one(a, r));
        lemma_find_same(a, r);
        assert forall|k: int| 0 <= k < p.len() implies p[k] == rs[k] by {}
        match find_same(a, r) {
            Some(i) => {
                assert(m == a.update(i, combine(a[i], r)));
                assert forall|j: int| 0 <= j < m.len() implies (#[trigger] m[j]).last_ms == flow_latest(rs, m[j]) by {
                    lemma_flow_latest_congruent(p, m[j], a[j]);
                    if j != i {
                        assert(!same_flow(a[i], a[j]));
                        assert(!same_flow(r, m[j]));
                        assert(m[j] == a[j]);
                    } else {
                        assert(same_flow(r, m[j]));
                    }
                }
            },
            None => {
                assert(m == a.push(r));
                assert forall|j: int| 0 <= j < m.len() implies (#[trigger] m[j]).last_ms == flow_latest(rs, m[j]) by {
                    if j < a.len() {
                        assert(m[j] == a[j]);
                        assert(!same_flow(a[j], r));
                    } else {
                        assert(m[j] == r);
                        assert forall|k: int| 0 <= k < p.len() implies !same_flow(#[trigger] p[k], r) by {
                            let x = choose|x: int| 0 <= x < a.len() && same_flow(#[trigger] a[x], #[trigger] p[k]);
                            assert(!same_flow(a[x], r));
                        }
                        lemma_flow_latest_none(p, r);
                    }
                }
            },
        }
    }
}

/// Merging snapshot records keeps one record per flow (source, destination,
/// flow id), every input flow is present, and each merged record's octets,
/// packets and record count are the wrapping sums of those counters over all
/// the input records of its flow.
pub proof fn lemma_merge_sums(rs: Seq<FlowRecord>)
    ensures
        ({
            let m = merge_all(Seq::empty(), rs);
            &&& forall|i: int, j: int| 0 <= i < j < m.len() ==> !same_flow(#[trigger] m[i], #[trigger] m[j])
            &&& forall|k: int| 0 <= k < rs.len() ==> exists|i: int| 0 <= i < m.len() && same_flow(#[trigger] m[i], #[trigger] rs[k])
            &&& forall|i: int|
                0 <= i < m.len() ==> (#[trigger] m[i]).octets == flow_total(rs, m[i], |x: FlowRecord| x.octets)
                    % 0x1_0000_0000_0000_0000
            &&& forall|i: int|
                0 <= i < m.len() ==> (#[trigger] m[i]).packets == flow_total(rs, m[i], |x: FlowRecord| x.packets)
                    % 0x1_0000_0000_0000_0000
            &&& forall|i: int|
                0 <= i < m.len() ==> (#[trigger] m[i]).records == flow_total(rs, m[i], |x: FlowRecord| x.records)
                    % 0x1_0000_0000_0000_0000
        }),
{
    let fo = |x: FlowRecord| x.octets;
    let fp = |x: FlowRecord| x.packets;
    let fr = |x: FlowRecord| x.records;
    assert forall|e: FlowRecord, r: FlowRecord| #[trigger] fo(combine(e, r)) == wadd(fo(e), fo(r)) by {}
    assert forall|e: FlowRecord, r: FlowRecord| #[trigger] fp(combine(e, r)) == wadd(fp(e), fp(r)) by {}
    assert forall|e: FlowRecord, r: FlowRecord| #[trigger] fr(combine(e, r)) == wadd(fr(e), fr(r)) by {}
    lemma_merge_field(rs, fo);
    lemma_merge_field(rs, fp);
    lemma_merge_field(rs, fr);
    let m = merge_all(Seq::empty(), rs);
    assert forall|i: int| 0 <= i < m.len() implies (#[trigger] m[i]).octets == flow_total(rs, m[i], fo) % 0x1_0000_0000_0000_0000 && m[i].packets == flow_total(rs, m[i], fp) % 0x1_0000_0000_0000_0000 && m[i].records == flow_total(rs, m[i], fr) % 0x1_0000_0000_0000_0000 by {
        assert(fo(m[i]) == m[i].octets);
        assert(fp(m[i]) == m[i].packets);
        assert(fr(m[i]) == m[i].records);
    }
}

fn find_same_exec(acc: &Vec<FlowRecord>, r: &FlowRecord) -> (res: Option<usize>)
    ensures
        res matches Some(i) ==> find_same(acc@, *r) == Some(i as int) && i < acc@.len(),
        res is None ==> find_same(acc@, *r) is None,
{
    let ghost s = acc@;
    let mut i: usize = 0;
    assert(s.skip(0) =~= s);
    while i < acc.len()
        invariant
            i <= s.len(),
            s == acc@,
            find_same(s, *r) == match find_same(s.skip(i as int), *r) {
                Some(j) => Some(j + i),
                None => None::<int>,
            },
        decreases s.len() - i,
    {
        assert(s.skip(i as int)[0] == s[i as int]);
        assert(s.skip(i as int).drop_first() =~= s.skip(i + 1));
        let e = &acc[i];
        if e.key.src == r.key.src && e.key.dst == r.key.dst && e.key.flow_id == r.key.flow_id {
            return Some(i);
        }
        i = i + 1;
    }
    None
}

fn merge_into(acc: &mut Vec<FlowRecord>, r: FlowRecord)
    ensures
        final(acc)@ == merge_one(old(acc)@, r),
{
    match find_same_exec(acc, &r) {
        Some(j) => {
            let e = acc[j];
            let mut m = e;
            m.octets = e.octets.wrapping_add(r.octets);
            m.packets = e.packets.wrapping_add(r.packets);
            m.records = e.records.wrapping_add(r.records);
            m.last_ms = if e.last_ms >= r.last_ms { e.last_ms } else { r.last_ms };
            acc.set(j, m);
        },
        None => {
            acc.push(r);
        },
    }
}

/// Merge two snapshots, summing counters for flows that share a source,
/// destination and flow id. Flows come out in first-seen order (those of `a`,
/// then the new ones of `b`).
pub fn merge(a: &[u8], b: &[u8]) -> (res: Result<Vec<u8>, Error>)
    ensures
        !snap_ok(a@) ==> res is Err && res->Err_0.kind == Kind::Malformed,
        snap_ok(a@) && !snap_ok(b@) ==> res is Err && res->Err_0.kind == Kind::Malformed,
        snap_ok(a@) && snap_ok(b@) ==> res is Ok && res->Ok_0@ == spec_encode(
            merge_all(Seq::empty(), spec_decode(a@) + spec_decode(b@)),
        ),
{
    let ra = decode(a)?;
    let rb = decode(b)?;
    let ghost all = ra@ + rb@;
    let mut acc: Vec<FlowRecord> = Vec::new();
    let mut i: usize = 0;
    while i < ra.len()
        invariant
            i <= ra@.len(),
            all == ra@ + rb@,
            acc@ == merge_all(Seq::empty(), all.take(i as int)),
        decreases ra@.len() - i,
    {
        let r = ra[i];
        proof {
            assert(all.take(i + 1).drop_last() =~= all.take(i as int));
            assert(all.take(i + 1).last() == r);
        }
        merge_into(&mut acc, r);
        i = i + 1;
    }
    let mut j: usize = 0;
    while j < rb.len()
        invariant
            j <= rb@.len(),
            all == ra@ + rb@,
            acc@ == merge_all(Seq::empty(), all.take(ra@.len() + j)),
        decreases rb@.len() - j,
    {
        let r = rb[j];
        proof {
            assert(all.take(ra@.len() + j + 1).drop_last() =~= all.take(ra@.len() + j));
            assert(all.take(ra@.len() + j + 1).last() == r);
        }
        merge_into(&mut acc, r);
        j = j + 1;
    }
    assert(all.take((ra@.len() + rb@.len()) as int) =~= all);
    Ok(encode(acc.as_slice()))
}

} // verus!
