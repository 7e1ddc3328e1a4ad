//! An in-memory index over the flows contained in a snapshot.
//!
//! Decoding a large snapshot just to answer "does flow X exist" or "what are
//! the ten heaviest flows" is wasteful. The index decodes once and offers cheap
//! lookups and top-k over the result.

use vstd::prelude::*;

use crate::error::{Error, Kind};
use crate::flow::record::wadd;
use crate::flow::FlowRecord;
use crate::snapshot::format::{decode, snap_ok, spec_decode};

verus! {

/// Where `x` goes in a list sorted by descending octets so that it lands
/// after every entry with at least as many octets.
pub open spec fn ins_pos(s: Seq<FlowRecord>, x: FlowRecord) -> int
    decreases s.len(),
{
    if s.len() == 0 {
        0
    } else if s[0].octets < x.octets {
        0
    } else {
        1 + ins_pos(s.drop_first(), x)
    }
}

/// `rs` sorted by descending octets, ties in input order.
pub open spec fn sort_desc(rs: Seq<FlowRecord>) -> Seq<FlowRecord>
    decreases rs.len(),
{
    if rs.len() == 0 {
        Seq::empty()
    } else {
        let s = sort_desc(rs.drop_last());
        s.insert(ins_pos(s, rs.last()), rs.last())
    }
}

/// Sum of octets, wrapping.
pub open spec fn octet_sum(rs: Seq<FlowRecord>) -> u64
    decreases rs.len(),
{
    if rs.len() == 0 {
        0
    } else {
        wadd(octet_sum(rs.drop_last()), rs.last().octets)
    }
}

/// The first record with this flow id.
pub open spec fn first_with_flow(rs: Seq<FlowRecord>, flow_id: u32) -> Option<int>
    decreases rs.len(),
{
    if rs.len() == 0 {
        None
    } else if rs[0].key.flow_id == flow_id {
        Some(0)
    } else {
        match first_with_flow(rs.drop_first(), flow_id) {
            Some(i) => Some(i + 1),
            None => None,
        }
    }
}

proof fn lemma_ins_pos_bound(s: Seq<FlowRecord>, x: FlowRecord)
    ensures
        0 <= ins_pos(s, x) <= s.len(),
    decreases s.len(),
{
    if s.len() > 0 && s[0].octets >= x.octets {
        lemma_ins_pos_bound(s.drop_first(), x);
    }
}

proof fn lemma_sort_len(rs: Seq<FlowRecord>)
    ensures
        sort_desc(rs).len() == rs.len(),
    decreases rs.len(),
{
    if rs.len() > 0 {
        lemma_sort_len(rs.drop_last());
        lemma_ins_pos_bound(sort_desc(rs.drop_last()), rs.last());
    }
}

pub struct SnapshotIndex {
    records: Vec<FlowRecord>,
}

impl SnapshotIndex {
    /// The decoded records, in snapshot order.
    pub closed spec fn spec_records(&self) -> Seq<FlowRecord> {
        self.records@
    }

    /// Decode a snapshot and index it.
    pub fn build(snapshot: &[u8]) -> (res: Result<SnapshotIndex, Error>)
        ensures
            match res {
                Ok(idx) => snap_ok(snapshot@) && idx.spec_records() == spec_decode(snapshot@),
                Err(e) => !snap_ok(snapshot@) && e.kind == Kind::Malformed,
            },
    {
        match decode(snapshot) {
            Ok(records) => Ok(SnapshotIndex { records }),
            Err(e) => Err(e),
        }
    }

    pub fn len(&self) -> (n: usize)
        ensures
            n == self.spec_records().len(),
    {
        self.records.len()
    }

    pub fn is_empty(&self) -> (b: bool)
        ensures
            b == (self.spec_records().len() == 0),
    {
        self.records.len() == 0
    }

    pub fn records(&self) -> (s: &[FlowRecord])
        ensures
            s@ == self.spec_records(),
    {
        self.records.as_slice()
    }

    /// The first flow with this logical flow id.
    pub fn find_flow(&self, flow_id: u32) -> (r: Option<&FlowRecord>)
        ensures
            match first_with_flow(self.spec_records(), flow_id) {
                Some(i) => r == Some(&self.spec_records()[i]),
                None => r is None,
            },
    {
        let ghost rs = self.records@;
        let mut i: usize = 0;
        assert(rs.skip(0) =~= rs);
        while i < self.records.len()
            invariant
                i <= rs.len(),
                rs == self.records@,
                first_with_flow(rs, flow_id) == match first_with_flow(rs.skip(i as int), flow_id) {
                    Some(j) => Some(j + i),
                    None => None::<int>,
                },
            decreases rs.len() - i,
        {
            assert(rs.skip(i as int)[0] == rs[i as int]);
            assert(rs.skip(i as int).drop_first() =~= rs.skip(i + 1));
            if self.records[i].key.flow_id == flow_id {
                return Some(&self.records[i]);
            }
            i = i + 1;
        }
        None
    }

    /// Total octets across all flows (wrapping).
    pub fn total_octets(&self) -> (t: u64)
        ensures
            t == octet_sum(self.spec_records()),
    {
        let ghost rs = self.records@;
        let mut t: u64 = 0;
        let mut i: usize = 0;
        while i < self.records.len()
            invariant
                i <= rs.len(),
                rs == self.records@,
                t == octet_sum(rs.take(i as int)),
            decreases rs.len() - i,
        {
            assert(rs.take(i + 1).drop_last() =~= rs.take(i as int));
            t = t.wrapping_add(self.records[i].octets);
            i = i + 1;
        }
        assert(rs.take(rs.len() as int) =~= rs);
        t
    }

    /// The `k` heaviest flows by octet count, descending; flows with equal
    /// counts keep their snapshot order.
    pub fn heaviest(&self, k: usize) -> (v: Vec<&FlowRecord>)
        ensures
            v@.map_values(|r: &FlowRecord| *r) == sort_desc(self.spec_records()).take(
                if k < self.spec_records().len() { k as int } else { self.spec_records().len() as int },
            ),
    {
        let ghost rs = self.records@;
        let mut sorted: Vec<&FlowRecord> = Vec::new();
        let mut i: usize = 0;
        while i < self.records.len()
            invariant
                i <= rs.len(),
                rs == self.records@,
                sorted@.map_values(|r: &FlowRecord| *r) == sort_desc(rs.take(i as int)),
            decreases rs.len() - i,
        {
            let x = &self.records[i];
            let ghost s = sorted@.map_values(|r: &FlowRecord| *r);
            let mut pos: usize = 0;
            proof {
                lemma_sort_len(rs.take(i as int));
                assert(s.skip(0) =~= s);
            }
            while pos < sorted.len() && sorted[pos].octets >= x.octets
                invariant
                    pos <= sorted@.len(),
                    s == sorted@.map_values(|r: &FlowRecord| *r),
                    ins_pos(s, *x) == pos + ins_pos(s.skip(pos as int), *x),
                decreases sorted@.len() - pos,
            {
                assert(s.skip(pos as int)[0] == s[pos as int]);
                assert(s.skip(pos as int).drop_first() =~= s.skip(pos + 1));
                pos = pos + 1;
            }
            proof {
                if pos < sorted@.len() {
                    assert(s.skip(pos as int)[0] == s[pos as int]);
                }
                assert(ins_pos(s, *x) == pos);
            }
            sorted.insert(pos, x);
            proof {
                assert(rs.take(i + 1).drop_last() =~= rs.take(i as int));
                assert(rs.take(i + 1).last() == *x);
                assert(sorted@.map_values(|r: &FlowRecord| *r) =~= s.insert(pos as int, *x));
            }
            i = i + 1;
        }
        assert(rs.take(rs.len() as int) =~= rs);
        proof {
            lemma_sort_len(rs);
        }
        let ghost full = sorted@.map_values(|r: &FlowRecord| *r);
        if k < sorted.len() {
            sorted.truncate(k);
        }
        assert(sorted@.map_values(|r: &FlowRecord| *r) =~= full.take(
            if k < rs.len() { k as int } else { rs.len() as int },
        ));
        sorted
    }

    /// Flows whose last activity was at or before `cutoff_ms`, in snapshot
    /// order.
    pub fn idle_before(&self, cutoff_ms: u64) -> (v: Vec<&FlowRecord>)
        ensures
            v@.map_values(|r: &FlowRecord| *r) == self.spec_records().filter(|r: FlowRecord| r.last_ms <= cutoff_ms),
    {
        let ghost rs = self.records@;
        let mut out: Vec<&FlowRecord> = Vec::new();
        let mut i: usize = 0;
        while i < self.records.len()
            invariant
                i <= rs.len(),
                rs == self.records@,
                out@.map_values(|r: &FlowRecord| *r) == rs.take(i as int).filter(|r: FlowRecord| r.last_ms <= cutoff_ms),
            decreases rs.len() - i,
        {
            proof {
                reveal_with_fuel(Seq::<_>::filter, 1);
                assert(rs.take(i + 1).drop_last() =~= rs.take(i as int));
            }
            let ghost before = out@.map_values(|r: &FlowRecord| *r);
            if self.records[i].last_ms <= cutoff_ms {
                out.push(&self.records[i]);
                assert(out@.map_values(|r: &FlowRecord| *r) =~= before.push(rs[i as int]));
            } else {
                assert(out@.map_values(|r: &FlowRecord| *r) =~= before);
            }
            i = i + 1;
        }
        assert(rs.take(rs.len() as int) =~= rs);
        out
    }
}

} // verus!
