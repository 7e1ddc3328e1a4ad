//! Aggregate accumulators used by the query layer.

use vstd::prelude::*;

use crate::flow::record::wadd;
use crate::flow::FlowRecord;

verus! {

#[derive(Debug, Clone, Copy, PartialEq, Eq, Structural)]
pub enum AggregateKind {
    Count,
    SumOctets,
    SumPackets,
    MaxOctets,
    MinOctets,
    DistinctSources,
}

/// A running aggregate over the matched flow set.
#[derive(Clone)]
pub struct Aggregate {
    kind: AggregateKind,
    acc: u64,
    count: u64,
    /// Distinct source addresses seen, in first-seen order.
    seen: Vec<u32>,
    seeded: bool,
    observed: Ghost<Seq<FlowRecord>>,
}

/// The value of an aggregate of `kind` over the records `rs`.
pub open spec fn spec_agg(kind: AggregateKind, rs: Seq<FlowRecord>) -> u64
    decreases rs.len(),
{
    if rs.len() == 0 {
        0
    } else {
        let prev = spec_agg(kind, rs.drop_last());
        let r = rs.last();
        match kind {
            AggregateKind::Count => if rs.len() > u64::MAX { u64::MAX } else { rs.len() as u64 },
            AggregateKind::SumOctets => wadd(prev, r.octets),
            AggregateKind::SumPackets => wadd(prev, r.packets),
            AggregateKind::MaxOctets => if rs.len() == 1 || r.octets > prev { r.octets } else { prev },
            AggregateKind::MinOctets => if rs.len() == 1 || r.octets < prev { r.octets } else { prev },
            AggregateKind::DistinctSources => distinct_sources(rs).len() as u64,
        }
    }
}

/// The distinct source addresses of `rs`, in first-seen order.
pub open spec fn distinct_sources(rs: Seq<FlowRecord>) -> Seq<u32>
    decreases rs.len(),
{
    if rs.len() == 0 {
        Seq::empty()
    } else {
        let d = distinct_sources(rs.drop_last());
        if d.contains(rs.last().key.src) { d } else { d.push(rs.last().key.src) }
    }
}

pub open spec fn spec_label(kind: AggregateKind) -> &'static str {
    match kind {
        AggregateKind::Count => "count",
        AggregateKind::SumOctets => "sum_octets",
        AggregateKind::SumPackets => "sum_packets",
        AggregateKind::MaxOctets => "max_octets",
        AggregateKind::MinOctets => "min_octets",
        AggregateKind::DistinctSources => "distinct_sources",
    }
}

proof fn lemma_distinct_len(rs: Seq<FlowRecord>)
    ensures
        distinct_sources(rs).len() <= rs.len(),
    decreases rs.len(),
{
    if rs.len() > 0 {
        lemma_distinct_len(rs.drop_last());
    }
}

/// Over a non-empty list, the maximum aggregate is the largest octet count
/// of any record and the minimum the smallest; the count aggregate is the
/// number of records (saturating); the distinct-sources aggregate counts
/// each source address that occurs once.
pub proof fn lemma_agg_values(rs: Seq<FlowRecord>)
    ensures
        spec_agg(AggregateKind::Count, rs) == (if rs.len() > u64::MAX { u64::MAX as int } else { rs.len() as int }),
        rs.len() > 0 ==> (exists|i: int| 0 <= i < rs.len() && spec_agg(AggregateKind::MaxOctets, rs) == rs[i].octets),
        forall|i: int| 0 <= i < rs.len() ==> #[trigger] rs[i].octets <= spec_agg(AggregateKind::MaxOctets, rs),
        rs.len() > 0 ==> (exists|i: int| 0 <= i < rs.len() && spec_agg(AggregateKind::MinOctets, rs) == rs[i].octets),
        forall|i: int| 0 <= i < rs.len() ==> #[trigger] rs[i].octets >= spec_agg(AggregateKind::MinOctets, rs),
        distinct_sources(rs).no_duplicates(),
        forall|a: u32| distinct_sources(rs).contains(a) <==> (exists|i: int| 0 <= i < rs.len() && #[trigger] rs[i].key.src == a),
        rs.len() > 0 ==> spec_agg(AggregateKind::DistinctSources, rs) == distinct_sources(rs).len() as u64,
    decreases rs.len(),
{
    if rs.len() > 0 {
        let prev = rs.drop_last();
        lemma_agg_values(prev);
        let n = rs.len() - 1;
        assert forall|i: int| 0 <= i < n implies rs[i] == prev[i] by {}
        let mx = spec_agg(AggregateKind::MaxOctets, rs);
        let mn = spec_agg(AggregateKind::MinOctets, rs);
        if rs.len() == 1 {
            assert(mx == rs[0].octets);
            assert(mn == rs[0].octets);
        } else {
            let pm = spec_agg(AggregateKind::MaxOctets, prev);
            let pn = spec_agg(AggregateKind::MinOctets, prev);
            if rs[n].octets > pm {
                assert(mx == rs[n].octets);
            } else {
                let w = choose|i: int| 0 <= i < prev.len() && pm == prev[i].octets;
                assert(mx == rs[w].octets);
            }
            if rs[n].octets < pn {
                assert(mn == rs[n].octets);
            } else {
                let w = choose|i: int| 0 <= i < prev.len() && pn == prev[i].octets;
                assert(mn == rs[w].octets);
            }
            assert forall|i: int| 0 <= i < rs.len() implies #[trigger] rs[i].octets <= mx && rs[i].octets >= mn by {
                if i < n {
                    assert(prev[i].octets <= pm);
                    assert(prev[i].octets >= pn);
                }
            }
        }
        let d = distinct_sources(prev);
        let a = rs.last().key.src;
        assert forall|b: u32| distinct_sources(rs).contains(b) <==> (exists|i: int| 0 <= i < rs.len() && #[trigger] rs[i].key.src == b) by {
            if distinct_sources(rs).contains(b) {
                if d.contains(b) {
                    let i = choose|i: int| 0 <= i < prev.len() && #[trigger] prev[i].key.src == b;
                    assert(rs[i].key.src == b);
                } else {
                    assert(b == a);
                    assert(rs[n].key.src == b);
                }
            }
            if exists|i: int| 0 <= i < rs.len() && #[trigger] rs[i].key.src == b {
                let i = choose|i: int| 0 <= i < rs.len() && #[trigger] rs[i].key.src == b;
                if i < n {
                    assert(prev[i].key.src == b);
                    assert(d.contains(b));
                } else {
                    assert(b == a);
                }
                if !d.contains(a) {
                    assert(d.push(a)[d.len() as int] == a);
                    if b != a {
                        assert(d.contains(b));
                        let k = choose|k: int| 0 <= k < d.len() && d[k] == b;
                        assert(d.push(a)[k] == b);
                    }
                }
            }
        }
        if !d.contains(a) {
            assert forall|i: int, j: int| 0 <= i < j < d.push(a).len() implies d.push(a)[i] != d.push(a)[j] by {
                if j == d.len() {
                    assert(d[i] != a);
                }
            }
        }
    }
}

impl Aggregate {
    /// The records observed so far, in order.
    pub closed spec fn spec_observed(&self) -> Seq<FlowRecord> {
        self.observed@
    }

    pub closed spec fn spec_kind(&self) -> AggregateKind {
        self.kind
    }

    pub closed spec fn wf(&self) -> bool {
        &&& self.acc == spec_agg(self.kind, self.observed@)
        &&& self.count == (if self.observed@.len() > u64::MAX { u64::MAX as int } else { self.observed@.len() as int })
        &&& self.seen@ == distinct_sources(self.observed@)
        &&& self.seeded == (self.observed@.len() > 0)
    }

    pub fn new(kind: AggregateKind) -> (a: Aggregate)
        ensures
            a.wf(),
            a.spec_kind() == kind,
            a.spec_observed() == Seq::<FlowRecord>::empty(),
    {
        Aggregate { kind, acc: 0, count: 0, seen: Vec::new(), seeded: false, observed: Ghost(Seq::empty()) }
    }

    pub fn kind(&self) -> (k: AggregateKind)
        ensures
            k == self.spec_kind(),
    {
        self.kind
    }

    /// Fold one more record in.
    pub fn observe(&mut self, r: &FlowRecord)
        requires
            old(self).wf(),
        ensures
            final(self).wf(),
            final(self).spec_kind() == old(self).spec_kind(),
            final(self).spec_observed() == old(self).spec_observed().push(*r),
    {
        let ghost obs = self.observed@.push(*r);
        proof {
            assert(obs.drop_last() =~= self.observed@);
            lemma_distinct_len(obs);
        }
        self.count = self.count.saturating_add(1);
        match self.kind {
            AggregateKind::Count => {
                self.acc = self.count;
            },
            AggregateKind::SumOctets => {
                self.acc = self.acc.wrapping_add(r.octets);
            },
            AggregateKind::SumPackets => {
                self.acc = self.acc.wrapping_add(r.packets);
            },
            AggregateKind::MaxOctets => {
                if !self.seeded || r.octets > self.acc {
                    self.acc = r.octets;
                }
            },
            AggregateKind::MinOctets => {
                if !self.seeded || r.octets < self.acc {
                    self.acc = r.octets;
                }
            },
            AggregateKind::DistinctSources => {},
        }
        let mut found = false;
        let mut i: usize = 0;
        while i < self.seen.len()
            invariant
                i <= self.seen@.len(),
                found == exists|j: int| 0 <= j < i && self.seen@[j] == r.key.src,
            decreases self.seen@.len() - i,
        {
            if self.seen[i] == r.key.src {
                found = true;
            }
            i = i + 1;
        }
        if !found {
            self.seen.push(r.key.src);
        }
        proof {
            if found {
                let j = choose|j: int| 0 <= j < i && self.seen@[j] == r.key.src;
                assert(old(self).seen@.contains(r.key.src));
            } else {
                assert(!old(self).seen@.contains(r.key.src));
            }
        }
        if self.kind == AggregateKind::DistinctSources {
            self.acc = self.seen.len() as u64;
        }
        self.seeded = true;
        self.observed = Ghost(obs);
    }

    pub fn value(&self) -> (v: u64)
        requires
            self.wf(),
        ensures
            v == spec_agg(self.spec_kind(), self.spec_observed()),
    {
        self.acc
    }

    pub fn label(&self) -> (s: &'static str)
        ensures
            s == spec_label(self.spec_kind()),
    {
        match self.kind {
            AggregateKind::Count => "count",
            AggregateKind::SumOctets => "sum_octets",
            AggregateKind::SumPackets => "sum_packets",
            AggregateKind::MaxOctets => "max_octets",
            AggregateKind::MinOctets => "min_octets",
            AggregateKind::DistinctSources => "distinct_sources",
        }
    }
}

} // verus!
