//! A small query layer over collected flow records.
//!
//! A [`Query`] pairs a compiled [`Filter`] with an ordering, a row limit and
//! roll-up aggregates. Running it over a slice of [`FlowRecord`]s yields an
//! ordered [`ResultSet`].

pub mod agg;

pub use agg::{Aggregate, AggregateKind};

use vstd::prelude::*;

use crate::error::{Error, Kind};
use crate::filter::{spec_compile, spec_matches, Filter};
use crate::flow::FlowRecord;
use crate::text::chars_of;

verus! {

#[derive(Debug, Clone, Copy, PartialEq, Eq, Structural)]
pub enum SortKey {
    Octets,
    Packets,
    Records,
    Duration,
    FlowId,
}

/// The sort key of a record (`Duration` is last minus first seen, stopping at
/// zero).
pub open spec fn key_of(k: SortKey, r: FlowRecord) -> u64 {
    match k {
        SortKey::Octets => r.octets,
        SortKey::Packets => r.packets,
        SortKey::Records => r.records,
        SortKey::Duration => if r.last_ms >= r.first_ms { (r.last_ms - r.first_ms) as u64 } else { 0 },
        SortKey::FlowId => r.key.flow_id as u64,
    }
}

/// The key a name selects.
pub open spec fn spec_sort_key(s: Seq<char>) -> Option<SortKey> {
    if s == "octets"@ {
        Some(SortKey::Octets)
    } else if s == "packets"@ {
        Some(SortKey::Packets)
    } else if s == "records"@ {
        Some(SortKey::Records)
    } else if s == "duration"@ {
        Some(SortKey::Duration)
    } else if s == "flow"@ || s == "flow_id"@ {
        Some(SortKey::FlowId)
    } else {
        None
    }
}

fn same_chars(a: &[char], lit: &str) -> (b: bool)
    ensures
        b == (a@ == lit@),
{
    let l = chars_of(lit);
    if a.len() != l.len() {
        return false;
    }
    let mut i: usize = 0;
    while i < a.len()
        invariant
            i <= a@.len(),
            a@.len() == l@.len(),
            l@ == lit@,
            forall|j: int| 0 <= j < i ==> a@[j] == l@[j],
        decreases a@.len() - i,
    {
        if a[i] != l[i] {
            return false;
        }
        i = i + 1;
    }
    assert(a@ =~= l@);
    true
}

impl SortKey {
    pub fn parse(s: &str) -> (k: Option<SortKey>)
        ensures
            k == spec_sort_key(s@),
    {
        let cs = chars_of(s);
        let c = cs.as_slice();
        if same_chars(c, "octets") {
            Some(SortKey::Octets)
        } else if same_chars(c, "packets") {
            Some(SortKey::Packets)
        } else if same_chars(c, "records") {
            Some(SortKey::Records)
        } else if same_chars(c, "duration") {
            Some(SortKey::Duration)
        } else if same_chars(c, "flow") || same_chars(c, "flow_id") {
            Some(SortKey::FlowId)
        } else {
            None
        }
    }

    fn extract(self, r: &FlowRecord) -> (v: u64)
        ensures
            v == key_of(self, *r),
    {
        match self {
            SortKey::Octets => r.octets,
            SortKey::Packets => r.packets,
            SortKey::Records => r.records,
            SortKey::Duration => if r.last_ms >= r.first_ms { r.last_ms - r.first_ms } else { 0 },
            SortKey::FlowId => r.key.flow_id as u64,
        }
    }
}

/// Where `x` goes in a list sorted ascending by `k`: after every entry whose
/// key is at most `x`'s.
pub open spec fn ins_pos(s: Seq<FlowRecord>, x: FlowRecord, k: SortKey) -> int
    decreases s.len(),
{
    if s.len() == 0 {
        0
    } else if key_of(k, s[0]) > key_of(k, x) {
        0
    } else {
        1 + ins_pos(s.drop_first(), x, k)
    }
}

/// `rs` sorted ascending by `k`, equal keys in input order.
pub open spec fn sort_by_key(rs: Seq<FlowRecord>, k: SortKey) -> Seq<FlowRecord>
    decreases rs.len(),
{
    if rs.len() == 0 {
        Seq::empty()
    } else {
        let s = sort_by_key(rs.drop_last(), k);
        s.insert(ins_pos(s, rs.last(), k), rs.last())
    }
}

proof fn lemma_ins_pos_bound(s: Seq<FlowRecord>, x: FlowRecord, k: SortKey)
    ensures
        0 <= ins_pos(s, x, k) <= s.len(),
    decreases s.len(),
{
    if s.len() > 0 && key_of(k, s[0]) <= key_of(k, x) {
        lemma_ins_pos_bound(s.drop_first(), x, k);
    }
}

proof fn lemma_sort_len(rs: Seq<FlowRecord>, k: SortKey)
    ensures
        sort_by_key(rs, k).len() == rs.len(),
    decreases rs.len(),
{
    if rs.len() > 0 {
        lemma_sort_len(rs.drop_last(), k);
        lemma_ins_pos_bound(sort_by_key(rs.drop_last(), k), rs.last(), k);
    }
}

/// Every entry before `ins_pos` has a key at most `x`'s; in a list sorted by
/// `k`, every entry from there on has a greater one.
proof fn lemma_ins_pos_splits(s: Seq<FlowRecord>, x: FlowRecord, k: SortKey)
    requires
        forall|i: int, j: int| 0 <= i <= j < s.len() ==> key_of(k, s[i]) <= key_of(k, s[j]),
    ensures
        forall|i: int| 0 <= i < ins_pos(s, x, k) ==> key_of(k, #[trigger] s[i]) <= key_of(k, x),
        forall|i: int| ins_pos(s, x, k) <= i < s.len() ==> key_of(k, #[trigger] s[i]) > key_of(k, x),
    decreases s.len(),
{
    lemma_ins_pos_bound(s, x, k);
    if s.len() > 0 && key_of(k, s[0]) <= key_of(k, x) {
        let t = s.drop_first();
        lemma_ins_pos_splits(t, x, k);
        assert forall|i: int| 0 <= i < ins_pos(s, x, k) implies key_of(k, #[trigger] s[i]) <= key_of(k, x) by {
            if i > 0 {
                assert(s[i] == t[i - 1]);
            }
        }
        assert forall|i: int| ins_pos(s, x, k) <= i < s.len() implies key_of(k, #[trigger] s[i]) > key_of(k, x) by {
            assert(s[i] == t[i - 1]);
        }
    } else if s.len() > 0 {
        assert forall|i: int| ins_pos(s, x, k) <= i < s.len() implies key_of(k, #[trigger] s[i]) > key_of(k, x) by {
            assert(key_of(k, s[0]) <= key_of(k, s[i]));
        }
    }
}

/// `sort_by_key` orders the records ascending by `k` and keeps exactly the
/// records it was given, each as often as it occurred.
pub proof fn lemma_sort_by_key_sorted(rs: Seq<FlowRecord>, k: SortKey)
    ensures
        sort_by_key(rs, k).len() == rs.len(),
        forall|i: int, j: int|
            0 <= i <= j < rs.len() ==> key_of(k, #[trigger] sort_by_key(rs, k)[i]) <= key_of(
                k,
                #[trigger] sort_by_key(rs, k)[j],
            ),
        sort_by_key(rs, k).to_multiset() == rs.to_multiset(),
    decreases rs.len(),
{
    lemma_sort_len(rs, k);
    if rs.len() == 0 {
        assert(sort_by_key(rs, k) =~= rs);
    } else {
        let prev = rs.drop_last();
        let x = rs.last();
        lemma_sort_by_key_sorted(prev, k);
        let s = sort_by_key(prev, k);
        let p = ins_pos(s, x, k);
        lemma_ins_pos_bound(s, x, k);
        lemma_ins_pos_splits(s, x, k);
        let r = s.insert(p, x);
        assert(r == sort_by_key(rs, k));
        assert forall|i: int, j: int| 0 <= i <= j < r.len() implies key_of(k, #[trigger] r[i]) <= key_of(
            k,
            #[trigger] r[j],
        ) by {
            if i < p {
                assert(r[i] == s[i]);
            } else if i > p {
                assert(r[i] == s[i - 1]);
            }
            if j < p {
                assert(r[j] == s[j]);
            } else if j > p {
                assert(r[j] == s[j - 1]);
            }
        }
        vstd::seq_lib::to_multiset_insert(s, p, x);
        assert(rs =~= prev.push(x));
        vstd::seq_lib::to_multiset_build(prev, x);
    }
}

pub struct Query {
    filter: Option<Filter>,
    sort: SortKey,
    descending: bool,
    limit: usize,
    aggregates: Vec<AggregateKind>,
}

/// Whether a query's filter keeps a record.
pub open spec fn keeps(f: Option<Filter>, r: FlowRecord) -> bool {
    match f {
        Some(flt) => spec_matches(flt, r),
        None => true,
    }
}

impl Query {
    pub closed spec fn spec_filter(&self) -> Option<Filter> {
        self.filter
    }

    pub closed spec fn spec_sort(&self) -> (SortKey, bool) {
        (self.sort, self.descending)
    }

    pub closed spec fn spec_limit(&self) -> usize {
        self.limit
    }

    pub closed spec fn spec_aggregates(&self) -> Seq<AggregateKind> {
        self.aggregates@
    }

    /// Everything, heaviest first by octets, no limit, no aggregates.
    pub fn new() -> (q: Query)
        ensures
            q.spec_filter() is None,
            q.spec_sort() == (SortKey::Octets, true),
            q.spec_limit() == usize::MAX,
            q.spec_aggregates() == Seq::<AggregateKind>::empty(),
    {
        Query { filter: None, sort: SortKey::Octets, descending: true, limit: usize::MAX, aggregates: Vec::new() }
    }

    /// Keep only records matching `expr` (see [`Filter::compile`]).
    pub fn where_clause(self, expr: &str) -> (res: Result<Query, Error>)
        ensures
            match spec_compile(expr@) {
                Some(f) => res is Ok && res->Ok_0.spec_filter() == Some(f) && res->Ok_0.spec_sort() == self.spec_sort()
                    && res->Ok_0.spec_limit() == self.spec_limit() && res->Ok_0.spec_aggregates()
                    == self.spec_aggregates(),
                None => res is Err && res->Err_0.kind == Kind::Malformed,
            },
    {
        let f = Filter::compile(expr)?;
        let mut q = self;
        q.filter = Some(f);
        Ok(q)
    }

    pub fn order_by(self, key: SortKey, descending: bool) -> (q: Query)
        ensures
            q.spec_sort() == (key, descending),
            q.spec_filter() == self.spec_filter(),
            q.spec_limit() == self.spec_limit(),
            q.spec_aggregates() == self.spec_aggregates(),
    {
        let mut q = self;
        q.sort = key;
        q.descending = descending;
        q
    }

    pub fn limit(self, n: usize) -> (q: Query)
        ensures
            q.spec_limit() == n,
            q.spec_filter() == self.spec_filter(),
            q.spec_sort() == self.spec_sort(),
            q.spec_aggregates() == self.spec_aggregates(),
    {
        let mut q = self;
        q.limit = n;
        q
    }

    pub fn aggregate(self, kind: AggregateKind) -> (q: Query)
        ensures
            q.spec_aggregates() == self.spec_aggregates().push(kind),
            q.spec_filter() == self.spec_filter(),
            q.spec_sort() == self.spec_sort(),
            q.spec_limit() == self.spec_limit(),
    {
        let mut q = self;
        q.aggregates.push(kind);
        q
    }

    /// Execute against `flows`: keep the records the filter passes, sort them
    /// ascending by the key (stable), reverse for descending order, keep the
    /// first `limit`; each aggregate sees every kept record in input order.
    pub fn run(&self, flows: &[FlowRecord]) -> (rs: ResultSet)
        ensures
            ({
                let matched = flows@.filter(|r: FlowRecord| keeps(self.spec_filter(), r));
                let sorted = sort_by_key(matched, self.spec_sort().0);
                let ordered = if self.spec_sort().1 { sorted.reverse() } else { sorted };
                &&& rs.rows@ == ordered.take(
                    if self.spec_limit() < matched.len() { self.spec_limit() as int } else { matched.len() as int },
                )
                &&& rs.scanned == flows@.len()
                &&& rs.total_matched == matched.len()
                &&& rs.aggregates@.len() == self.spec_aggregates().len()
                &&& forall|i: int| 0 <= i < rs.aggregates@.len() ==> {
                    &&& (#[trigger] rs.aggregates@[i]).wf()
                    &&& rs.aggregates@[i].spec_kind() == self.spec_aggregates()[i]
                    &&& rs.aggregates@[i].spec_observed() == matched
                }
            }),
    {
        let ghost fs = flows@;
        let ghost keep = |r: FlowRecord| keeps(self.filter, r);
        let mut aggs: Vec<Aggregate> = Vec::new();
        let mut a: usize = 0;
        while a < self.aggregates.len()
            invariant
                a <= self.aggregates@.len(),
                aggs@.len() == a,
                forall|i: int| 0 <= i < a ==> {
                    &&& (#[trigger] aggs@[i]).wf()
                    &&& aggs@[i].spec_kind() == self.aggregates@[i]
                    &&& aggs@[i].spec_observed() == Seq::<FlowRecord>::empty()
                },
            decreases self.aggregates@.len() - a,
        {
            aggs.push(Aggregate::new(self.aggregates[a]));
            a = a + 1;
        }
        let mut matched: Vec<FlowRecord> = Vec::new();
        let mut sorted: Vec<FlowRecord> = Vec::new();
        let mut i: usize = 0;
        while i < flows.len()
            invariant
                i <= fs.len(),
                fs == flows@,
                keep == (|r: FlowRecord| keeps(self.filter, r)),
                matched@ == fs.take(i as int).filter(keep),
                sorted@ == sort_by_key(matched@, self.sort),
                aggs@.len() == self.aggregates@.len(),
                forall|j: int| 0 <= j < aggs@.len() ==> {
                    &&& (#[trigger] aggs@[j]).wf()
                    &&& aggs@[j].spec_kind() == self.aggregates@[j]
                    &&& aggs@[j].spec_observed() == matched@
                },
            decreases fs.len() - i,
        {
            let r = flows[i];
            let keep_it = match &self.filter {
                Some(f) => f.matches(&r),
                None => true,
            };
            proof {
                reveal_with_fuel(Seq::<_>::filter, 1);
                assert(fs.take(i + 1).drop_last() =~= fs.take(i as int));
                assert(fs.take(i + 1).last() == r);
                assert(keep(r) == keep_it);
                assert(fs.take(i + 1).filter(keep) == if keep(r) {
                    fs.take(i as int).filter(keep).push(r)
                } else {
                    fs.take(i as int).filter(keep)
                });
            }
            if keep_it {
                let mut j: usize = 0;
                while j < aggs.len()
                    invariant
                        j <= aggs@.len(),
                        aggs@.len() == self.aggregates@.len(),
                        forall|q: int| 0 <= q < j ==> {
                            &&& (#[trigger] aggs@[q]).wf()
                            &&& aggs@[q].spec_kind() == self.aggregates@[q]
                            &&& aggs@[q].spec_observed() == matched@.push(r)
                        },
                        forall|q: int| j <= q < aggs@.len() ==> {
                            &&& (#[trigger] aggs@[q]).wf()
                            &&& aggs@[q].spec_kind() == self.aggregates@[q]
                            &&& aggs@[q].spec_observed() == matched@
                        },
                    decreases aggs@.len() - j,
                {
                    let mut ag = aggs.remove(j);
                    ag.observe(&r);
                    aggs.insert(j, ag);
                    j = j + 1;
                }
                let ghost s = sorted@;
                let mut pos: usize = 0;
                proof {
                    assert(s.skip(0) =~= s);
                }
                let kx = self.sort.extract(&r);
                while pos < sorted.len() && self.sort.extract(&sorted[pos]) <= kx
                    invariant
                        pos <= sorted@.len(),
                        s == sorted@,
                        kx == key_of(self.sort, r),
                        ins_pos(s, r, self.sort) == pos + ins_pos(s.skip(pos as int), r, self.sort),
                    decreases sorted@.len() - pos,
                {
                    assert(s.skip(pos as int)[0] == s[pos as int]);
                    assert(s.skip(pos as int).drop_first() =~= s.skip(pos + 1));
                    pos = pos + 1;
                }
                proof {
                    if pos < sorted@.len() {
                        assert(s.skip(pos as int)[0] == s[pos as int]);
                    }
                }
                sorted.insert(pos, r);
                let ghost m0 = matched@;
                matched.push(r);
                proof {
                    assert(matched@.drop_last() =~= m0);
                    assert(matched@.last() == r);
                }
            }
            i = i + 1;
        }
        assert(fs.take(fs.len() as int) =~= fs);
        proof {
            lemma_sort_len(matched@, self.sort);
        }
        let total_matched = matched.len();
        let mut rows: Vec<FlowRecord> = Vec::new();
        let n = sorted.len();
        let take = if self.limit < n { self.limit } else { n };
        let ghost ordered = if self.descending { sorted@.reverse() } else { sorted@ };
        let mut k: usize = 0;
        while k < take
            invariant
                k <= take <= n == sorted@.len(),
                ordered == (if self.descending { sorted@.reverse() } else { sorted@ }),
                rows@ == ordered.take(k as int),
            decreases take - k,
        {
            let r = if self.descending { sorted[n - 1 - k] } else { sorted[k] };
            rows.push(r);
            k = k + 1;
            assert(rows@ =~= ordered.take(k as int));
        }
        ResultSet { rows, aggregates: aggs, scanned: flows.len(), total_matched }
    }
}

impl Default for Query {
    fn default() -> (q: Query)
        ensures
            q.spec_filter() is None,
            q.spec_sort() == (SortKey::Octets, true),
            q.spec_limit() == usize::MAX,
            q.spec_aggregates() == Seq::<AggregateKind>::empty(),
    {
        Query::new()
    }
}

pub struct ResultSet {
    pub rows: Vec<FlowRecord>,
    pub aggregates: Vec<Aggregate>,
    pub scanned: usize,
    pub total_matched: usize,
}

impl ResultSet {
    pub fn len(&self) -> (n: usize)
        ensures
            n == self.rows@.len(),
    {
        self.rows.len()
    }

    pub fn is_empty(&self) -> (b: bool)
        ensures
            b == (self.rows@.len() == 0),
    {
        self.rows.len() == 0
    }

    /// The first aggregate of this kind.
    pub fn aggregate(&self, kind: AggregateKind) -> (r: Option<&Aggregate>)
        ensures
            match r {
                Some(a) => exists|i: int|
                    0 <= i < self.aggregates@.len() && self.aggregates@[i] == *a && a.spec_kind() == kind && forall|j: int|
                        0 <= j < i ==> (#[trigger] self.aggregates@[j]).spec_kind() != kind,
                None => forall|j: int| 0 <= j < self.aggregates@.len() ==> (#[trigger] self.aggregates@[j]).spec_kind() != kind,
            },
    {
        let mut i: usize = 0;
        while i < self.aggregates.len()
            invariant
                i <= self.aggregates@.len(),
                forall|j: int| 0 <= j < i ==> (#[trigger] self.aggregates@[j]).spec_kind() != kind,
            decreases self.aggregates@.len() - i,
        {
            if self.aggregates[i].kind() == kind {
                assert(self.aggregates@[i as int] == self.aggregates[i as int]);
                return Some(&self.aggregates[i]);
            }
            i = i + 1;
        }
        None
    }
}

} // verus!
