//! Coverage tracking for reassembly.
//!
//! While fragments arrive, the tracker maintains the set of byte ranges seen so
//! far as a sorted, coalesced interval list. It answers "are bytes `[0, n)`
//! contiguous yet?" and reports the gaps that remain — used to decide when a
//! flow is complete and can be delivered.

use vstd::prelude::*;

verus! {

#[derive(Debug, Clone, Copy, PartialEq, Eq, Structural)]
pub struct Interval {
    pub start: u64,
    /// Exclusive.
    pub end: u64,
}

impl Interval {
    /// Number of bytes covered (0 for an inverted interval).
    pub fn len(&self) -> (n: u64)
        ensures
            n == (if self.end > self.start { self.end - self.start } else { 0 }),
    {
        self.end.saturating_sub(self.start)
    }
}

pub open spec fn in_iv(iv: Interval, p: int) -> bool {
    iv.start <= p < iv.end
}

/// Sorted, each interval non-empty, and consecutive intervals separated by at
/// least one uncovered byte (touching intervals are coalesced): the intervals
/// are exactly the maximal runs of covered bytes.
pub open spec fn coalesced(ivs: Seq<Interval>) -> bool {
    &&& forall|i: int| 0 <= i < ivs.len() ==> (#[trigger] ivs[i]).start < ivs[i].end
    &&& forall|i: int, j: int| 0 <= i < j < ivs.len() ==> (#[trigger] ivs[i]).end < (#[trigger] ivs[j]).start
}

/// Byte `p` lies in some interval.
pub open spec fn covered(ivs: Seq<Interval>, p: int) -> bool {
    exists|i: int| 0 <= i < ivs.len() && #[trigger] in_iv(ivs[i], p)
}

/// Total bytes covered.
pub open spec fn total_len(ivs: Seq<Interval>) -> int
    decreases ivs.len(),
{
    if ivs.len() == 0 {
        0
    } else {
        total_len(ivs.drop_last()) + (ivs.last().end - ivs.last().start)
    }
}

/// `[start, start + len)` with the end clamped to `u64::MAX`.
pub open spec fn offered(start: u64, len: u64) -> Interval {
    Interval { start, end: if start + len > u64::MAX { u64::MAX } else { (start + len) as u64 } }
}

/// The gaps below `limit` left by `ivs`, scanning from `cursor`.
pub open spec fn gaps_from(ivs: Seq<Interval>, cursor: int, limit: int) -> Seq<(u64, u64)>
    decreases ivs.len(),
{
    if ivs.len() == 0 {
        if cursor < limit { seq![(cursor as u64, (limit - cursor) as u64)] } else { Seq::empty() }
    } else {
        let iv = ivs[0];
        let end = if iv.start < limit { iv.start as int } else { limit };
        let g = if iv.start > cursor && end > cursor {
            seq![(cursor as u64, (end - cursor) as u64)]
        } else {
            Seq::<(u64, u64)>::empty()
        };
        let c2 = if cursor >= iv.end { cursor } else { iv.end as int };
        if c2 >= limit {
            g
        } else {
            g + gaps_from(ivs.drop_first(), c2, limit)
        }
    }
}

/// Byte `p` lies in one of the reported gaps.
pub open spec fn in_gap(gs: Seq<(u64, u64)>, p: int) -> bool {
    exists|i: int| 0 <= i < gs.len() && #[trigger] gs[i].0 <= p < gs[i].0 + gs[i].1
}

proof fn lemma_coalesced_sub(ivs: Seq<Interval>, a: int, b: int)
    requires
        coalesced(ivs),
        0 <= a <= b <= ivs.len(),
    ensures
        coalesced(ivs.subrange(a, b)),
{
    let s = ivs.subrange(a, b);
    assert forall|i: int| 0 <= i < s.len() implies (#[trigger] s[i]).start <= s[i].end by {
        assert(s[i] == ivs[i + a]);
    }
    assert forall|i: int, j: int| 0 <= i < j < s.len() implies (#[trigger] s[i]).end < (#[trigger] s[j]).start by {
        assert(s[i] == ivs[i + a] && s[j] == ivs[j + a]);
    }
}

proof fn lemma_total_bound(ivs: Seq<Interval>)
    requires
        coalesced(ivs),
    ensures
        total_len(ivs) >= 0,
        ivs.len() > 0 ==> total_len(ivs) <= ivs.last().end,
    decreases ivs.len(),
{
    if ivs.len() > 0 {
        lemma_coalesced_sub(ivs, 0, ivs.len() - 1);
        assert(ivs.drop_last() =~= ivs.subrange(0, ivs.len() - 1));
        lemma_total_bound(ivs.drop_last());
        if ivs.len() > 1 {
            assert(ivs.drop_last().last() == ivs[ivs.len() - 2]);
        }
    }
}

/// The gap report is exact: below `limit` and from `cursor` on, a byte is in
/// a reported gap exactly when no interval covers it, and every gap lies in
/// `[cursor, limit)`.
proof fn lemma_gaps_exact(ivs: Seq<Interval>, cursor: int, limit: int)
    requires
        coalesced(ivs),
        0 <= cursor,
        limit <= u64::MAX,
        ivs.len() > 0 ==> cursor <= ivs[0].end,
    ensures
        forall|p: int| cursor <= p < limit ==> (#[trigger] in_gap(gaps_from(ivs, cursor, limit), p) <==> !covered(ivs, p)),
        forall|p: int| #[trigger] in_gap(gaps_from(ivs, cursor, limit), p) ==> cursor <= p < limit,
    decreases ivs.len(),
{
    let gs = gaps_from(ivs, cursor, limit);
    if ivs.len() == 0 {
        assert forall|p: int| cursor <= p < limit implies (#[trigger] in_gap(gs, p) <==> !covered(ivs, p)) by {
            assert(gs[0].0 <= p < gs[0].0 + gs[0].1);
        }
    } else {
        let iv = ivs[0];
        let end = if iv.start < limit { iv.start as int } else { limit };
        let g = if iv.start > cursor && end > cursor {
            seq![(cursor as u64, (end - cursor) as u64)]
        } else {
            Seq::<(u64, u64)>::empty()
        };
        let c2 = if cursor >= iv.end { cursor } else { iv.end as int };
        let rest = ivs.drop_first();
        lemma_coalesced_sub(ivs, 1, ivs.len() as int);
        assert(rest =~= ivs.subrange(1, ivs.len() as int));
        if rest.len() > 0 {
            assert(rest[0] == ivs[1]);
        }
        lemma_gaps_exact(rest, c2, limit);
        let gr = gaps_from(rest, c2, limit);
        assert forall|p: int| #[trigger] in_gap(gs, p) implies cursor <= p < limit by {
            {
                let i = choose|i: int| 0 <= i < gs.len() && #[trigger] gs[i].0 <= p < gs[i].0 + gs[i].1;
                if i < g.len() {
                    assert(gs[i] == g[i]);
                } else {
                    assert(gs[i] == gr[i - g.len()]);
                    assert(in_gap(gr, p));
                }
            }
        }
        assert forall|p: int| cursor <= p < limit implies (#[trigger] in_gap(gs, p) <==> !covered(ivs, p)) by {
            if p < iv.start {
                assert(g.len() == 1);
                assert(gs[0] == g[0]);
                assert(gs[0].0 <= p < gs[0].0 + gs[0].1);
                if covered(ivs, p) {
                    let i = choose|i: int| 0 <= i < ivs.len() && #[trigger] in_iv(ivs[i], p);
                    if i > 0 {
                        assert(ivs[0].end < ivs[i].start);
                    }
                }
            } else if p < iv.end {
                assert(in_iv(ivs[0], p));
                if in_gap(gs, p) {
                    let i = choose|i: int| 0 <= i < gs.len() && #[trigger] gs[i].0 <= p < gs[i].0 + gs[i].1;
                    if i < g.len() {
                        assert(gs[i] == g[i]);
                    } else {
                        assert(gs[i] == gr[i - g.len()]);
                        assert(in_gap(gr, p));
                    }
                }
            } else {
                assert(p >= c2);
                assert(c2 < limit);
                assert(covered(ivs, p) <==> covered(rest, p)) by {
                    if covered(ivs, p) {
                        let i = choose|i: int| 0 <= i < ivs.len() && #[trigger] in_iv(ivs[i], p);
                        assert(i > 0);
                        assert(rest[i - 1] == ivs[i]);
                    }
                    if covered(rest, p) {
                        let i = choose|i: int| 0 <= i < rest.len() && #[trigger] in_iv(rest[i], p);
                        assert(rest[i] == ivs[i + 1]);
                    }
                }
                assert(in_gap(gs, p) <==> in_gap(gr, p)) by {
                    assert(gs == g + gr);
                    if in_gap(gs, p) {
                        let i = choose|i: int| 0 <= i < gs.len() && #[trigger] gs[i].0 <= p < gs[i].0 + gs[i].1;
                        if i < g.len() {
                            assert(gs[i] == g[i]);
                        } else {
                            assert(gs[i] == gr[i - g.len()]);
                        }
                    }
                    if in_gap(gr, p) {
                        let i = choose|i: int| 0 <= i < gr.len() && #[trigger] gr[i].0 <= p < gr[i].0 + gr[i].1;
                        assert(gs[i + g.len()] == gr[i]);
                    }
                }
            }
        }
    }
}

/// Coalesced intervals are the maximal runs of the bytes they cover: every
/// byte of an interval is covered, and the byte before its start and the byte
/// at its end are not.
pub proof fn lemma_intervals_are_runs(ivs: Seq<Interval>)
    requires
        coalesced(ivs),
    ensures
        forall|i: int, p: int| 0 <= i < ivs.len() && #[trigger] in_iv(ivs[i], p) ==> covered(ivs, p),
        forall|i: int| 0 <= i < ivs.len() ==> !covered(ivs, #[trigger] ivs[i].start - 1),
        forall|i: int| 0 <= i < ivs.len() ==> !covered(ivs, #[trigger] ivs[i].end as int),
{
    assert forall|i: int, p: int| 0 <= i < ivs.len() && #[trigger] in_iv(ivs[i], p) implies covered(ivs, p) by {}
    assert forall|i: int| 0 <= i < ivs.len() implies !covered(ivs, #[trigger] ivs[i].start - 1) by {
        if covered(ivs, ivs[i].start - 1) {
            let j = choose|j: int| 0 <= j < ivs.len() && #[trigger] in_iv(ivs[j], ivs[i].start - 1);
            if j < i {
                assert(ivs[j].end < ivs[i].start);
            } else if j > i {
                assert(ivs[i].end < ivs[j].start);
            }
        }
    }
    assert forall|i: int| 0 <= i < ivs.len() implies !covered(ivs, #[trigger] ivs[i].end as int) by {
        if covered(ivs, ivs[i].end as int) {
            let j = choose|j: int| 0 <= j < ivs.len() && #[trigger] in_iv(ivs[j], ivs[i].end as int);
            if j < i {
                assert(ivs[j].end < ivs[i].start);
            } else if j > i {
                assert(ivs[i].end < ivs[j].start);
            }
        }
    }
}

proof fn lemma_coalesced_tail(a: Seq<Interval>, p: int)
    requires
        coalesced(a),
        a.len() > 0,
    ensures
        coalesced(a.drop_first()),
        covered(a.drop_first(), p) == (covered(a, p) && p > a[0].end),
{
    let t = a.drop_first();
    assert forall|i: int| 0 <= i < t.len() implies (#[trigger] t[i]).start < t[i].end by {
        assert(t[i] == a[i + 1]);
    }
    assert forall|i: int, j: int| 0 <= i < j < t.len() implies (#[trigger] t[i]).end < (#[trigger] t[j]).start by {
        assert(t[i] == a[i + 1] && t[j] == a[j + 1]);
    }
    if covered(t, p) {
        let i = choose|i: int| 0 <= i < t.len() && #[trigger] in_iv(t[i], p);
        assert(in_iv(a[i + 1], p));
        assert(a[0].end < a[i + 1].start);
    }
    if covered(a, p) && p > a[0].end {
        let i = choose|i: int| 0 <= i < a.len() && #[trigger] in_iv(a[i], p);
        assert(i != 0);
        assert(in_iv(t[i - 1], p));
    }
}

/// A set of bytes has one coalesced interval list: two coalesced lists that
/// cover the same bytes are equal.
pub proof fn lemma_coalesced_unique(a: Seq<Interval>, b: Seq<Interval>)
    requires
        coalesced(a),
        coalesced(b),
        forall|p: int| #[trigger] covered(a, p) == covered(b, p),
    ensures
        a == b,
    decreases a.len(),
{
    if a.len() == 0 {
        if b.len() > 0 {
            assert(in_iv(b[0], b[0].start as int));
            assert(covered(b, b[0].start as int));
            assert(!covered(a, b[0].start as int));
            assert(false);
        }
        assert(a =~= b);
    } else {
        if b.len() == 0 {
            assert(in_iv(a[0], a[0].start as int));
            assert(covered(a, a[0].start as int));
            assert(false);
        }
        let (a0, b0) = (a[0], b[0]);
        // The first starts agree: each list's first start is its least covered byte.
        assert(in_iv(a0, a0.start as int) && covered(a, a0.start as int));
        assert(in_iv(b0, b0.start as int) && covered(b, b0.start as int));
        assert(covered(a, b0.start as int));
        assert(covered(b, a0.start as int));
        let ja = choose|j: int| 0 <= j < b.len() && #[trigger] in_iv(b[j], a0.start as int);
        if ja > 0 {
            assert(b0.end < b[ja].start);
        }
        let jb = choose|j: int| 0 <= j < a.len() && #[trigger] in_iv(a[j], b0.start as int);
        if jb > 0 {
            assert(a0.end < a[jb].start);
        }
        assert(a0.start == b0.start);
        lemma_intervals_are_runs(a);
        lemma_intervals_are_runs(b);
        if a0.end < b0.end {
            assert(in_iv(b0, a0.end as int));
            assert(covered(b, a0.end as int));
            assert(!covered(a, a[0].end as int));
            assert(covered(a, a0.end as int));
            assert(false);
        }
        if b0.end < a0.end {
            assert(in_iv(a0, b0.end as int));
            assert(covered(a, b0.end as int));
            assert(!covered(b, b[0].end as int));
            assert(covered(b, b0.end as int));
            assert(false);
        }
        assert(a0 == b0);
        assert forall|p: int| #[trigger] covered(a.drop_first(), p) == covered(b.drop_first(), p) by {
            lemma_coalesced_tail(a, p);
            lemma_coalesced_tail(b, p);
        }
        lemma_coalesced_tail(a, 0);
        lemma_coalesced_tail(b, 0);
        lemma_coalesced_unique(a.drop_first(), b.drop_first());
        assert(a =~= seq![a0] + a.drop_first());
        assert(b =~= seq![b0] + b.drop_first());
    }
}

/// The bytes a list of intervals covers.
pub open spec fn covered_set(ivs: Seq<Interval>) -> Set<int> {
    Set::new(|p: int| covered(ivs, p))
}

/// Over coalesced intervals the total length is the number of distinct
/// bytes covered.
pub proof fn lemma_total_counts_bytes(ivs: Seq<Interval>)
    requires
        coalesced(ivs),
    ensures
        covered_set(ivs).finite(),
        covered_set(ivs).len() == total_len(ivs),
    decreases ivs.len(),
{
    if ivs.len() == 0 {
        assert(covered_set(ivs) =~= Set::<int>::empty());
    } else {
        let d = ivs.drop_last();
        let l = ivs.last();
        let n = ivs.len() - 1;
        assert forall|i: int| 0 <= i < d.len() implies (#[trigger] d[i]).start < d[i].end by {
            assert(d[i] == ivs[i]);
        }
        assert forall|i: int, j: int| 0 <= i < j < d.len() implies (#[trigger] d[i]).end < (#[trigger] d[j]).start by {
            assert(d[i] == ivs[i] && d[j] == ivs[j]);
        }
        lemma_total_counts_bytes(d);
        let r = vstd::set_lib::set_int_range(l.start as int, l.end as int);
        vstd::set_lib::lemma_int_range(l.start as int, l.end as int);
        assert forall|p: int| covered_set(ivs).contains(p) <==> (covered_set(d) + r).contains(p) by {
            if covered(ivs, p) {
                let i = choose|i: int| 0 <= i < ivs.len() && #[trigger] in_iv(ivs[i], p);
                if i < n {
                    assert(in_iv(d[i], p));
                }
            }
            if covered(d, p) {
                let i = choose|i: int| 0 <= i < d.len() && #[trigger] in_iv(d[i], p);
                assert(in_iv(ivs[i], p));
            }
            if r.contains(p) {
                assert(in_iv(ivs[n], p));
            }
        }
        assert(covered_set(ivs) =~= covered_set(d) + r);
        assert forall|p: int| covered_set(d).contains(p) implies !r.contains(p) by {
            let i = choose|i: int| 0 <= i < d.len() && #[trigger] in_iv(d[i], p);
            assert(ivs[i].end < ivs[n].start);
        }
        vstd::set_lib::lemma_set_disjoint_lens(covered_set(d), r);
    }
}

#[derive(Debug)]
pub struct CoverageTracker {
    intervals: Vec<Interval>,
    total_covered: u64,
}

impl CoverageTracker {
    pub closed spec fn wf(&self) -> bool {
        &&& coalesced(self.intervals@)
        &&& self.total_covered == total_len(self.intervals@)
    }

    /// The coalesced intervals, in order.
    pub closed spec fn spec_intervals(&self) -> Seq<Interval> {
        self.intervals@
    }

    /// A well-formed tracker's intervals are sorted and coalesced, and hold
    /// `total_covered` bytes between them.
    pub proof fn lemma_wf_coalesced(&self)
        requires
            self.wf(),
        ensures
            coalesced(self.spec_intervals()),
    {
    }

    pub fn new() -> (t: CoverageTracker)
        ensures
            t.wf(),
            coalesced(t.spec_intervals()),
            t.spec_intervals() == Seq::<Interval>::empty(),
    {
        CoverageTracker { intervals: Vec::new(), total_covered: 0 }
    }

    pub fn interval_count(&self) -> (n: usize)
        ensures
            n == self.spec_intervals().len(),
    {
        self.intervals.len()
    }

    /// Add the range `[start, start+len)` (the end clamped to `u64::MAX`). The
    /// list stays sorted and coalesced and covers exactly what it covered
    /// before plus the new range; an empty range changes nothing.
    pub fn add(&mut self, start: u64, len: u64)
        requires
            old(self).wf(),
        ensures
            final(self).wf(),
            coalesced(final(self).spec_intervals()),
            len == 0 ==> final(self).spec_intervals() == old(self).spec_intervals(),
            len > 0 ==> forall|p: int| #[trigger] covered(final(self).spec_intervals(), p) == (covered(
                old(self).spec_intervals(),
                p,
            ) || in_iv(offered(start, len), p)),
    {
        let end = start.saturating_add(len);
        if end == start {
            assert(forall|p: int| !in_iv(offered(start, len), p));
            return;
        }
        let r = Interval { start, end };
        let ghost rs = self.intervals@;
        let n = self.intervals.len();
        let mut out: Vec<Interval> = Vec::new();
        let mut i: usize = 0;
        while i < n && self.intervals[i].end < r.start
            invariant
                i <= n == rs.len(),
                self.intervals@ == rs,
                coalesced(rs),
                out@ == rs.take(i as int),
                forall|j: int| 0 <= j < i ==> (#[trigger] rs[j]).end < r.start,
            decreases n - i,
        {
            out.push(self.intervals[i]);
            i = i + 1;
            assert(out@ =~= rs.take(i as int));
        }
        let i1 = i;
        let mut cur = r;
        while i < n && self.intervals[i].start <= cur.end
            invariant
                i1 <= i <= n == rs.len(),
                self.intervals@ == rs,
                coalesced(rs),
                out@ == rs.take(i1 as int),
                forall|j: int| 0 <= j < i1 ==> (#[trigger] rs[j]).end < r.start,
                i1 < n ==> rs[i1 as int].end >= r.start,
                cur.start < cur.end,
                cur.start <= r.start,
                cur.end >= r.end,
                r.start < r.end,
                i > i1 ==> cur.start == (if rs[i1 as int].start < r.start { rs[i1 as int].start } else { r.start }),
                i == i1 ==> cur == r,
                i > i1 ==> cur.end >= rs[i - 1].end,
                forall|p: int| in_iv(cur, p) == (in_iv(r, p) || exists|j: int| i1 <= j < i && #[trigger] in_iv(rs[j], p)),
            decreases n - i,
        {
            let e = self.intervals[i];
            let nlo = if e.start < cur.start { e.start } else { cur.start };
            let nhi = if e.end > cur.end { e.end } else { cur.end };
            let ghost old_cur = cur;
            cur = Interval { start: nlo, end: nhi };
            proof {
                assert(e.end >= r.start) by {
                    if i > i1 {
                        assert(rs[i1 as int].end < rs[i as int].start || i1 == i);
                    }
                }
                assert forall|p: int| in_iv(cur, p) == (in_iv(r, p) || exists|j: int| i1 <= j < i + 1 && #[trigger] in_iv(rs[j], p)) by {
                    if in_iv(cur, p) && !in_iv(old_cur, p) && !in_iv(e, p) {
                        assert(false);
                    }
                    if exists|j: int| i1 <= j < i + 1 && #[trigger] in_iv(rs[j], p) {
                        let j = choose|j: int| i1 <= j < i + 1 && #[trigger] in_iv(rs[j], p);
                        if j < i {
                            assert(in_iv(old_cur, p));
                        }
                    }
                }
                if i > i1 {
                    assert(rs[i - 1].end < rs[i as int].start);
                }
            }
            i = i + 1;
        }
        let ghost i2 = i;
        out.push(cur);
        while i < n
            invariant
                i2 <= i <= n == rs.len(),
                self.intervals@ == rs,
                coalesced(rs),
                out@ == rs.take(i1 as int).push(cur) + rs.subrange(i2 as int, i as int),
            decreases n - i,
        {
            out.push(self.intervals[i]);
            i = i + 1;
            assert(out@ =~= rs.take(i1 as int).push(cur) + rs.subrange(i2 as int, i as int));
        }
        proof {
            let o = out@;
            let a = rs.take(i1 as int);
            let c = rs.subrange(i2 as int, n as int);
            assert(o == a.push(cur) + c);
            assert(i2 < n ==> rs[i2 as int].start > cur.end);
            assert forall|x: int| 0 <= x < o.len() implies (#[trigger] o[x]).start < o[x].end by {
                if x < i1 {
                    assert(o[x] == rs[x]);
                } else if x > i1 {
                    assert(o[x] == rs[x - i1 - 1 + i2]);
                }
            }
            assert forall|x: int, y: int| 0 <= x < y < o.len() implies (#[trigger] o[x]).end < (#[trigger] o[y]).start by {
                let ox = if x < i1 { x } else if x == i1 { -1 } else { x - i1 - 1 + i2 };
                let oy = if y < i1 { y } else if y == i1 { -1 } else { y - i1 - 1 + i2 };
                if x < i1 && y < i1 {
                    assert(o[x] == rs[ox] && o[y] == rs[oy]);
                } else if x < i1 && y == i1 {
                    assert(o[x] == rs[x]);
                    if i2 > i1 {
                        assert(rs[x].end < rs[i1 as int].start);
                    }
                } else if x < i1 {
                    assert(o[x] == rs[ox] && o[y] == rs[oy]);
                } else if x == i1 {
                    assert(o[y] == rs[oy]);
                    assert(rs[oy].start >= rs[i2 as int].start);
                } else {
                    assert(o[x] == rs[ox] && o[y] == rs[oy]);
                }
            }
            assert forall|p: int| #[trigger] covered(o, p) == (covered(rs, p) || in_iv(r, p)) by {
                if covered(rs, p) {
                    let j = choose|j: int| 0 <= j < rs.len() && #[trigger] in_iv(rs[j], p);
                    if j < i1 {
                        assert(o[j] == rs[j]);
                    } else if j < i2 {
                        assert(in_iv(cur, p));
                        assert(o[i1 as int] == cur);
                    } else {
                        assert(o[j - i2 + i1 + 1] == rs[j]);
                    }
                }
                if in_iv(r, p) {
                    assert(o[i1 as int] == cur);
                    assert(in_iv(o[i1 as int], p));
                }
                if covered(o, p) {
                    let x = choose|x: int| 0 <= x < o.len() && #[trigger] in_iv(o[x], p);
                    if x < i1 {
                        assert(o[x] == rs[x]);
                        assert(in_iv(rs[x], p));
                    } else if x == i1 {
                        assert(in_iv(cur, p));
                    } else {
                        assert(o[x] == rs[x - i1 - 1 + i2]);
                        assert(in_iv(rs[x - i1 - 1 + i2], p));
                    }
                }
            }
        }
        self.intervals = out;
        self.recompute();
    }

    /// Bytes covered by interval `i`.
    pub fn gap_bytes(&self, i: usize) -> (n: u64)
        requires
            self.wf(),
            i < self.spec_intervals().len(),
        ensures
            n == self.spec_intervals()[i as int].end - self.spec_intervals()[i as int].start,
    {
        let iv = self.intervals[i];
        iv.end - iv.start
    }

    /// Sum the coverage across every interval, used to decide completeness.
    pub fn scan_coverage(&self) -> (n: u64)
        requires
            self.wf(),
        ensures
            n == total_len(self.spec_intervals()),
    {
        let mut acc: u64 = 0;
        let mut i: usize = 0;
        let ghost ivs = self.intervals@;
        while i < self.intervals.len()
            invariant
                i <= ivs.len(),
                ivs == self.intervals@,
                self.wf(),
                acc == total_len(ivs.take(i as int)),
            decreases ivs.len() - i,
        {
            proof {
                let t = ivs.take(i + 1);
                assert(t.drop_last() =~= ivs.take(i as int));
                lemma_coalesced_sub(ivs, 0, i + 1);
                assert(t =~= ivs.subrange(0, i + 1));
                lemma_total_bound(t);
            }
            acc = acc + self.gap_bytes(i);
            i = i + 1;
        }
        assert(ivs.take(ivs.len() as int) =~= ivs);
        acc
    }

    fn recompute(&mut self)
        requires
            coalesced(old(self).intervals@),
        ensures
            final(self).wf(),
            final(self).intervals@ == old(self).intervals@,
    {
        let mut acc: u64 = 0;
        let mut i: usize = 0;
        let ghost ivs = self.intervals@;
        while i < self.intervals.len()
            invariant
                i <= ivs.len(),
                ivs == self.intervals@,
                coalesced(ivs),
                acc == total_len(ivs.take(i as int)),
            decreases ivs.len() - i,
        {
            proof {
                let t = ivs.take(i + 1);
                assert(t.drop_last() =~= ivs.take(i as int));
                lemma_coalesced_sub(ivs, 0, i + 1);
                assert(t =~= ivs.subrange(0, i + 1));
                lemma_total_bound(t);
            }
            let iv = self.intervals[i];
            acc = acc + (iv.end - iv.start);
            i = i + 1;
        }
        assert(ivs.take(ivs.len() as int) =~= ivs);
        self.total_covered = acc;
    }

    pub fn total_covered(&self) -> (n: u64)
        requires
            self.wf(),
        ensures
            n == total_len(self.spec_intervals()),
    {
        self.total_covered
    }

    /// Length of the contiguous run starting at offset 0.
    pub fn contiguous_prefix(&self) -> (n: u64)
        ensures
            n == (if self.spec_intervals().len() > 0 && self.spec_intervals()[0].start == 0 {
                self.spec_intervals()[0].end
            } else {
                0
            }),
    {
        if self.intervals.len() > 0 && self.intervals[0].start == 0 {
            self.intervals[0].end
        } else {
            0
        }
    }

    /// Whether bytes `[0, expected_len)` have all arrived.
    pub fn is_complete(&self, expected_len: u64) -> (b: bool)
        requires
            self.wf(),
        ensures
            b == (self.spec_intervals().len() > 0 && self.spec_intervals()[0].start == 0
                && self.spec_intervals()[0].end >= expected_len) || expected_len == 0,
            b == forall|p: int| 0 <= p < expected_len ==> #[trigger] covered(self.spec_intervals(), p),
    {
        let ghost ivs = self.intervals@;
        proof {
            if ivs.len() > 0 && ivs[0].start == 0 && ivs[0].end < expected_len {
                let p = ivs[0].end as int;
                if covered(ivs, p) {
                    let i = choose|i: int| 0 <= i < ivs.len() && #[trigger] in_iv(ivs[i], p);
                    if i > 0 {
                        assert(ivs[0].end < ivs[i].start);
                    }
                }
            }
            if !(ivs.len() > 0 && ivs[0].start == 0) && expected_len > 0 {
                if covered(ivs, 0) {
                    let i = choose|i: int| 0 <= i < ivs.len() && #[trigger] in_iv(ivs[i], 0);
                    if i > 0 {
                        assert(ivs[0].end < ivs[i].start);
                    }
                }
            }
            if ivs.len() > 0 && ivs[0].start == 0 && ivs[0].end >= expected_len {
                assert forall|p: int| 0 <= p < expected_len implies #[trigger] covered(ivs, p) by {
                    assert(in_iv(ivs[0], p));
                }
            }
        }
        self.contiguous_prefix() >= expected_len
    }

    /// The gaps below `limit`, as `(start, len)` pairs in order.
    pub fn gaps(&self, limit: u64) -> (gs: Vec<(u64, u64)>)
        requires
            self.wf(),
        ensures
            gs@ == gaps_from(self.spec_intervals(), 0, limit as int),
    {
        let mut gaps: Vec<(u64, u64)> = Vec::new();
        let mut cursor: u64 = 0;
        let ghost ivs = self.intervals@;
        let mut i: usize = 0;
        assert(ivs.skip(0) =~= ivs);
        while i < self.intervals.len()
            invariant
                i <= ivs.len(),
                ivs == self.intervals@,
                gaps_from(ivs, 0, limit as int) == gaps@ + gaps_from(ivs.skip(i as int), cursor as int, limit as int),
            decreases ivs.len() - i,
        {
            let iv = self.intervals[i];
            let ghost rest = ivs.skip(i as int);
            let ghost c0 = cursor as int;
            proof {
                assert(rest[0] == iv);
                assert(rest.drop_first() =~= ivs.skip(i + 1));
            }
            let ghost g_before = gaps@;
            if iv.start > cursor {
                let end = if iv.start < limit { iv.start } else { limit };
                if end > cursor {
                    gaps.push((cursor, end - cursor));
                }
            }
            if iv.end > cursor {
                cursor = iv.end;
            }
            let ghost gg = gaps@.subrange(g_before.len() as int, gaps@.len() as int);
            proof {
                assert(gaps@ =~= g_before + gg);
                let end = if iv.start < limit { iv.start as int } else { limit as int };
                let g = if iv.start > c0 && end > c0 {
                    seq![(c0 as u64, (end - c0) as u64)]
                } else {
                    Seq::<(u64, u64)>::empty()
                };
                assert(gg =~= g);
            }
            if cursor >= limit {
                proof {
                    assert(gaps_from(rest, c0, limit as int) == gg);
                    assert(gaps_from(ivs, 0, limit as int) =~= gaps@);
                }
                return gaps;
            }
            proof {
                assert(gaps_from(rest, c0, limit as int) == gg + gaps_from(ivs.skip(i + 1), cursor as int, limit as int));
                assert(gaps_from(ivs, 0, limit as int) =~= gaps@ + gaps_from(ivs.skip(i + 1), cursor as int, limit as int));
            }
            i = i + 1;
        }
        if cursor < limit {
            gaps.push((cursor, limit - cursor));
        }
        proof {
            assert(ivs.skip(ivs.len() as int) =~= Seq::<Interval>::empty());
        }
        gaps
    }
}

/// The gap report is exact: a byte below `limit` is in a reported gap exactly
/// when no interval covers it.
pub proof fn lemma_gaps_are_uncovered(t: CoverageTracker, limit: u64)
    requires
        t.wf(),
    ensures
        forall|p: int| 0 <= p < limit ==> (#[trigger] in_gap(gaps_from(t.spec_intervals(), 0, limit as int), p) <==> !covered(
            t.spec_intervals(),
            p,
        )),
{
    lemma_gaps_exact(t.spec_intervals(), 0, limit as int);
}

} // verus!
