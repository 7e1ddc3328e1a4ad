//! Fragment reassembly.
//!
//! A flow may deliver its payload in fragments that arrive out of order, each
//! tagged with a byte offset into the logical stream. The reassembler collects
//! fragments and, on demand, flattens them into a contiguous buffer. Offsets
//! are signed on the wire so a `FRAGMENT_REORDER` can express a relative shift
//! in either direction; the engine normalises them against a base before use.

use vstd::prelude::*;

use crate::error::{Error, Kind};
use crate::util::copy_bytes;

verus! {

#[derive(Debug, Clone)]
struct Fragment {
    offset: i32,
    data: Vec<u8>,
}

/// A fragment as the contracts see it: its offset and its bytes.
pub type FragView = (i32, Seq<u8>);

/// Offset of a fragment relative to the base.
pub open spec fn rel_of(f: FragView, base: i32) -> int {
    f.0 - base
}

/// Whether a fragment covers byte `k` of the flattened buffer.
pub open spec fn covers_at(f: FragView, base: i32, k: int) -> bool {
    rel_of(f, base) <= k < rel_of(f, base) + f.1.len()
}

/// Fragment `a` comes after fragment `b` in (offset, arrival) order: a higher
/// offset, or the same offset and a later arrival.
pub open spec fn later(frs: Seq<FragView>, a: int, b: int) -> bool {
    frs[a].0 > frs[b].0 || (frs[a].0 == frs[b].0 && a > b)
}

/// Fragment `j` supplies byte `k`: it covers `k`, and it comes after every
/// other fragment that covers `k`.
pub open spec fn wins_at(frs: Seq<FragView>, base: i32, k: int, j: int) -> bool {
    &&& 0 <= j < frs.len()
    &&& covers_at(frs[j], base, k)
    &&& forall|i: int|
        0 <= i < frs.len() && i != j && #[trigger] covers_at(frs[i], base, k) ==> later(frs, j, i)
}

/// Byte `k` of the flattened buffer: taken from the winning fragment, or 0
/// where no fragment covers it.
pub open spec fn byte_at(frs: Seq<FragView>, base: i32, k: int) -> u8 {
    if exists|j: int| wins_at(frs, base, k, j) {
        let j = choose|j: int| wins_at(frs, base, k, j);
        frs[j].1[k - rel_of(frs[j], base)]
    } else {
        0
    }
}

/// The end of the furthest-reaching fragment (0 for none).
pub open spec fn spec_extent(frs: Seq<FragView>, base: i32) -> int
    decreases frs.len(),
{
    if frs.len() == 0 {
        0
    } else {
        let e = rel_of(frs.last(), base) + frs.last().1.len();
        let r = spec_extent(frs.drop_last(), base);
        if e > r { e } else { r }
    }
}

pub open spec fn any_before_base(frs: Seq<FragView>, base: i32) -> bool {
    exists|j: int| 0 <= j < frs.len() && #[trigger] rel_of(frs[j], base) < 0
}

pub open spec fn any_beyond(frs: Seq<FragView>, base: i32, max_total: int) -> bool {
    exists|j: int| 0 <= j < frs.len() && #[trigger] rel_of(frs[j], base) + frs[j].1.len() > max_total
}

pub open spec fn sum_lens(frs: Seq<FragView>) -> int
    decreases frs.len(),
{
    if frs.len() == 0 {
        0
    } else {
        sum_lens(frs.drop_last()) + frs.last().1.len()
    }
}

spec fn frag_view(f: Fragment) -> FragView {
    (f.offset, f.data@)
}

/// `r` is a new, empty reassembler with these limits.
pub open spec fn fresh_reassembler(r: Reassembler, max_fragments: usize, max_total: usize) -> bool {
    &&& r.wf()
    &&& r.frags() == Seq::<FragView>::empty()
    &&& r.base() == 0
    &&& r.spec_max_fragments() == max_fragments
    &&& r.spec_max_total() == (if max_total < 64 { 64 } else { max_total as nat })
    &&& r.spec_total_bytes() == 0
}

/// `after` is `before` once a fragment at `offset` was offered: recorded
/// unless the fragment count or the byte budget would be exceeded, in which
/// case a limit error leaves the fragments and their total as they were.
pub open spec fn frag_added(before: Reassembler, after: Reassembler, offset: i32, data: Seq<u8>, res: Result<(), Error>) -> bool {
    &&& after.wf()
    &&& after.base() == before.base()
    &&& after.spec_max_fragments() == before.spec_max_fragments()
    &&& after.spec_max_total() == before.spec_max_total()
    &&& if before.frags().len() >= before.spec_max_fragments() || before.spec_total_bytes() + data.len()
        > before.spec_max_total() {
        &&& res is Err && res->Err_0.kind == Kind::Limit
        &&& after.frags() == before.frags()
        &&& after.spec_total_bytes() == before.spec_total_bytes()
    } else {
        &&& res is Ok
        &&& after.frags() == before.frags().push((offset, data))
        &&& after.spec_total_bytes() == before.spec_total_bytes() + data.len()
    }
}

/// `after` is `before` with its base moved to `start` when the span
/// `start..end` is ordered and within the byte budget; otherwise an error and
/// the base stays. The fragments never change.
pub open spec fn rebased(before: Reassembler, after: Reassembler, start: i32, end: i32, res: Result<(), Error>) -> bool {
    &&& after.wf()
    &&& after.frags() == before.frags()
    &&& after.spec_max_fragments() == before.spec_max_fragments()
    &&& after.spec_max_total() == before.spec_max_total()
    &&& end < start ==> res is Err && res->Err_0.kind == Kind::Malformed && after.base() == before.base()
    &&& start <= end && end - start > before.spec_max_total() ==> res is Err && res->Err_0.kind == Kind::Limit
        && after.base() == before.base()
    &&& start <= end && end - start <= before.spec_max_total() ==> res is Ok && after.base() == start
}

/// Flattening fails: some fragment starts before the base, or one reaches
/// past the byte budget.
pub open spec fn reassembly_fails(r: Reassembler) -> bool {
    any_before_base(r.frags(), r.base()) || any_beyond(r.frags(), r.base(), r.spec_max_total() as int)
}

#[derive(Debug)]
pub struct Reassembler {
    fragments: Vec<Fragment>,
    base_offset: i32,
    max_fragments: usize,
    max_total: usize,
    total_bytes: usize,
}

proof fn lemma_extent_bound(frs: Seq<FragView>, base: i32, j: int)
    requires
        0 <= j < frs.len(),
    ensures
        rel_of(frs[j], base) + frs[j].1.len() <= spec_extent(frs, base),
    decreases frs.len(),
{
    if j < frs.len() - 1 {
        lemma_extent_bound(frs.drop_last(), base, j);
        assert(frs.drop_last()[j] == frs[j]);
    }
}

proof fn lemma_extent_nonneg(frs: Seq<FragView>, base: i32)
    ensures
        spec_extent(frs, base) >= 0,
    decreases frs.len(),
{
    if frs.len() > 0 {
        lemma_extent_nonneg(frs.drop_last(), base);
    }
}

/// Among the first `m` fragments, `j` supplies byte `k`.
spec fn wins_among(frs: Seq<FragView>, base: i32, k: int, j: int, m: int) -> bool {
    &&& 0 <= j < m
    &&& covers_at(frs[j], base, k)
    &&& forall|i: int| 0 <= i < m && i != j && #[trigger] covers_at(frs[i], base, k) ==> later(frs, j, i)
}

/// Byte `k` of the buffer being built, and its owner (index + 1, 0 for
/// none), reflect the first `m` fragments.
spec fn slot_ok(frs: Seq<FragView>, base: i32, out: Seq<u8>, owner: Seq<usize>, k: int, m: int) -> bool {
    if owner[k] == 0 {
        &&& forall|i: int| 0 <= i < m ==> !#[trigger] covers_at(frs[i], base, k)
        &&& out[k] == 0
    } else {
        &&& wins_among(frs, base, k, owner[k] - 1, m)
        &&& out[k] == frs[owner[k] - 1].1[k - rel_of(frs[owner[k] - 1], base)]
    }
}

/// How many fragments byte `q` reflects while fragment `j` is being laid down
/// and its first `t` bytes are done.
spec fn stage(rel: int, t: int, j: int, q: int) -> int {
    if rel <= q < rel + t { j + 1 } else { j }
}

impl Reassembler {
    pub closed spec fn frags(&self) -> Seq<FragView> {
        self.fragments@.map_values(|f: Fragment| frag_view(f))
    }

    pub closed spec fn base(&self) -> i32 {
        self.base_offset
    }

    pub closed spec fn spec_max_fragments(&self) -> nat {
        self.max_fragments as nat
    }

    pub closed spec fn spec_max_total(&self) -> nat {
        self.max_total as nat
    }

    pub closed spec fn spec_total_bytes(&self) -> nat {
        self.total_bytes as nat
    }

    pub closed spec fn wf(&self) -> bool {
        &&& self.total_bytes == sum_lens(self.frags())
        &&& self.total_bytes <= self.max_total
        &&& self.max_total >= 64
    }

    /// An empty reassembler holding at most `max_fragments` fragments and
    /// `max_total` bytes (at least 64).
    pub fn new(max_fragments: usize, max_total: usize) -> (r: Reassembler)
        ensures
            fresh_reassembler(r, max_fragments, max_total),
            r.wf(),
            r.frags() == Seq::<FragView>::empty(),
            r.base() == 0,
            r.spec_max_fragments() == max_fragments,
            r.spec_max_total() == (if max_total < 64 { 64 } else { max_total as nat }),
            r.spec_total_bytes() == 0,
    {
        let r = Reassembler {
            fragments: Vec::new(),
            base_offset: 0,
            max_fragments,
            max_total: if max_total < 64 { 64 } else { max_total },
            total_bytes: 0,
        };
        assert(r.frags() =~= Seq::<FragView>::empty());
        r
    }

    pub fn fragment_count(&self) -> (n: usize)
        ensures
            n == self.frags().len(),
    {
        self.fragments.len()
    }

    pub fn total_bytes(&self) -> (n: usize)
        ensures
            n == self.spec_total_bytes(),
    {
        self.total_bytes
    }

    /// Record a fragment at `offset`.
    pub fn add(&mut self, offset: i32, data: &[u8]) -> (res: Result<(), Error>)
        requires
            old(self).wf(),
        ensures
            frag_added(*old(self), *final(self), offset, data@, res),
            final(self).wf(),
            final(self).base() == old(self).base(),
            final(self).spec_max_fragments() == old(self).spec_max_fragments(),
            final(self).spec_max_total() == old(self).spec_max_total(),
            res is Err ==> final(self).spec_total_bytes() == old(self).spec_total_bytes(),
            old(self).frags().len() >= old(self).spec_max_fragments() ==> res is Err && res->Err_0.kind
                == Kind::Limit && final(self).frags() == old(self).frags(),
            old(self).frags().len() < old(self).spec_max_fragments() && old(self).spec_total_bytes() + data@.len()
                > old(self).spec_max_total() ==> res is Err && res->Err_0.kind == Kind::Limit && final(self).frags()
                == old(self).frags(),
            old(self).frags().len() < old(self).spec_max_fragments() && old(self).spec_total_bytes() + data@.len()
                <= old(self).spec_max_total() ==> res is Ok && final(self).frags() == old(self).frags().push(
                (offset, data@),
            ) && final(self).spec_total_bytes() == old(self).spec_total_bytes() + data@.len(),
    {
        if self.fragments.len() >= self.max_fragments {
            return Err(Error::limit("too many fragments"));
        }
        if data.len() > self.max_total - self.total_bytes {
            return Err(Error::limit("reassembly buffer full"));
        }
        let ghost before = self.frags();
        self.total_bytes = self.total_bytes + data.len();
        let v = copy_bytes(data);
        self.fragments.push(Fragment { offset, data: v });
        proof {
            assert(self.frags() =~= before.push((offset, data@)));
            assert(self.frags().drop_last() =~= before);
        }
        Ok(())
    }

    /// Apply a relative reorder: shift the logical base so that `start_offset`
    /// becomes the new zero. `end_offset` bounds the expected extent.
    pub fn reorder(&mut self, start_offset: i32, end_offset: i32) -> (res: Result<(), Error>)
        requires
            old(self).wf(),
        ensures
            rebased(*old(self), *final(self), start_offset, end_offset, res),
            final(self).wf(),
            final(self).frags() == old(self).frags(),
            final(self).spec_max_fragments() == old(self).spec_max_fragments(),
            final(self).spec_max_total() == old(self).spec_max_total(),
            end_offset < start_offset ==> res is Err && res->Err_0.kind == Kind::Malformed && final(self).base()
                == old(self).base(),
            start_offset <= end_offset && end_offset - start_offset > old(self).spec_max_total() ==> res is Err
                && res->Err_0.kind == Kind::Limit && final(self).base() == old(self).base(),
            start_offset <= end_offset && end_offset - start_offset <= old(self).spec_max_total() ==> res is Ok
                && final(self).base() == start_offset,
    {
        let span: i64 = (end_offset as i64) - (start_offset as i64);
        if span < 0 {
            return Err(Error::malformed("reorder span negative"));
        }
        if span as u64 > self.max_total as u64 {
            return Err(Error::limit("reorder span too large"));
        }
        self.base_offset = start_offset;
        Ok(())
    }

    /// Flatten all fragments into one contiguous buffer normalised against the
    /// base. Where fragments overlap, the one later in (offset, arrival) order
    /// supplies the byte; bytes no fragment covers are 0.
    pub fn reassemble(&self) -> (res: Result<Vec<u8>, Error>)
        requires
            self.wf(),
        ensures
            any_before_base(self.frags(), self.base()) ==> res is Err && res->Err_0.kind == Kind::Malformed,
            !any_before_base(self.frags(), self.base()) && any_beyond(
                self.frags(),
                self.base(),
                self.spec_max_total() as int,
            ) ==> res is Err && res->Err_0.kind == Kind::Limit,
            !any_before_base(self.frags(), self.base()) && !any_beyond(
                self.frags(),
                self.base(),
                self.spec_max_total() as int,
            ) ==> res is Ok && res->Ok_0@.len() == spec_extent(self.frags(), self.base()) && forall|k: int|
                0 <= k < res->Ok_0@.len() ==> #[trigger] res->Ok_0@[k] == byte_at(self.frags(), self.base(), k),
    {
        let ghost frs = self.frags();
        let ghost base = self.base_offset;
        let n = self.fragments.len();
        if n == 0 {
            let out: Vec<u8> = Vec::new();
            assert(!any_before_base(frs, base));
            assert(!any_beyond(frs, base, self.max_total as int));
            return Ok(out);
        }
        let mut j: usize = 0;
        while j < n
            invariant
                j <= n == frs.len(),
                frs == self.frags(),
                base == self.base_offset,
                forall|i: int| 0 <= i < j ==> #[trigger] rel_of(frs[i], base) >= 0,
            decreases n - j,
        {
            assert(frs[j as int] == frag_view(self.fragments@[j as int]));
            if (self.fragments[j].offset as i64) - (self.base_offset as i64) < 0 {
                assert(rel_of(frs[j as int], base) < 0);
                return Err(Error::malformed("fragment before base"));
            }
            j = j + 1;
        }
        let mut max_end: usize = 0;
        j = 0;
        while j < n
            invariant
                j <= n == frs.len(),
                frs == self.frags(),
                base == self.base_offset,
                self.wf(),
                forall|i: int| 0 <= i < n ==> #[trigger] rel_of(frs[i], base) >= 0,
                forall|i: int| 0 <= i < j ==> #[trigger] rel_of(frs[i], base) + frs[i].1.len() <= self.max_total,
                max_end == spec_extent(frs.take(j as int), base),
            decreases n - j,
        {
            assert(frs[j as int] == frag_view(self.fragments@[j as int]));
            let rel = ((self.fragments[j].offset as i64) - (self.base_offset as i64)) as u64;
            assert(rel_of(frs[j as int], base) >= 0);
            let len = self.fragments[j].data.len();
            if rel > self.max_total as u64 || len > self.max_total - (rel as usize) {
                assert(rel_of(frs[j as int], base) + frs[j as int].1.len() > self.max_total);
                return Err(Error::limit("reassembled extent too large"));
            }
            let end = rel as usize + len;
            proof {
                assert(frs.take(j + 1).drop_last() =~= frs.take(j as int));
                assert(frs.take(j + 1).last() == frs[j as int]);
            }
            if end > max_end {
                max_end = end;
            }
            j = j + 1;
        }
        assert(frs.take(n as int) =~= frs);
        assert(!any_beyond(frs, base, self.max_total as int));
        let mut out: Vec<u8> = Vec::new();
        let mut owner: Vec<usize> = Vec::new();
        let mut k: usize = 0;
        while k < max_end
            invariant
                k <= max_end,
                out@ == Seq::new(k as nat, |q: int| 0u8),
                owner@ == Seq::new(k as nat, |q: int| 0usize),
            decreases max_end - k,
        {
            out.push(0);
            owner.push(0);
            k = k + 1;
            assert(out@ =~= Seq::new(k as nat, |q: int| 0u8));
            assert(owner@ =~= Seq::new(k as nat, |q: int| 0usize));
        }
        j = 0;
        while j < n
            invariant
                j <= n == frs.len(),
                frs == self.frags(),
                base == self.base_offset,
                max_end == spec_extent(frs, base),
                out@.len() == max_end,
                owner@.len() == max_end,
                forall|i: int| 0 <= i < n ==> #[trigger] rel_of(frs[i], base) >= 0,
                forall|q: int| 0 <= q < max_end ==> #[trigger] slot_ok(frs, base, out@, owner@, q, j as int),
                forall|q: int| 0 <= q < max_end ==> owner@[q] <= j,
            decreases n - j,
        {
            assert(frs[j as int] == frag_view(self.fragments@[j as int]));
            let rel = ((self.fragments[j].offset as i64) - (self.base_offset as i64)) as usize;
            proof {
                lemma_extent_bound(frs, base, j as int);
            }
            let len = self.fragments[j].data.len();
            let mut t: usize = 0;
            while t < len
                invariant
                    j < n == frs.len(),
                    frs == self.frags(),
                    base == self.base_offset,
                    rel == rel_of(frs[j as int], base),
                    len == frs[j as int].1.len(),
                    rel + len <= max_end,
                    t <= len,
                    out@.len() == max_end,
                    owner@.len() == max_end,
                    forall|q: int|
                        0 <= q < max_end ==> #[trigger] slot_ok(
                            frs,
                            base,
                            out@,
                            owner@,
                            q,
                            stage(rel as int, t as int, j as int, q),
                        ),
                    forall|q: int| 0 <= q < max_end ==> owner@[q] <= j + 1,
                    forall|q: int| 0 <= q < max_end && !(rel <= q < rel + t) ==> owner@[q] <= j,
                decreases len - t,
            {
                let q = rel + t;
                let ghost qq = q as int;
                assert(slot_ok(frs, base, out@, owner@, qq, stage(rel as int, t as int, j as int, qq)));
                assert(slot_ok(frs, base, out@, owner@, qq, j as int));
                let o = owner[q];
                let take = if o == 0 {
                    true
                } else {
                    assert(frs[o - 1] == frag_view(self.fragments@[o - 1]));
                    self.fragments[j].offset >= self.fragments[o - 1].offset
                };
                let ghost out0 = out@;
                let ghost own0 = owner@;
                if take {
                    out.set(q, self.fragments[j].data[t]);
                    owner.set(q, j + 1);
                }
                proof {
                    assert(covers_at(frs[j as int], base, qq));
                    if take {
                        assert forall|i: int| 0 <= i < j + 1 && i != j && #[trigger] covers_at(frs[i], base, qq) implies later(
                            frs,
                            j as int,
                            i,
                        ) by {
                            if o != 0 && i != o - 1 {
                                assert(later(frs, o - 1, i));
                            }
                        }
                        assert(slot_ok(frs, base, out@, owner@, qq, j + 1));
                    } else {
                        assert(later(frs, o - 1, j as int));
                        assert(slot_ok(frs, base, out@, owner@, qq, j + 1));
                    }
                    assert forall|p: int| 0 <= p < max_end implies #[trigger] slot_ok(
                        frs,
                        base,
                        out@,
                        owner@,
                        p,
                        stage(rel as int, t + 1, j as int, p),
                    ) by {
                        if p != qq {
                            assert(out@[p] == out0[p] && owner@[p] == own0[p]);
                            assert(slot_ok(frs, base, out0, own0, p, stage(rel as int, t as int, j as int, p)));
                        }
                    }
                }
                t = t + 1;
            }
            proof {
                assert forall|p: int| 0 <= p < max_end implies #[trigger] slot_ok(frs, base, out@, owner@, p, j + 1) by {
                    assert(slot_ok(frs, base, out@, owner@, p, stage(rel as int, len as int, j as int, p)));
                    if !(rel <= p < rel + len) {
                        assert(!covers_at(frs[j as int], base, p));
                        if owner@[p] == 0 {
                            assert forall|i: int| 0 <= i < j + 1 implies !#[trigger] covers_at(frs[i], base, p) by {
                                if i < j {
                                    assert(!covers_at(frs[i], base, p));
                                }
                            }
                        } else {
                            assert forall|i: int| 0 <= i < j + 1 && i != owner@[p] - 1 && #[trigger] covers_at(frs[i], base, p) implies later(
                                frs,
                                owner@[p] - 1,
                                i,
                            ) by {
                            }
                        }
                    }
                }
            }
            j = j + 1;
        }
        proof {
            assert forall|q: int| 0 <= q < out@.len() implies #[trigger] out@[q] == byte_at(frs, base, q) by {
                assert(slot_ok(frs, base, out@, owner@, q, n as int));
                if owner@[q] == 0 {
                    if exists|w: int| wins_at(frs, base, q, w) {
                        let w = choose|w: int| wins_at(frs, base, q, w);
                        assert(!covers_at(frs[w], base, q));
                    }
                } else {
                    let o = owner@[q] - 1;
                    assert(wins_at(frs, base, q, o));
                    let w = choose|w: int| wins_at(frs, base, q, w);
                    if w != o {
                        assert(later(frs, w, o));
                        assert(later(frs, o, w));
                    }
                }
            }
        }
        Ok(out)
    }

    /// Drop every fragment and reset the base.
    pub fn clear(&mut self)
        requires
            old(self).wf(),
        ensures
            final(self).wf(),
            final(self).frags() == Seq::<FragView>::empty(),
            final(self).base() == 0,
            final(self).spec_total_bytes() == 0,
            final(self).spec_max_fragments() == old(self).spec_max_fragments(),
            final(self).spec_max_total() == old(self).spec_max_total(),
    {
        self.fragments.clear();
        self.total_bytes = 0;
        self.base_offset = 0;
        assert(self.frags() =~= Seq::<FragView>::empty());
    }
}

} // verus!
