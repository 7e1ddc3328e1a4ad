//! A fixed-size sliding window over a byte stream.
//!
//! Stream payloads are placed into a circular buffer indexed by sequence
//! number modulo the window size. Readers pull contiguous ranges back out.

use vstd::prelude::*;

use crate::error::{Error, Kind};

verus! {

/// The smallest power of two that is at least `n`, searching upward from `p`.
pub open spec fn pow2_at_least(n: nat, p: nat) -> nat
    decreases n - p,
{
    if p == 0 || p >= n {
        p
    } else if p * 2 >= n {
        p * 2
    } else {
        pow2_at_least(n, p * 2)
    }
}

/// The window size chosen for a requested size: the next power of two, at
/// least 64.
pub open spec fn window_size(requested: nat) -> nat {
    let p = pow2_at_least(requested, 1);
    if p < 64 { 64 } else { p }
}

/// `after` is `before` once `data` was offered at `seq`: too large for the
/// window, a limit error and no change; otherwise written in place (see
/// [`placed`]) with the highest sequence updated.
pub open spec fn window_placed(before: Window, after: Window, seq: u64, data: Seq<u8>, res: Result<(), Error>) -> bool {
    &&& after.wf()
    &&& after.spec_size() == before.spec_size()
    &&& if data.len() > before.spec_size() {
        res is Err && res->Err_0.kind == Kind::Limit && after == before
    } else {
        &&& res is Ok
        &&& after.spec_high_seq() == (if before.spec_high_seq() >= sat_end(seq, data.len()) {
            before.spec_high_seq()
        } else {
            sat_end(seq, data.len())
        })
        &&& after.contents() == placed(before.contents(), seq as int, data)
    }
}

pub struct Window {
    buf: Vec<u8>,
    size: usize,
    /// Highest sequence number written, for lag diagnostics.
    high_seq: u64,
}

impl Window {
    pub closed spec fn wf(&self) -> bool {
        &&& self.buf@.len() == self.size
        &&& self.size >= 64
    }

    /// The buffer contents, one byte per slot.
    pub closed spec fn contents(&self) -> Seq<u8> {
        self.buf@
    }

    pub closed spec fn spec_size(&self) -> nat {
        self.size as nat
    }

    pub closed spec fn spec_high_seq(&self) -> u64 {
        self.high_seq
    }

    /// A window of the next power-of-two size at least `size` (and at least
    /// 64), zero-filled.
    pub fn new(size: usize) -> (w: Window)
        requires
            size <= usize::MAX / 2,
        ensures
            w.wf(),
            w.spec_size() == window_size(size as nat),
            w.contents() == Seq::new(w.spec_size(), |i: int| 0u8),
            w.spec_high_seq() == 0,
    {
        let mut p: usize = 1;
        while p < size
            invariant
                1 <= p,
                size <= usize::MAX / 2,
                p < size ==> p <= usize::MAX / 2,
                pow2_at_least(size as nat, p as nat) == pow2_at_least(size as nat, 1),
            decreases usize::MAX - p,
        {
            p = p * 2;
        }
        let size = if p < 64 { 64 } else { p };
        let mut buf: Vec<u8> = Vec::new();
        let mut i: usize = 0;
        while i < size
            invariant
                i <= size,
                buf@ == Seq::new(i as nat, |k: int| 0u8),
            decreases size - i,
        {
            buf.push(0);
            i = i + 1;
            assert(buf@ =~= Seq::new(i as nat, |k: int| 0u8));
        }
        Window { buf, size, high_seq: 0 }
    }

    pub fn size(&self) -> (n: usize)
        ensures
            n == self.spec_size(),
    {
        self.size
    }

    pub fn high_seq(&self) -> (h: u64)
        ensures
            h == self.spec_high_seq(),
    {
        self.high_seq
    }

    fn slot(&self, seq: u64) -> (s: usize)
        requires
            self.wf(),
        ensures
            s == (seq as int) % (self.size as int),
            s < self.size,
    {
        (seq % (self.size as u64)) as usize
    }

    /// Place `data` at `seq` (any sequence number), wrapping within the
    /// window: byte `i` lands in slot `(seq + i) % size`; the other slots keep
    /// their contents. The highest sequence seen saturates at `u64::MAX`.
    pub fn place(&mut self, seq: u64, data: &[u8]) -> (res: Result<(), Error>)
        requires
            old(self).wf(),
        ensures
            window_placed(*old(self), *final(self), seq, data@, res),
            final(self).wf(),
            final(self).spec_size() == old(self).spec_size(),
            data@.len() > old(self).spec_size() ==> res is Err && res->Err_0.kind == Kind::Limit && *final(self)
                == *old(self),
            data@.len() <= old(self).spec_size() ==> res is Ok,
            data@.len() <= old(self).spec_size() ==> final(self).spec_high_seq() == (if old(
                self,
            ).spec_high_seq() >= sat_end(seq, data@.len()) {
                old(self).spec_high_seq()
            } else {
                sat_end(seq, data@.len())
            }),
            data@.len() <= old(self).spec_size() ==> final(self).contents() == placed(
                old(self).contents(),
                seq as int,
                data@,
            ),
    {
        if data.len() > self.size {
            return Err(Error::limit("packet larger than window"));
        }
        let start = self.slot(seq);
        let n = self.size;
        let ghost before = self.buf@;
        let mut i: usize = 0;
        while i < data.len()
            invariant
                i <= data@.len() <= n,
                n == self.size,
                self.size == old(self).size,
                self.high_seq == old(self).high_seq,
                self.buf@.len() == n,
                n >= 64,
                start < n,
                start == (seq as int) % (n as int),
                before == old(self).buf@,
                forall|k: int|
                    0 <= k < n ==> #[trigger] self.buf@[k] == (if exists|j: int| 0 <= j < i && #[trigger] wrap(
                        seq as int,
                        j,
                        n as int,
                    ) == k {
                        data@[(k - start + n) % (n as int)]
                    } else {
                        before[k]
                    }),
            decreases data@.len() - i,
        {
            let k = if i < n - start { start + i } else { i - (n - start) };
            proof {
                lemma_wrap(seq as int, i as int, n as int);
            }
            self.buf.set(k, data[i]);
            i = i + 1;
            proof {
                assert forall|q: int| 0 <= q < n implies #[trigger] self.buf@[q] == (if exists|j: int|
                    0 <= j < i && #[trigger] wrap(seq as int, j, n as int) == q {
                    data@[(q - start + n) % (n as int)]
                } else {
                    before[q]
                }) by {
                    if q == k {
                        assert(wrap(seq as int, i - 1, n as int) == q);
                        assert((q - start + n) % (n as int) == i - 1) by {
                            lemma_wrap(seq as int, i - 1, n as int);
                        }
                    } else {
                        if exists|j: int| 0 <= j < i && #[trigger] wrap(seq as int, j, n as int) == q {
                            let j = choose|j: int| 0 <= j < i && #[trigger] wrap(seq as int, j, n as int) == q;
                            assert(j != i - 1);
                        }
                    }
                }
            }
        }
        proof {
            assert forall|k: int| 0 <= k < n implies #[trigger] self.buf@[k] == placed(before, seq as int, data@)[k] by {
                if exists|j: int| 0 <= j < data@.len() && #[trigger] wrap(seq as int, j, n as int) == k {
                    let j = choose|j: int| 0 <= j < data@.len() && #[trigger] wrap(seq as int, j, n as int) == k;
                    lemma_wrap(seq as int, j, n as int);
                }
            }
            assert(self.buf@ =~= placed(before, seq as int, data@));
        }
        let end = seq.saturating_add(data.len() as u64);
        if end > self.high_seq {
            self.high_seq = end;
        }
        Ok(())
    }

    /// Read `len` bytes starting at sequence `seq`, following the wrap:
    /// byte `i` comes from slot `(seq + i) % size`.
    pub fn read(&self, seq: u64, len: usize) -> (res: Result<Vec<u8>, Error>)
        requires
            self.wf(),
        ensures
            len > self.spec_size() ==> res is Err && res->Err_0.kind == Kind::Limit,
            len <= self.spec_size() ==> res is Ok && res->Ok_0@ == Seq::new(
                len as nat,
                |i: int| self.contents()[wrap(seq as int, i, self.spec_size() as int)],
            ),
    {
        if len > self.size {
            return Err(Error::limit("read larger than window").with_context(len as u64));
        }
        let start = self.slot(seq);
        let n = self.size;
        let mut out: Vec<u8> = Vec::new();
        let mut i: usize = 0;
        while i < len
            invariant
                i <= len <= n,
                n == self.size,
                self.wf(),
                start < n,
                start == (seq as int) % (n as int),
                out@ == Seq::new(i as nat, |j: int| self.buf@[wrap(seq as int, j, n as int)]),
            decreases len - i,
        {
            let k = if i < n - start { start + i } else { i - (n - start) };
            proof {
                lemma_wrap(seq as int, i as int, n as int);
            }
            out.push(self.buf[k]);
            i = i + 1;
            assert(out@ =~= Seq::new(i as nat, |j: int| self.buf@[wrap(seq as int, j, n as int)]));
        }
        Ok(out)
    }
}

/// The sequence just past a write of `len` bytes at `seq`, clamped to
/// `u64::MAX`.
pub open spec fn sat_end(seq: u64, len: nat) -> u64 {
    if seq + len > u64::MAX {
        u64::MAX
    } else {
        (seq + len) as u64
    }
}

/// The slot that byte `i` of a write at `seq` lands in.
pub open spec fn wrap(seq: int, i: int, n: int) -> int {
    (seq + i) % n
}

/// The buffer after writing `data` at `seq`.
pub open spec fn placed(buf: Seq<u8>, seq: int, data: Seq<u8>) -> Seq<u8> {
    Seq::new(
        buf.len(),
        |k: int|
            if exists|j: int| 0 <= j < data.len() && #[trigger] wrap(seq, j, buf.len() as int) == k {
                data[(k - seq % (buf.len() as int) + buf.len()) % (buf.len() as int)]
            } else {
                buf[k]
            },
    )
}

proof fn lemma_wrap(seq: int, i: int, n: int)
    requires
        n > 0,
        0 <= i < n,
        seq >= 0,
    ensures
        wrap(seq, i, n) == (if seq % n + i < n { seq % n + i } else { seq % n + i - n }),
        ((if seq % n + i < n { seq % n + i } else { seq % n + i - n }) - seq % n + n) % n == i,
{
    vstd::arithmetic::div_mod::lemma_add_mod_noop(seq, i, n);
    vstd::arithmetic::div_mod::lemma_mod_bound(seq, n);
    vstd::arithmetic::div_mod::lemma_small_mod(i as nat, n as nat);
    if seq % n + i < n {
        vstd::arithmetic::div_mod::lemma_small_mod((seq % n + i) as nat, n as nat);
    } else {
        vstd::arithmetic::div_mod::lemma_small_mod((seq % n + i - n) as nat, n as nat);
        vstd::arithmetic::div_mod::lemma_mod_sub_multiples_vanish(seq % n + i, n);
    }
    vstd::arithmetic::div_mod::lemma_mod_add_multiples_vanish(i, n);
}

/// A read right after a place at the same sequence gives back the bytes placed.
pub proof fn lemma_read_after_place(buf: Seq<u8>, seq: int, data: Seq<u8>, i: int)
    requires
        buf.len() > 0,
        data.len() <= buf.len(),
        seq >= 0,
        0 <= i < data.len(),
    ensures
        placed(buf, seq, data)[wrap(seq, i, buf.len() as int)] == data[i],
{
    let n = buf.len() as int;
    lemma_wrap(seq, i, n);
    vstd::arithmetic::div_mod::lemma_mod_bound(seq + i, n);
    let k = wrap(seq, i, n);
    assert(exists|j: int| 0 <= j < data.len() && #[trigger] wrap(seq, j, n) == k);
    let j = choose|j: int| 0 <= j < data.len() && #[trigger] wrap(seq, j, n) == k;
    lemma_wrap(seq, j, n);
}

} // verus!
