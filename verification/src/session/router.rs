//! Message pre-routing checks and per-category accounting.
//!
//! Before a message reaches its handler the router validates it against the
//! static [`crate::proto`] descriptor — minimum length and session-open
//! requirement — and tallies traffic by [`crate::proto::Category`]. Handlers can
//! then assume the coarse structural invariants already hold.

use vstd::prelude::*;

use crate::error::{Error, Kind};
use crate::proto::{descriptor, spec_descriptor, Category};
use crate::text::{dec_str, push_dec, push_str};
use crate::wire::MsgType;

verus! {

pub open spec fn category_index(c: Category) -> int {
    match c {
        Category::Session => 0,
        Category::Schema => 1,
        Category::Data => 2,
        Category::Reassembly => 3,
        Category::Flow => 4,
        Category::Compression => 5,
        Category::Connection => 6,
        Category::Engine => 7,
        Category::Stream => 8,
        Category::Channel => 9,
        Category::Snapshot => 10,
    }
}

fn category_idx(c: Category) -> (i: usize)
    ensures
        i == category_index(c),
{
    match c {
        Category::Session => 0,
        Category::Schema => 1,
        Category::Data => 2,
        Category::Reassembly => 3,
        Category::Flow => 4,
        Category::Compression => 5,
        Category::Connection => 6,
        Category::Engine => 7,
        Category::Stream => 8,
        Category::Channel => 9,
        Category::Snapshot => 10,
    }
}

/// The category with this index.
pub open spec fn category_at(i: int) -> Category {
    if i == 0 {
        Category::Session
    } else if i == 1 {
        Category::Schema
    } else if i == 2 {
        Category::Data
    } else if i == 3 {
        Category::Reassembly
    } else if i == 4 {
        Category::Flow
    } else if i == 5 {
        Category::Compression
    } else if i == 6 {
        Category::Connection
    } else if i == 7 {
        Category::Engine
    } else if i == 8 {
        Category::Stream
    } else if i == 9 {
        Category::Channel
    } else {
        Category::Snapshot
    }
}

fn category_of_index(i: usize) -> (c: Category)
    requires
        i < 11,
    ensures
        c == category_at(i as int),
        category_index(c) == i,
{
    match i {
        0 => Category::Session,
        1 => Category::Schema,
        2 => Category::Data,
        3 => Category::Reassembly,
        4 => Category::Flow,
        5 => Category::Compression,
        6 => Category::Connection,
        7 => Category::Engine,
        8 => Category::Stream,
        9 => Category::Channel,
        _ => Category::Snapshot,
    }
}

pub open spec fn sum_counts(s: Seq<u64>) -> int
    decreases s.len(),
{
    if s.len() == 0 {
        0
    } else {
        sum_counts(s.drop_last()) + s.last()
    }
}

#[derive(Debug)]
pub struct Router {
    counts: [u64; 11],
    bytes: [u64; 11],
    rejected: u64,
}

impl Router {
    /// Messages admitted per category index.
    pub closed spec fn spec_counts(&self) -> Seq<u64> {
        self.counts@
    }

    /// Payload bytes admitted per category index (wrapping).
    pub closed spec fn spec_bytes(&self) -> Seq<u64> {
        self.bytes@
    }

    pub closed spec fn spec_rejected(&self) -> u64 {
        self.rejected
    }

    pub fn new() -> (r: Router)
        ensures
            r.spec_counts() == Seq::new(11, |i: int| 0u64),
            r.spec_bytes() == Seq::new(11, |i: int| 0u64),
            r.spec_rejected() == 0,
    {
        let r = Router { counts: [0; 11], bytes: [0; 11], rejected: 0 };
        assert(r.counts@ =~= Seq::new(11, |i: int| 0u64));
        assert(r.bytes@ =~= Seq::new(11, |i: int| 0u64));
        r
    }

    /// Validate `ty`/`payload_len` against the descriptor and, if the type
    /// requires it, that the session is open. On success the message is
    /// accounted to its category; a refusal is counted instead.
    pub fn admit_message(&mut self, ty: MsgType, payload_len: usize, session_open: bool) -> (res: Result<Category, Error>)
        ensures
            ({
                let d = spec_descriptor(ty);
                let refused = (d.requires_open && !session_open) || payload_len < d.min_len;
                let rej = if old(self).spec_rejected() == u64::MAX {
                    u64::MAX
                } else {
                    (old(self).spec_rejected() + 1) as u64
                };
                let ci = category_index(d.category);
                &&& refused ==> res is Err && res->Err_0.kind == Kind::Malformed && final(self).spec_rejected() == rej
                    && final(self).spec_counts() == old(self).spec_counts() && final(self).spec_bytes() == old(
                    self,
                ).spec_bytes()
                &&& (d.requires_open && !session_open) ==> res->Err_0.context is None
                &&& !(d.requires_open && !session_open) && payload_len < d.min_len ==> res->Err_0.context == Some(
                    payload_len as u64,
                )
                &&& !refused ==> res == Ok::<Category, Error>(d.category) && final(self).spec_rejected()
                    == old(self).spec_rejected() && final(self).spec_counts() == old(self).spec_counts().update(
                    ci,
                    if old(self).spec_counts()[ci] == u64::MAX {
                        old(self).spec_counts()[ci]
                    } else {
                        (old(self).spec_counts()[ci] + 1) as u64
                    },
                ) && final(self).spec_bytes() == old(self).spec_bytes().update(
                    ci,
                    ((old(self).spec_bytes()[ci] + payload_len) % 0x1_0000_0000_0000_0000) as u64,
                )
            }),
    {
        let d = descriptor(ty);
        if d.requires_open && !session_open {
            self.rejected = if self.rejected == u64::MAX { u64::MAX } else { self.rejected + 1 };
            return Err(Error::malformed("message before session open"));
        }
        if !d.accepts_len(payload_len) {
            self.rejected = if self.rejected == u64::MAX { u64::MAX } else { self.rejected + 1 };
            return Err(Error::malformed("message shorter than minimum").with_context(payload_len as u64));
        }
        let idx = category_idx(d.category);
        let c = self.counts[idx];
        self.counts[idx] = c.saturating_add(1);
        let b = self.bytes[idx];
        self.bytes[idx] = b.wrapping_add(payload_len as u64);
        Ok(d.category)
    }

    pub fn count(&self, c: Category) -> (n: u64)
        ensures
            n == self.spec_counts()[category_index(c)],
    {
        self.counts[category_idx(c)]
    }

    pub fn bytes(&self, c: Category) -> (n: u64)
        ensures
            n == self.spec_bytes()[category_index(c)],
    {
        self.bytes[category_idx(c)]
    }

    pub fn rejected(&self) -> (n: u64)
        ensures
            n == self.spec_rejected(),
    {
        self.rejected
    }

    /// Messages admitted across all categories (saturating).
    pub fn total(&self) -> (n: u64)
        ensures
            n == (if sum_counts(self.spec_counts()) > u64::MAX { u64::MAX as int } else { sum_counts(self.spec_counts()) }),
    {
        let mut n: u64 = 0;
        let mut i: usize = 0;
        while i < 11
            invariant
                i <= 11,
                self.counts@.len() == 11,
                n == (if sum_counts(self.counts@.take(i as int)) > u64::MAX {
                    u64::MAX as int
                } else {
                    sum_counts(self.counts@.take(i as int))
                }),
            decreases 11 - i,
        {
            proof {
                assert(self.counts@.take(i + 1).drop_last() =~= self.counts@.take(i as int));
                lemma_sum_nonneg(self.counts@.take(i as int));
            }
            n = n.saturating_add(self.counts[i]);
            i = i + 1;
        }
        assert(self.counts@.take(11) =~= self.counts@);
        n
    }

    /// One line per category with traffic, in category order:
    /// `"<name>: <count> msgs, <bytes> bytes\n"`.
    pub fn render(&self) -> (out: String)
        ensures
            out@ == render_lines(self.spec_counts(), self.spec_bytes(), 11),
    {
        let mut out = String::new();
        let mut i: usize = 0;
        while i < 11
            invariant
                i <= 11,
                self.counts@.len() == 11,
                self.bytes@.len() == 11,
                out@ == render_lines(self.counts@, self.bytes@, i as int),
            decreases 11 - i,
        {
            let c = category_of_index(i);
            if self.counts[i] > 0 {
                push_str(&mut out, c.name());
                push_str(&mut out, ": ");
                push_dec(&mut out, self.counts[i]);
                push_str(&mut out, " msgs, ");
                push_dec(&mut out, self.bytes[i]);
                push_str(&mut out, " bytes\n");
            }
            i = i + 1;
        }
        out
    }
}

/// The rendered lines for the first `n` categories.
pub open spec fn render_lines(counts: Seq<u64>, bytes: Seq<u64>, n: int) -> Seq<char>
    decreases n,
{
    if n <= 0 {
        Seq::empty()
    } else {
        let i = n - 1;
        render_lines(counts, bytes, i) + if counts[i] > 0 {
            crate::proto::spec_category_name(category_at(i))@ + ": "@ + dec_str(counts[i] as nat) + " msgs, "@
                + dec_str(bytes[i] as nat) + " bytes\n"@
        } else {
            Seq::<char>::empty()
        }
    }
}

proof fn lemma_sum_nonneg(s: Seq<u64>)
    ensures
        sum_counts(s) >= 0,
    decreases s.len(),
{
    if s.len() > 0 {
        lemma_sum_nonneg(s.drop_last());
    }
}

} // verus!
