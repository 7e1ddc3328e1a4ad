//! Overlap-resolution policy for fragment reassembly.
//!
//! When two fragments cover overlapping byte ranges with differing content,
//! stacks resolve the conflict differently (the classic "TCP overlap"
//! ambiguity). Isolating the choice here keeps the reassembly engine simple and
//! makes the behaviour auditable.

use vstd::prelude::*;

verus! {

/// A half-open byte range `[start, end)`.
#[derive(Debug, Clone, Copy, PartialEq, Eq, Structural)]
pub struct Span {
    pub start: u64,
    pub end: u64,
}

/// `a + b`, clamped to `u64::MAX`.
pub open spec fn sat_add64(a: u64, b: u64) -> u64 {
    if a + b > u64::MAX { u64::MAX } else { (a + b) as u64 }
}

impl Span {
    /// The span of `len` bytes from `start`; the end saturates at `u64::MAX`.
    pub fn new(start: u64, len: u64) -> (s: Span)
        ensures
            s == (Span { start, end: sat_add64(start, len) }),
    {
        Span { start, end: start.saturating_add(len) }
    }

    /// Number of bytes covered (0 for an inverted span).
    pub fn len(&self) -> (n: u64)
        ensures
            n == (if self.end > self.start { self.end - self.start } else { 0 }),
    {
        self.end.saturating_sub(self.start)
    }

    pub fn is_empty(&self) -> (b: bool)
        ensures
            b == (self.end <= self.start),
    {
        self.end <= self.start
    }

    pub open spec fn spec_overlaps(&self, other: &Span) -> bool {
        self.start < other.end && other.start < self.end
    }

    /// Whether the two spans share at least one byte.
    pub fn overlaps(&self, other: &Span) -> (b: bool)
        ensures
            b == self.spec_overlaps(other),
    {
        self.start < other.end && other.start < self.end
    }

    /// The bytes both spans cover, if any.
    pub fn intersection(&self, other: &Span) -> (r: Option<Span>)
        ensures
            ({
                let s = if self.start >= other.start { self.start } else { other.start };
                let e = if self.end <= other.end { self.end } else { other.end };
                r == (if s < e { Some(Span { start: s, end: e }) } else { None::<Span> })
            }),
    {
        let start = if self.start >= other.start { self.start } else { other.start };
        let end = if self.end <= other.end { self.end } else { other.end };
        if start < end {
            Some(Span { start, end })
        } else {
            None
        }
    }
}

#[derive(Debug, Clone, Copy, PartialEq, Eq, Structural)]
pub enum OverlapPolicy {
    /// The first fragment to arrive for a byte wins (BSD-style).
    FirstWins,
    /// The most recent fragment wins (Windows-style).
    LastWins,
    /// Overlapping-but-inconsistent fragments are rejected outright.
    Strict,
}

#[derive(Debug, Clone, Copy, PartialEq, Eq, Structural)]
pub enum Resolution {
    /// Accept the new bytes over `[start,end)`.
    TakeNew(Span),
    /// Keep the existing bytes; drop the new fragment's overlap.
    KeepOld,
    /// Reject the fragment as a conflict.
    Conflict,
}

/// The policy's decision: disjoint spans always take the new bytes; identical
/// overlapping bytes take only the newly covered tail; otherwise the policy
/// decides.
pub open spec fn spec_resolve(p: OverlapPolicy, existing: Span, incoming: Span, consistent: bool) -> Resolution {
    if !existing.spec_overlaps(&incoming) {
        Resolution::TakeNew(incoming)
    } else if consistent {
        if incoming.end > existing.end {
            Resolution::TakeNew(Span { start: existing.end, end: incoming.end })
        } else {
            Resolution::KeepOld
        }
    } else {
        match p {
            OverlapPolicy::FirstWins => Resolution::KeepOld,
            OverlapPolicy::LastWins => Resolution::TakeNew(incoming),
            OverlapPolicy::Strict => Resolution::Conflict,
        }
    }
}

impl OverlapPolicy {
    /// Decide how to merge `incoming` given the already-covered `existing`.
    pub fn resolve(self, existing: &Span, incoming: &Span, consistent: bool) -> (r: Resolution)
        ensures
            r == spec_resolve(self, *existing, *incoming, consistent),
    {
        if !existing.overlaps(incoming) {
            return Resolution::TakeNew(*incoming);
        }
        if consistent {
            return if incoming.end > existing.end {
                Resolution::TakeNew(Span { start: existing.end, end: incoming.end })
            } else {
                Resolution::KeepOld
            };
        }
        match self {
            OverlapPolicy::FirstWins => Resolution::KeepOld,
            OverlapPolicy::LastWins => Resolution::TakeNew(*incoming),
            OverlapPolicy::Strict => Resolution::Conflict,
        }
    }
}

/// Whatever the policy, a resolution never takes bytes outside the incoming
/// span: a `TakeNew` range lies within `incoming`.
pub proof fn lemma_resolution_within_incoming(p: OverlapPolicy, existing: Span, incoming: Span, consistent: bool)
    ensures
        spec_resolve(p, existing, incoming, consistent) matches Resolution::TakeNew(s) ==> incoming.start <= s.start
            && s.end == incoming.end,
{
}

/// Consistent (identical) bytes never conflict, under any policy.
pub proof fn lemma_consistent_never_conflicts(p: OverlapPolicy, existing: Span, incoming: Span)
    ensures
        spec_resolve(p, existing, incoming, true) != Resolution::Conflict,
        spec_resolve(OverlapPolicy::FirstWins, existing, incoming, true) == spec_resolve(
            OverlapPolicy::LastWins,
            existing,
            incoming,
            true,
        ),
{
}

/// What each policy does with inconsistent overlapping bytes: first-wins
/// keeps the bytes already held, last-wins takes the whole incoming span, and
/// strict rejects the fragment. Spans that do not overlap are always taken
/// whole, whatever the policy and the bytes.
pub proof fn lemma_policy_on_conflict(existing: Span, incoming: Span)
    ensures
        existing.start < incoming.end && incoming.start < existing.end ==> {
            &&& spec_resolve(OverlapPolicy::FirstWins, existing, incoming, false) == Resolution::KeepOld
            &&& spec_resolve(OverlapPolicy::LastWins, existing, incoming, false) == Resolution::TakeNew(incoming)
            &&& spec_resolve(OverlapPolicy::Strict, existing, incoming, false) == Resolution::Conflict
        },
        !(existing.start < incoming.end && incoming.start < existing.end) ==> forall|p: OverlapPolicy, c: bool|
            #[trigger] spec_resolve(p, existing, incoming, c) == Resolution::TakeNew(incoming),
{
}

/// Under first-wins no byte already held is ever replaced: whatever the
/// spans and the bytes, a `TakeNew` range shares no byte with `existing`.
pub proof fn lemma_first_wins_keeps_held_bytes(existing: Span, incoming: Span, consistent: bool)
    ensures
        spec_resolve(OverlapPolicy::FirstWins, existing, incoming, consistent) matches Resolution::TakeNew(s) ==> !(
        s.start < existing.end && existing.start < s.end),
{
}

/// Overlapping identical bytes: whatever the policy, only the part of the
/// incoming span past the held bytes is taken (nothing if it ends within
/// them).
pub proof fn lemma_consistent_takes_tail(p: OverlapPolicy, existing: Span, incoming: Span)
    requires
        existing.start < incoming.end && incoming.start < existing.end,
    ensures
        incoming.end > existing.end ==> spec_resolve(p, existing, incoming, true) == Resolution::TakeNew(
            Span { start: existing.end, end: incoming.end },
        ),
        incoming.end <= existing.end ==> spec_resolve(p, existing, incoming, true) == Resolution::KeepOld,
{
}

} // verus!
