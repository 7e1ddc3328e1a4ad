//! Flow expiry policy: the decision of when a flow should be expired.

use vstd::prelude::*;

use crate::flow::record::{FlowRecord, FlowState};

verus! {

#[derive(Debug, Clone, Copy)]
pub struct ExpiryPolicy {
    /// Milliseconds of inactivity before an idle flow is expired.
    pub idle_ms: u64,
    /// Maximum lifetime of an active flow before forced expiry.
    pub active_ms: u64,
    /// Records after which a flow is force-flushed regardless of time.
    pub max_records: u64,
}

impl Default for ExpiryPolicy {
    fn default() -> (p: ExpiryPolicy)
        ensures
            p.idle_ms == 15_000 && p.active_ms == 300_000 && p.max_records == 1048576,
    {
        ExpiryPolicy { idle_ms: 15_000, active_ms: 300_000, max_records: 1048576 }
    }
}

#[derive(Debug, Clone, Copy, PartialEq, Eq, Structural)]
pub enum ExpiryReason {
    Idle,
    Active,
    RecordCap,
    Closing,
    Live,
}

/// `a - b`, or 0 if `b > a`.
pub open spec fn sat_sub(a: u64, b: u64) -> u64 {
    if a >= b { (a - b) as u64 } else { 0 }
}

/// Why `rec` should expire at `now`, checked in priority order.
pub open spec fn spec_evaluate(p: ExpiryPolicy, rec: FlowRecord, now: u64) -> ExpiryReason {
    if rec.state == FlowState::Closing {
        ExpiryReason::Closing
    } else if rec.records >= p.max_records {
        ExpiryReason::RecordCap
    } else if sat_sub(now, rec.last_ms) >= p.idle_ms {
        ExpiryReason::Idle
    } else if sat_sub(now, rec.first_ms) >= p.active_ms {
        ExpiryReason::Active
    } else {
        ExpiryReason::Live
    }
}

impl ExpiryPolicy {
    pub fn new(idle_ms: u64, active_ms: u64) -> (p: ExpiryPolicy)
        ensures
            p.idle_ms == idle_ms && p.active_ms == active_ms && p.max_records == 1048576,
    {
        ExpiryPolicy { idle_ms, active_ms, max_records: 1048576 }
    }

    /// Decide whether `rec` should expire as of `now`.
    pub fn evaluate(&self, rec: &FlowRecord, now: u64) -> (r: ExpiryReason)
        ensures
            r == spec_evaluate(*self, *rec, now),
    {
        if rec.state == FlowState::Closing {
            return ExpiryReason::Closing;
        }
        if rec.records >= self.max_records {
            return ExpiryReason::RecordCap;
        }
        if now.saturating_sub(rec.last_ms) >= self.idle_ms {
            return ExpiryReason::Idle;
        }
        if now.saturating_sub(rec.first_ms) >= self.active_ms {
            return ExpiryReason::Active;
        }
        ExpiryReason::Live
    }

    pub fn should_expire(&self, rec: &FlowRecord, now: u64) -> (b: bool)
        ensures
            b == (spec_evaluate(*self, *rec, now) != ExpiryReason::Live),
    {
        match self.evaluate(rec, now) {
            ExpiryReason::Live => false,
            _ => true,
        }
    }

    /// The time at which `rec` next becomes eligible for idle expiry.
    pub fn next_idle_deadline(&self, rec: &FlowRecord) -> (t: u64)
        ensures
            t == if rec.last_ms + self.idle_ms > u64::MAX { u64::MAX as int } else { rec.last_ms + self.idle_ms },
    {
        rec.last_ms.saturating_add(self.idle_ms)
    }
}

/// Once a flow's idle deadline has passed it is expired (for some reason).
pub proof fn lemma_deadline_expires(p: ExpiryPolicy, rec: FlowRecord, now: u64)
    requires
        now >= rec.last_ms + p.idle_ms,
    ensures
        spec_evaluate(p, rec, now) != ExpiryReason::Live,
{
}

} // verus!
