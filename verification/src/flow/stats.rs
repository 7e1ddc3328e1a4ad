//! Derived per-flow statistics: bitrate, packet rate, mean packet size and a
//! burstiness score. All arithmetic saturates, so a record with a zero or
//! inverted duration cannot fail.

use vstd::prelude::*;

use crate::flow::expire::sat_sub;
use crate::flow::record::FlowRecord;

verus! {

#[derive(Debug, Clone, Copy)]
pub struct FlowStats {
    pub duration_ms: u64,
    pub bits_per_sec: u64,
    pub packets_per_sec: u64,
    pub mean_packet_bytes: u64,
    pub records: u64,
}

pub open spec fn cap64(x: int) -> u64 {
    if x > u64::MAX { u64::MAX } else { x as u64 }
}

/// `amount` per second over `duration_ms` (at least one millisecond),
/// rounded down and saturating.
pub open spec fn per_sec(amount: int, duration_ms: u64) -> u64 {
    cap64(amount * 1000 / (if duration_ms == 0 { 1 } else { duration_ms as int }))
}

pub open spec fn spec_stats(rec: FlowRecord) -> FlowStats {
    let d = sat_sub(rec.last_ms, rec.first_ms);
    FlowStats {
        duration_ms: d,
        bits_per_sec: per_sec(cap64(rec.octets * 8) as int, d),
        packets_per_sec: per_sec(rec.packets as int, d),
        mean_packet_bytes: if rec.packets == 0 { 0 } else { (rec.octets / rec.packets) as u64 },
        records: rec.records,
    }
}

pub open spec fn spec_burstiness(s: FlowStats) -> u8 {
    if s.duration_ms == 0 {
        100
    } else {
        let per_record = s.bits_per_sec as int / (if s.records == 0 { 1 } else { s.records as int });
        let score = per_record / 1024;
        if score > 100 { 100 } else { score as u8 }
    }
}

fn rate(amount: u64, duration_ms: u64) -> (r: u64)
    ensures
        r == per_sec(amount as int, duration_ms),
{
    let d: u128 = if duration_ms == 0 { 1 } else { duration_ms as u128 };
    let q: u128 = (amount as u128) * 1000 / d;
    if q > u64::MAX as u128 {
        u64::MAX
    } else {
        q as u64
    }
}

impl FlowStats {
    pub fn of(rec: &FlowRecord) -> (s: FlowStats)
        ensures
            s == spec_stats(*rec),
    {
        let duration_ms = rec.last_ms.saturating_sub(rec.first_ms);
        let o8: u64 = if rec.octets > u64::MAX / 8 { u64::MAX } else { rec.octets * 8 };
        let bits_per_sec = rate(o8, duration_ms);
        let packets_per_sec = rate(rec.packets, duration_ms);
        let mean_packet_bytes = if rec.packets == 0 { 0 } else { rec.octets / rec.packets };
        FlowStats { duration_ms, bits_per_sec, packets_per_sec, mean_packet_bytes, records: rec.records }
    }

    /// A 0-100 burstiness score: high when many bytes arrived in a short window.
    pub fn burstiness(&self) -> (b: u8)
        ensures
            b == spec_burstiness(*self),
    {
        if self.duration_ms == 0 {
            return 100;
        }
        let per_record = self.bits_per_sec / (if self.records == 0 { 1 } else { self.records });
        let score = per_record / 1024;
        if score > 100 { 100 } else { score as u8 }
    }

    pub fn is_elephant(&self, bps_threshold: u64) -> (b: bool)
        ensures
            b == (self.bits_per_sec >= bps_threshold),
    {
        self.bits_per_sec >= bps_threshold
    }
}

} // verus!
