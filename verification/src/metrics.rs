//! Lightweight counters for observability.
//!
//! A session keeps a flat set of monotonically-increasing counters plus a few
//! gauges. There is deliberately no locking: a `Metrics` belongs to exactly one
//! session/engine and is updated from the single thread driving it. Counters
//! saturate rather than wrap.

use vstd::prelude::*;

use crate::text::{dec_str, idec_str, push_dec, push_i64, push_str};

verus! {

#[derive(Debug, Clone)]
pub struct Metrics {
    pub streams_parsed: u64,
    pub messages_seen: u64,
    pub messages_by_type: [u64; 64],
    pub bytes_ingested: u64,
    pub decode_errors: u64,
    pub records_decoded: u64,
    pub fragments_seen: u64,
    pub flows_opened: u64,
    pub flows_closed: u64,
    pub templates_defined: u64,
    pub rows_packed: u64,
    pub codec_bytes_in: u64,
    pub codec_bytes_out: u64,
    // Gauges — current, not cumulative.
    pub live_flows: i64,
    pub live_channels: i64,
    pub arena_high_water: usize,
}

pub open spec fn sat_add(a: u64, b: int) -> u64 {
    if a + b > u64::MAX { u64::MAX } else { (a + b) as u64 }
}

pub open spec fn sat_add_i(a: i64, b: int) -> i64 {
    if a + b > i64::MAX {
        i64::MAX
    } else if a + b < i64::MIN {
        i64::MIN
    } else {
        (a + b) as i64
    }
}

/// Every counter and gauge is zero.
pub open spec fn all_zero(m: Metrics) -> bool {
    &&& m.streams_parsed == 0 && m.messages_seen == 0 && m.bytes_ingested == 0
    &&& m.decode_errors == 0 && m.records_decoded == 0 && m.fragments_seen == 0
    &&& m.flows_opened == 0 && m.flows_closed == 0 && m.templates_defined == 0
    &&& m.rows_packed == 0 && m.codec_bytes_in == 0 && m.codec_bytes_out == 0
    &&& m.live_flows == 0 && m.live_channels == 0 && m.arena_high_water == 0
    &&& forall|i: int| 0 <= i < 64 ==> m.messages_by_type[i] == 0
}

/// `n` is `o` with only the named counters changed (listed by the caller).
pub open spec fn same_except_counts(n: Metrics, o: Metrics) -> bool {
    &&& n.fragments_seen == o.fragments_seen && n.flows_opened == o.flows_opened
    &&& n.flows_closed == o.flows_closed && n.templates_defined == o.templates_defined
    &&& n.rows_packed == o.rows_packed && n.codec_bytes_in == o.codec_bytes_in
    &&& n.codec_bytes_out == o.codec_bytes_out && n.live_flows == o.live_flows
    &&& n.live_channels == o.live_channels && n.arena_high_water == o.arena_high_water
}

impl Default for Metrics {
    fn default() -> (m: Metrics)
        ensures
            all_zero(m),
    {
        Metrics {
            streams_parsed: 0,
            messages_seen: 0,
            messages_by_type: [0; 64],
            bytes_ingested: 0,
            decode_errors: 0,
            records_decoded: 0,
            fragments_seen: 0,
            flows_opened: 0,
            flows_closed: 0,
            templates_defined: 0,
            rows_packed: 0,
            codec_bytes_in: 0,
            codec_bytes_out: 0,
            live_flows: 0,
            live_channels: 0,
            arena_high_water: 0,
        }
    }
}

impl Metrics {
    pub fn new() -> (m: Metrics)
        ensures
            all_zero(m),
    {
        Metrics::default()
    }

    /// One more stream of `bytes` bytes.
    pub fn note_stream(&mut self, bytes: usize)
        ensures
            *final(self) == (Metrics {
                streams_parsed: sat_add(old(self).streams_parsed, 1),
                bytes_ingested: sat_add(old(self).bytes_ingested, bytes as int),
                ..*old(self)
            }),
    {
        self.streams_parsed = self.streams_parsed.saturating_add(1);
        self.bytes_ingested = self.bytes_ingested.saturating_add(bytes as u64);
    }

    /// One more message of type code `ty`, tallied in slot `ty % 64`.
    pub fn note_message(&mut self, ty: u8)
        ensures
            final(self).messages_seen == sat_add(old(self).messages_seen, 1),
            final(self).messages_by_type@ == old(self).messages_by_type@.update(
                (ty % 64) as int,
                sat_add(old(self).messages_by_type[(ty % 64) as int], 1),
            ),
            final(self).streams_parsed == old(self).streams_parsed,
            final(self).bytes_ingested == old(self).bytes_ingested,
            final(self).decode_errors == old(self).decode_errors,
            final(self).records_decoded == old(self).records_decoded,
            same_except_counts(*final(self), *old(self)),
    {
        self.messages_seen = self.messages_seen.saturating_add(1);
        let slot = (ty & 63) as usize;
        assert((ty & 63) == ty % 64) by (bit_vector);
        let v = self.messages_by_type[slot];
        self.messages_by_type[slot] = v.saturating_add(1);
    }

    pub fn note_error(&mut self)
        ensures
            *final(self) == (Metrics { decode_errors: sat_add(old(self).decode_errors, 1), ..*old(self) }),
    {
        self.decode_errors = self.decode_errors.saturating_add(1);
    }

    pub fn note_record(&mut self)
        ensures
            *final(self) == (Metrics { records_decoded: sat_add(old(self).records_decoded, 1), ..*old(self) }),
    {
        self.records_decoded = self.records_decoded.saturating_add(1);
    }

    pub fn note_codec(&mut self, bytes_in: usize, bytes_out: usize)
        ensures
            *final(self) == (Metrics {
                codec_bytes_in: sat_add(old(self).codec_bytes_in, bytes_in as int),
                codec_bytes_out: sat_add(old(self).codec_bytes_out, bytes_out as int),
                ..*old(self)
            }),
    {
        self.codec_bytes_in = self.codec_bytes_in.saturating_add(bytes_in as u64);
        self.codec_bytes_out = self.codec_bytes_out.saturating_add(bytes_out as u64);
    }

    pub fn open_flow(&mut self)
        ensures
            *final(self) == (Metrics {
                flows_opened: sat_add(old(self).flows_opened, 1),
                live_flows: sat_add_i(old(self).live_flows, 1),
                ..*old(self)
            }),
    {
        self.flows_opened = self.flows_opened.saturating_add(1);
        self.live_flows = if self.live_flows == i64::MAX { i64::MAX } else { self.live_flows + 1 };
    }

    pub fn close_flow(&mut self)
        ensures
            *final(self) == (Metrics {
                flows_closed: sat_add(old(self).flows_closed, 1),
                live_flows: sat_add_i(old(self).live_flows, -1),
                ..*old(self)
            }),
    {
        self.flows_closed = self.flows_closed.saturating_add(1);
        self.live_flows = if self.live_flows == i64::MIN { i64::MIN } else { self.live_flows - 1 };
    }

    /// A compact one-line summary for logs.
    pub fn summary(&self) -> (s: String)
        ensures
            s@ == "streams="@ + dec_str(self.streams_parsed as nat) + " msgs="@ + dec_str(self.messages_seen as nat)
                + " recs="@ + dec_str(self.records_decoded as nat) + " errs="@ + dec_str(
                self.decode_errors as nat,
            ) + " flows="@ + dec_str(self.flows_opened as nat) + "/"@ + dec_str(self.flows_closed as nat)
                + " live_flows="@ + idec_str(self.live_flows as int),
    {
        let mut s = String::new();
        push_str(&mut s, "streams=");
        push_dec(&mut s, self.streams_parsed);
        push_str(&mut s, " msgs=");
        push_dec(&mut s, self.messages_seen);
        push_str(&mut s, " recs=");
        push_dec(&mut s, self.records_decoded);
        push_str(&mut s, " errs=");
        push_dec(&mut s, self.decode_errors);
        push_str(&mut s, " flows=");
        push_dec(&mut s, self.flows_opened);
        push_str(&mut s, "/");
        push_dec(&mut s, self.flows_closed);
        push_str(&mut s, " live_flows=");
        push_i64(&mut s, self.live_flows);
        s
    }
}

} // verus!
