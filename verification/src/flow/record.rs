//! The per-flow accumulation record.

use vstd::prelude::*;

use crate::flow::key::FlowKey;

verus! {

/// Coarse lifecycle state of a flow.
#[derive(Debug, Clone, Copy, PartialEq, Eq, Structural)]
pub enum FlowState {
    New,
    Active,
    Idle,
    Closing,
}

/// A flow's running totals plus the template binding it was last updated under.
#[derive(Debug, Clone, Copy, PartialEq, Eq, Structural)]
pub struct FlowRecord {
    pub key: FlowKey,
    pub octets: u64,
    pub packets: u64,
    pub records: u64,
    pub first_ms: u64,
    pub last_ms: u64,
    pub expire_at: u64,
    /// Id of the template this flow was last decoded with.
    pub template_id: u16,
    /// Generation of that template, so a layout change is detectable.
    pub template_gen: u32,
    /// Field count of the bound template.
    pub bound_field_count: u16,
    pub state: FlowState,
    pub layout_changed: bool,
}

pub open spec fn wadd(a: u64, b: u64) -> u64 {
    vstd::wrapping::u64_specs::wrapping_add(a, b)
}

/// A fresh record for `key` at time `now`.
pub open spec fn spec_new_record(key: FlowKey, now: u64) -> FlowRecord {
    FlowRecord {
        key,
        octets: 0,
        packets: 0,
        records: 0,
        first_ms: now,
        last_ms: now,
        expire_at: now,
        template_id: 0,
        template_gen: 0,
        bound_field_count: 0,
        state: FlowState::New,
        layout_changed: false,
    }
}

/// `r` after folding in one record's counters at time `now`.
pub open spec fn spec_accumulate(r: FlowRecord, octets: u64, packets: u64, now: u64) -> FlowRecord {
    FlowRecord {
        first_ms: if r.records == 0 { now } else { r.first_ms },
        octets: wadd(r.octets, octets),
        packets: wadd(r.packets, packets),
        records: wadd(r.records, 1),
        last_ms: now,
        state: if r.state == FlowState::New { FlowState::Active } else { r.state },
        ..r
    }
}

/// `r` after binding it to template `id` at `generation`.
pub open spec fn spec_bind(r: FlowRecord, id: u16, generation: u32, field_count: u16) -> FlowRecord {
    FlowRecord {
        layout_changed: r.layout_changed || (r.template_id == id && r.template_gen != generation),
        template_id: id,
        template_gen: generation,
        bound_field_count: field_count,
        ..r
    }
}

impl FlowRecord {
    pub fn new(key: FlowKey, now: u64) -> (r: FlowRecord)
        ensures
            r == spec_new_record(key, now),
    {
        FlowRecord {
            key,
            octets: 0,
            packets: 0,
            records: 0,
            first_ms: now,
            last_ms: now,
            expire_at: now,
            template_id: 0,
            template_gen: 0,
            bound_field_count: 0,
            state: FlowState::New,
            layout_changed: false,
        }
    }

    pub fn accumulate(&mut self, octets: u64, packets: u64, now: u64)
        ensures
            *final(self) == spec_accumulate(*old(self), octets, packets, now),
    {
        if self.records == 0 {
            self.first_ms = now;
        }
        self.octets = self.octets.wrapping_add(octets);
        self.packets = self.packets.wrapping_add(packets);
        self.records = self.records.wrapping_add(1);
        self.last_ms = now;
        if self.state == FlowState::New {
            self.state = FlowState::Active;
        }
    }

    pub fn bind_template(&mut self, id: u16, generation: u32, field_count: u16)
        ensures
            *final(self) == spec_bind(*old(self), id, generation, field_count),
    {
        if self.template_id == id && self.template_gen != generation {
            self.layout_changed = true;
        }
        self.template_id = id;
        self.template_gen = generation;
        self.bound_field_count = field_count;
    }
}

} // verus!
