//! Session configuration: capacities and timeouts for the subsystems a
//! session owns.

use vstd::prelude::*;

verus! {

#[derive(Debug, Clone, Copy)]
pub struct Config {
    /// Most templates a session caches before evicting the least recently used.
    pub template_capacity: usize,
    /// Most flows the flow table holds before evicting the oldest.
    pub flow_capacity: usize,
    /// Logical ticks a flow may stay idle before a sweep expires it.
    pub flow_idle_ticks: u64,
    /// Allocation granule for flow records.
    pub arena_chunk: usize,
    /// Default stream window size; also bounds reassembly buffers.
    pub window_size: usize,
    /// Most fragments buffered per reassembled flow.
    pub max_fragments: usize,
    /// Whether data records fold into the flow table.
    pub aggregate: bool,
}

/// Sizes a session can work with: every buffer derived from the window size
/// stays addressable.
pub open spec fn config_ok(c: Config) -> bool {
    c.window_size <= usize::MAX / 16
}

impl Config {
    /// A small-footprint configuration for tests and embedded use.
    pub fn compact() -> (c: Config)
        ensures
            config_ok(c),
            c.template_capacity == 64 && c.flow_capacity == 1024 && c.flow_idle_ticks == 64,
            c.arena_chunk == 512 && c.window_size == 4096 && c.max_fragments == 64 && c.aggregate,
    {
        Config {
            template_capacity: 64,
            flow_capacity: 1024,
            flow_idle_ticks: 64,
            arena_chunk: 512,
            window_size: 4096,
            max_fragments: 64,
            aggregate: true,
        }
    }
}

impl Default for Config {
    fn default() -> (c: Config)
        ensures
            config_ok(c),
            c.template_capacity == 1024 && c.flow_capacity == 65536 && c.flow_idle_ticks == 300,
            c.arena_chunk == 4096 && c.window_size == 65536 && c.max_fragments == 256 && c.aggregate,
    {
        Config {
            template_capacity: 1024,
            flow_capacity: 65536,
            flow_idle_ticks: 300,
            arena_chunk: 4096,
            window_size: 65536,
            max_fragments: 256,
            aggregate: true,
        }
    }
}

} // verus!
