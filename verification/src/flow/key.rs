//! Flow identity.
//!
//! A flow is keyed by the classic 5-tuple plus the logical flow id carried in
//! `FLOW_OPEN`/`DATA_RECORD`.

use vstd::prelude::*;

use crate::util::{fnv1a, fnv_fold, u32_bytes};

verus! {

#[derive(Debug, Clone, Copy, PartialEq, Eq, Hash, Structural)]
pub struct FlowKey {
    pub src: u32,
    pub dst: u32,
    pub flow_id: u32,
    pub sport: u16,
    pub dport: u16,
    pub proto: u8,
}

pub open spec fn rotl17(x: u64) -> u64 {
    ((x << 17u64) | (x >> 47u64)) as u64
}

/// The digest of a key: FNV-1a of each address mixed with the id, ports and
/// protocol.
pub open spec fn spec_digest(k: FlowKey) -> u64 {
    let h0 = fnv_fold(u32_bytes(k.src));
    let h1 = h0 ^ rotl17(fnv_fold(u32_bytes(k.dst)));
    let h2 = h1 ^ vstd::wrapping::u64_specs::wrapping_mul(k.flow_id as u64, 0x9E37_79B9_7F4A_7C15u64);
    let h3 = h2 ^ ((((k.sport as u64) << 16u64) as u64) | (k.dport as u64));
    h3 ^ (((k.proto as u64) << 48u64) as u64)
}

fn be_bytes(v: u32) -> (b: [u8; 4])
    ensures
        b@ == u32_bytes(v),
{
    let b = [(v / 16777216) as u8, ((v / 65536) % 256) as u8, ((v / 256) % 256) as u8, (v % 256) as u8];
    assert(b@ =~= u32_bytes(v));
    b
}

impl FlowKey {
    pub fn new(src: u32, dst: u32, flow_id: u32, sport: u16, dport: u16, proto: u8) -> (k: FlowKey)
        ensures
            k == (FlowKey { src, dst, flow_id, sport, dport, proto }),
    {
        FlowKey { src, dst, flow_id, sport, dport, proto }
    }

    /// A synthetic key derived only from a flow id, used where the 5-tuple is
    /// not meaningful.
    pub fn from_flow_id(flow_id: u32) -> (k: FlowKey)
        ensures
            k == (FlowKey { src: 0, dst: 0, flow_id, sport: 0, dport: 0, proto: 0 }),
    {
        FlowKey { src: 0, dst: 0, flow_id, sport: 0, dport: 0, proto: 0 }
    }

    /// A stable 64-bit digest, used for ordering keys and logging.
    pub fn digest(&self) -> (h: u64)
        ensures
            h == spec_digest(*self),
    {
        let sb = be_bytes(self.src);
        let db = be_bytes(self.dst);
        let mut h = fnv1a(sb.as_slice());
        let d = fnv1a(db.as_slice());
        h = h ^ ((d << 17) | (d >> 47));
        h = h ^ (self.flow_id as u64).wrapping_mul(0x9E37_79B9_7F4A_7C15);
        h = h ^ (((self.sport as u64) << 16) | (self.dport as u64));
        h = h ^ ((self.proto as u64) << 48);
        h
    }
}

} // verus!
