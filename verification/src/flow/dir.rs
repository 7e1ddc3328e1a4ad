//! Flow direction inference and key canonicalisation.
//!
//! The endpoint with the smaller `(addr, port)` tuple is the "initiator"; the
//! canonical form of a key puts it first, so both directions of one
//! conversation map to the same key.

use vstd::prelude::*;

use crate::flow::key::FlowKey;

verus! {

#[derive(Debug, Clone, Copy, PartialEq, Eq, Structural)]
pub enum Direction {
    Forward,
    Reverse,
}

/// The canonical (initiator-first) form of a key plus the direction the
/// given key represented relative to that canonical form.
#[derive(Debug, Clone, Copy, PartialEq, Eq, Structural)]
pub struct Canonical {
    pub key: FlowKey,
    pub direction: Direction,
}

/// Lexicographic `(addr, port) <= (addr, port)`.
pub open spec fn spec_endpoint_le(a_addr: u32, a_port: u16, b_addr: u32, b_port: u16) -> bool {
    a_addr < b_addr || (a_addr == b_addr && a_port <= b_port)
}

/// The key with its endpoints swapped.
pub open spec fn spec_reverse(k: FlowKey) -> FlowKey {
    FlowKey { src: k.dst, dst: k.src, flow_id: k.flow_id, sport: k.dport, dport: k.sport, proto: k.proto }
}

pub open spec fn spec_canonicalize(k: FlowKey) -> Canonical {
    if spec_endpoint_le(k.src, k.sport, k.dst, k.dport) {
        Canonical { key: k, direction: Direction::Forward }
    } else {
        Canonical { key: spec_reverse(k), direction: Direction::Reverse }
    }
}

fn endpoint_le(a_addr: u32, a_port: u16, b_addr: u32, b_port: u16) -> (b: bool)
    ensures
        b == spec_endpoint_le(a_addr, a_port, b_addr, b_port),
{
    a_addr < b_addr || (a_addr == b_addr && a_port <= b_port)
}

/// Canonicalise `key` so both directions of a conversation agree.
pub fn canonicalize(key: &FlowKey) -> (c: Canonical)
    ensures
        c == spec_canonicalize(*key),
{
    if endpoint_le(key.src, key.sport, key.dst, key.dport) {
        Canonical { key: *key, direction: Direction::Forward }
    } else {
        let flipped = FlowKey {
            src: key.dst,
            dst: key.src,
            sport: key.dport,
            dport: key.sport,
            flow_id: key.flow_id,
            proto: key.proto,
        };
        Canonical { key: flipped, direction: Direction::Reverse }
    }
}

/// Whether two keys are the two directions of one conversation.
pub fn same_conversation(a: &FlowKey, b: &FlowKey) -> (r: bool)
    ensures
        r == (spec_canonicalize(*a).key == spec_canonicalize(*b).key),
{
    canonicalize(a).key == canonicalize(b).key
}

/// A heuristic: the side using the lower port is usually the server.
pub fn likely_server_is_dst(key: &FlowKey) -> (b: bool)
    ensures
        b == (key.dport < key.sport),
{
    key.dport < key.sport
}

/// A key and its reverse are the same conversation, and their canonical
/// directions are opposite unless the two endpoints coincide.
pub proof fn lemma_reverse_same_conversation(k: FlowKey)
    ensures
        spec_canonicalize(k).key == spec_canonicalize(spec_reverse(k)).key,
        (k.src != k.dst || k.sport != k.dport) ==> spec_canonicalize(k).direction
            != spec_canonicalize(spec_reverse(k)).direction,
{
}

/// The canonical key is in canonical form already: canonicalising again keeps
/// it and reports `Forward`.
pub proof fn lemma_canonical_idempotent(k: FlowKey)
    ensures
        spec_canonicalize(spec_canonicalize(k).key) == (Canonical { key: spec_canonicalize(k).key, direction: Direction::Forward }),
{
}

/// Being the same conversation is an equivalence relation.
pub proof fn lemma_same_conversation_equivalence(a: FlowKey, b: FlowKey, c: FlowKey)
    ensures
        spec_canonicalize(a).key == spec_canonicalize(a).key,
        spec_canonicalize(a).key == spec_canonicalize(b).key ==> spec_canonicalize(b).key == spec_canonicalize(a).key,
        spec_canonicalize(a).key == spec_canonicalize(b).key && spec_canonicalize(b).key == spec_canonicalize(c).key
            ==> spec_canonicalize(a).key == spec_canonicalize(c).key,
{
}

} // verus!
