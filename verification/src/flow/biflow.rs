//! Biflow pairing.
//!
//! A bidirectional conversation shows up as two unidirectional flows whose
//! keys are mirror images. The pairer folds the reverse direction into a single
//! biflow record so reports can show both byte counts side by side.

use vstd::prelude::*;

use crate::flow::dir::{spec_canonicalize, Direction};
use crate::flow::key::FlowKey;
use crate::flow::record::{wadd, FlowRecord};

verus! {

/// A paired conversation.
#[derive(Debug, Clone, Copy, PartialEq, Eq, Structural)]
pub struct Biflow {
    pub key: FlowKey,
    pub fwd_octets: u64,
    pub rev_octets: u64,
    pub fwd_packets: u64,
    pub rev_packets: u64,
}

impl Biflow {
    pub fn total_octets(&self) -> (t: u64)
        ensures
            t == wadd(self.fwd_octets, self.rev_octets),
    {
        self.fwd_octets.wrapping_add(self.rev_octets)
    }
}

fn reverse_key(k: &FlowKey) -> (r: FlowKey)
    ensures
        r == crate::flow::dir::spec_reverse(*k),
{
    FlowKey { src: k.dst, dst: k.src, flow_id: k.flow_id, sport: k.dport, dport: k.sport, proto: k.proto }
}

/// The canonical orientation of a conversation and whether `k` is forward in it.
fn canonical(k: &FlowKey) -> (r: (FlowKey, bool))
    ensures
        r.0 == spec_canonicalize(*k).key,
        r.1 == (spec_canonicalize(*k).direction == Direction::Forward),
{
    let rev = reverse_key(k);
    if k.src < k.dst || (k.src == k.dst && k.sport <= k.dport) {
        (*k, true)
    } else {
        (rev, false)
    }
}

/// The pairing slot of a key: everything but the logical flow id.
pub open spec fn spec_slot(k: FlowKey) -> (u32, u32, u16, u16, u8) {
    (k.src, k.dst, k.sport, k.dport, k.proto)
}

/// `b` with `rec`'s counters added to the forward or reverse side.
pub open spec fn spec_fold_in(b: Biflow, rec: FlowRecord, forward: bool) -> Biflow {
    if forward {
        Biflow { fwd_octets: wadd(b.fwd_octets, rec.octets), fwd_packets: wadd(b.fwd_packets, rec.packets), ..b }
    } else {
        Biflow { rev_octets: wadd(b.rev_octets, rec.octets), rev_packets: wadd(b.rev_packets, rec.packets), ..b }
    }
}

pub open spec fn spec_empty_biflow(key: FlowKey) -> Biflow {
    Biflow { key, fwd_octets: 0, rev_octets: 0, fwd_packets: 0, rev_packets: 0 }
}

/// `after` is `before` with `rec` folded into the biflow of its
/// conversation, that biflow appended (keyed by the canonical orientation)
/// when the conversation is new.
pub open spec fn observed_into(before: Seq<Biflow>, after: Seq<Biflow>, rec: FlowRecord) -> bool {
    let c = spec_canonicalize(rec.key);
    let fwd = c.direction == Direction::Forward;
    let s = spec_slot(c.key);
    if has_slot(before, s) {
        exists|i: int|
            0 <= i < before.len() && spec_slot(before[i].key) == s && after == before.update(
                i,
                spec_fold_in(before[i], rec, fwd),
            )
    } else {
        after == before.push(spec_fold_in(spec_empty_biflow(c.key), rec, fwd))
    }
}

/// Whether some entry occupies slot `s`.
pub open spec fn has_slot(es: Seq<Biflow>, s: (u32, u32, u16, u16, u8)) -> bool {
    exists|i: int| 0 <= i < es.len() && spec_slot(es[i].key) == s
}

#[derive(Debug)]
pub struct BiflowPairer {
    table: Vec<Biflow>,
}

impl BiflowPairer {
    /// No two entries share a slot.
    pub closed spec fn wf(&self) -> bool {
        forall|i: int, j: int|
            0 <= i < j < self.table@.len() ==> spec_slot(#[trigger] self.table@[i].key) != spec_slot(
                #[trigger] self.table@[j].key,
            )
    }

    /// The paired conversations, one per slot, in first-seen order.
    pub closed spec fn entries(&self) -> Seq<Biflow> {
        self.table@
    }

    pub fn new() -> (p: BiflowPairer)
        ensures
            p.wf(),
            p.entries() == Seq::<Biflow>::empty(),
    {
        BiflowPairer { table: Vec::new() }
    }

    pub fn len(&self) -> (n: usize)
        ensures
            n == self.entries().len(),
    {
        self.table.len()
    }

    pub fn is_empty(&self) -> (b: bool)
        ensures
            b == (self.entries().len() == 0),
    {
        self.table.len() == 0
    }

    /// Fold a unidirectional flow into the biflow of its conversation,
    /// creating that biflow (keyed by the canonical orientation) if needed.
    pub fn observe(&mut self, rec: &FlowRecord)
        requires
            old(self).wf(),
        ensures
            final(self).wf(),
            observed_into(old(self).entries(), final(self).entries(), *rec),
    {
        let (canon, is_forward) = canonical(&rec.key);
        let mut i: usize = 0;
        while i < self.table.len()
            invariant
                i <= self.table@.len(),
                self.table@ == old(self).table@,
                old(self).wf(),
                canon == spec_canonicalize(rec.key).key,
                is_forward == (spec_canonicalize(rec.key).direction == Direction::Forward),
                forall|j: int| 0 <= j < i ==> spec_slot(#[trigger] self.table@[j].key) != spec_slot(canon),
            decreases self.table@.len() - i,
        {
            let e = self.table[i];
            if e.key.src == canon.src && e.key.dst == canon.dst && e.key.sport == canon.sport
                && e.key.dport == canon.dport && e.key.proto == canon.proto {
                let mut b = e;
                if is_forward {
                    b.fwd_octets = b.fwd_octets.wrapping_add(rec.octets);
                    b.fwd_packets = b.fwd_packets.wrapping_add(rec.packets);
                } else {
                    b.rev_octets = b.rev_octets.wrapping_add(rec.octets);
                    b.rev_packets = b.rev_packets.wrapping_add(rec.packets);
                }
                self.table.set(i, b);
                proof {
                    assert(b.key == e.key);
                    assert(self.table@ == old(self).table@.update(i as int, b));
                    assert(b == spec_fold_in(old(self).entries()[i as int], *rec, is_forward));
                    assert forall|x: int, y: int| 0 <= x < y < self.table@.len() implies spec_slot(
                        #[trigger] self.table@[x].key,
                    ) != spec_slot(#[trigger] self.table@[y].key) by {
                        assert(spec_slot(self.table@[x].key) == spec_slot(old(self).table@[x].key));
                        assert(spec_slot(self.table@[y].key) == spec_slot(old(self).table@[y].key));
                    }
                    assert(has_slot(old(self).entries(), spec_slot(canon)));
                }
                return;
            }
            i = i + 1;
        }
        let mut b = Biflow { key: canon, fwd_octets: 0, rev_octets: 0, fwd_packets: 0, rev_packets: 0 };
        if is_forward {
            b.fwd_octets = rec.octets;
            b.fwd_packets = rec.packets;
        } else {
            b.rev_octets = rec.octets;
            b.rev_packets = rec.packets;
        }
        self.table.push(b);
        proof {
            assert(!has_slot(old(self).entries(), spec_slot(canon)));
            assert(b == spec_fold_in(spec_empty_biflow(canon), *rec, is_forward));
        }
    }

    /// The paired conversations.
    pub fn biflows(&self) -> (s: &[Biflow])
        ensures
            s@ == self.entries(),
    {
        self.table.as_slice()
    }
}

/// Two directions of one conversation land in one biflow: observing a flow and
/// then its mirror image leaves a single entry holding both sides.
pub proof fn lemma_mirror_flows_pair(a: FlowRecord, b: FlowRecord)
    requires
        b.key == crate::flow::dir::spec_reverse(a.key),
    ensures
        spec_slot(spec_canonicalize(a.key).key) == spec_slot(spec_canonicalize(b.key).key),
{
}

} // verus!
