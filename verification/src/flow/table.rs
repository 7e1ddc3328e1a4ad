//! The flow table.
//!
//! Records are kept in insertion order, one per [`FlowKey`]. The order drives
//! capacity eviction (oldest first). Flows leave the table by capacity
//! eviction, idle sweep, template purge or flush; evicted, swept and flushed
//! flows are exported into an outbox the owner drains with
//! [`FlowTable::drain_exported`].

use vstd::prelude::*;

use crate::flow::key::FlowKey;
use crate::flow::record::{spec_accumulate, spec_bind, spec_new_record, FlowRecord, FlowState};

verus! {

pub open spec fn sat_add64(a: u64, b: u64) -> u64 {
    if a + b > u64::MAX { u64::MAX } else { (a + b) as u64 }
}

/// A record after one update: counters folded in, template bound, idle
/// deadline pushed out.
pub open spec fn spec_touch(r: FlowRecord, octets: u64, packets: u64, tid: u16, tgen: u32, fc: u16, now: u64, idle: u64) -> FlowRecord {
    FlowRecord { expire_at: sat_add64(now, idle), ..spec_bind(spec_accumulate(r, octets, packets, now), tid, tgen, fc) }
}

/// Whether a sweep at `now` expires `r`: its deadline passed and it has seen data.
pub open spec fn sweep_due(r: FlowRecord, now: u64) -> bool {
    now >= r.expire_at && r.state != FlowState::New
}

/// After an update at `now`, the flow's idle deadline is `now` plus the
/// idle timeout (clamped to `u64::MAX`), whether the flow is new or
/// existing; it was last seen at `now`, its counters grew by the record's
/// (wrapping) and by one record, and it keeps its key.
pub proof fn lemma_touch_deadline(
    r: FlowRecord,
    octets: u64,
    packets: u64,
    tid: u16,
    tgen: u32,
    fc: u16,
    now: u64,
    idle: u64,
)
    ensures
        ({
            let t = spec_touch(r, octets, packets, tid, tgen, fc, now, idle);
            &&& t.expire_at == (if now + idle > u64::MAX { u64::MAX as int } else { now + idle })
            &&& t.last_ms == now
            &&& t.key == r.key
            &&& t.octets == (r.octets + octets) % 0x1_0000_0000_0000_0000
            &&& t.packets == (r.packets + packets) % 0x1_0000_0000_0000_0000
            &&& t.records == (r.records + 1) % 0x1_0000_0000_0000_0000
            &&& t.template_id == tid && t.template_gen == tgen && t.bound_field_count == fc
        }),
{
}

pub open spec fn index_of(rs: Seq<FlowRecord>, key: FlowKey) -> Option<int> {
    if exists|i: int| 0 <= i < rs.len() && rs[i].key == key {
        Some(choose|i: int| 0 <= i < rs.len() && rs[i].key == key)
    } else {
        None
    }
}

/// The record `update` leaves for `key`: the existing flow (or a fresh one)
/// with the record's counters folded in and the template bound.
pub open spec fn touched_record(
    fs: Seq<FlowRecord>,
    key: FlowKey,
    octets: u64,
    packets: u64,
    tid: u16,
    tgen: u32,
    fc: u16,
    now: u64,
    idle: u64,
) -> FlowRecord {
    spec_touch(
        match index_of(fs, key) {
            Some(i) => fs[i],
            None => spec_new_record(key, now),
        },
        octets,
        packets,
        tid,
        tgen,
        fc,
        now,
        idle,
    )
}

/// The flows after `update`: the touched record in place, or appended, with
/// the oldest flow evicted when the table was full.
pub open spec fn flows_after_update(
    fs: Seq<FlowRecord>,
    cap: usize,
    key: FlowKey,
    octets: u64,
    packets: u64,
    tid: u16,
    tgen: u32,
    fc: u16,
    now: u64,
    idle: u64,
) -> Seq<FlowRecord> {
    let r = touched_record(fs, key, octets, packets, tid, tgen, fc, now, idle);
    match index_of(fs, key) {
        Some(i) => fs.update(i, r),
        None => if fs.len() < cap {
            fs.push(r)
        } else {
            fs.push(r).drop_first()
        },
    }
}

/// The flows a sweep at `now` keeps (all of them when idle expiry is off).
pub open spec fn flows_after_sweep(fs: Seq<FlowRecord>, now: u64, idle: u64) -> Seq<FlowRecord> {
    if idle == 0 {
        fs
    } else {
        fs.filter(|r: FlowRecord| !sweep_due(r, now))
    }
}

/// A sweep at `now` keeps exactly the flows that have not seen data yet or
/// whose idle deadline lies after `now`, in their order; with idle expiry off
/// it keeps every flow.
pub proof fn lemma_sweep_keeps(fs: Seq<FlowRecord>, now: u64, idle: u64)
    ensures
        forall|x: FlowRecord| #[trigger] flows_after_sweep(fs, now, idle).contains(x) <==> fs.contains(x) && (idle == 0
            || now < x.expire_at || x.state == FlowState::New),
        flows_after_sweep(fs, now, idle).len() <= fs.len(),
{
    let out = flows_after_sweep(fs, now, idle);
    if idle != 0 {
        let keep = |r: FlowRecord| !sweep_due(r, now);
        fs.filter_lemma(keep);
        assert forall|x: FlowRecord| #[trigger] out.contains(x) <==> fs.contains(x) && (now < x.expire_at
            || x.state == FlowState::New) by {
            if fs.contains(x) && (now < x.expire_at || x.state == FlowState::New) {
                let i = choose|i: int| 0 <= i < fs.len() && fs[i] == x;
                assert(keep(fs[i]));
                assert(fs.filter(keep).contains(fs[i]));
            }
            if out.contains(x) {
                assert(out == fs.filter(keep));
                fs.lemma_filter_contains_rev(keep, x);
            }
        }
    }
}

/// A flow updated at `t` has seen data, so a later sweep expires it exactly
/// once `now` reaches `t` plus the idle timeout (clamped to `u64::MAX`).
pub proof fn lemma_sweep_after_touch(
    r: FlowRecord,
    octets: u64,
    packets: u64,
    tid: u16,
    tgen: u32,
    fc: u16,
    t: u64,
    idle: u64,
    now: u64,
)
    ensures
        sweep_due(spec_touch(r, octets, packets, tid, tgen, fc, t, idle), now) <==> now >= (if t + idle > u64::MAX {
            u64::MAX as int
        } else {
            t + idle
        }),
{
    lemma_touch_deadline(r, octets, packets, tid, tgen, fc, t, idle);
}

pub struct FlowTable {
    records: Vec<FlowRecord>,
    capacity: usize,
    idle_ticks: u64,
    exported: Vec<FlowRecord>,
    created: u64,
    expired: u64,
    high_water: usize,
}

impl FlowTable {
    /// Keys are unique and the table never holds more than its capacity.
    pub closed spec fn wf(&self) -> bool {
        &&& self.capacity >= 1
        &&& self.records@.len() <= self.capacity
        &&& self.high_water >= self.records@.len()
        &&& forall|i: int, j: int|
            0 <= i < j < self.records@.len() ==> (#[trigger] self.records@[i]).key != (
            #[trigger] self.records@[j]).key
    }

    /// Live flows in insertion order.
    pub closed spec fn flows(&self) -> Seq<FlowRecord> {
        self.records@
    }

    /// Flows exported and not yet drained, in export order.
    pub closed spec fn outbox(&self) -> Seq<FlowRecord> {
        self.exported@
    }

    pub closed spec fn spec_capacity(&self) -> usize {
        self.capacity
    }

    pub closed spec fn spec_idle_ticks(&self) -> u64 {
        self.idle_ticks
    }

    pub closed spec fn spec_created(&self) -> u64 {
        self.created
    }

    pub closed spec fn spec_expired(&self) -> u64 {
        self.expired
    }

    pub closed spec fn spec_high_water(&self) -> usize {
        self.high_water
    }

    /// A table holding at most `capacity` flows (at least one) with the given
    /// idle timeout. `arena_chunk` is accepted for interface compatibility;
    /// records are stored in a vector.
    pub fn new(capacity: usize, idle_ticks: u64, arena_chunk: usize) -> (t: FlowTable)
        ensures
            t.wf(),
            t.flows() == Seq::<FlowRecord>::empty(),
            t.outbox() == Seq::<FlowRecord>::empty(),
            t.spec_capacity() == if capacity < 1 { 1 } else { capacity },
            t.spec_idle_ticks() == idle_ticks,
            t.spec_created() == 0 && t.spec_expired() == 0 && t.spec_high_water() == 0,
    {
        FlowTable {
            records: Vec::new(),
            capacity: if capacity < 1 { 1 } else { capacity },
            idle_ticks,
            exported: Vec::new(),
            created: 0,
            expired: 0,
            high_water: 0,
        }
    }

    pub fn len(&self) -> (n: usize)
        ensures
            n == self.flows().len(),
    {
        self.records.len()
    }

    pub fn is_empty(&self) -> (b: bool)
        ensures
            b == (self.flows().len() == 0),
    {
        self.records.len() == 0
    }

    pub fn created(&self) -> (n: u64)
        ensures
            n == self.spec_created(),
    {
        self.created
    }

    pub fn expired(&self) -> (n: u64)
        ensures
            n == self.spec_expired(),
    {
        self.expired
    }

    fn find(&self, key: &FlowKey) -> (r: Option<usize>)
        requires
            self.wf(),
        ensures
            match r {
                Some(i) => i < self.flows().len() && self.flows()[i as int].key == *key && index_of(self.flows(), *key)
                    == Some(i as int),
                None => index_of(self.flows(), *key) is None,
            },
    {
        let mut i: usize = 0;
        while i < self.records.len()
            invariant
                i <= self.records@.len(),
                self.wf(),
                forall|j: int| 0 <= j < i ==> (#[trigger] self.records@[j]).key != *key,
            decreases self.records@.len() - i,
        {
            if self.records[i].key == *key {
                proof {
                    let c = choose|x: int| 0 <= x < self.records@.len() && self.records@[x].key == *key;
                    if c != i {
                        assert(self.records@[c].key == self.records@[i as int].key);
                    }
                }
                return Some(i);
            }
            i = i + 1;
        }
        None
    }

    /// Update (or create) the flow for `key`, folding in the record's counters,
    /// and return the updated record. Creating a flow in a full table evicts
    /// (and exports) the oldest one.
    pub fn update(
        &mut self,
        key: FlowKey,
        octets: u64,
        packets: u64,
        template_id: u16,
        template_gen: u32,
        field_count: u16,
        now: u64,
    ) -> (r: FlowRecord)
        requires
            old(self).wf(),
        ensures
            final(self).wf(),
            final(self).spec_capacity() == old(self).spec_capacity(),
            final(self).spec_idle_ticks() == old(self).spec_idle_ticks(),
            final(self).flows() == flows_after_update(
                old(self).flows(),
                old(self).spec_capacity(),
                key,
                octets,
                packets,
                template_id,
                template_gen,
                field_count,
                now,
                old(self).spec_idle_ticks(),
            ),
            r == spec_touch(
                match index_of(old(self).flows(), key) {
                    Some(i) => old(self).flows()[i],
                    None => spec_new_record(key, now),
                },
                octets,
                packets,
                template_id,
                template_gen,
                field_count,
                now,
                old(self).spec_idle_ticks(),
            ),
            r.expire_at == (if now + old(self).spec_idle_ticks() > u64::MAX {
                u64::MAX as int
            } else {
                now + old(self).spec_idle_ticks()
            }),
            r.last_ms == now,
            r.key == key,
            match index_of(old(self).flows(), key) {
                Some(i) => final(self).flows() == old(self).flows().update(i, r) && final(self).outbox()
                    == old(self).outbox() && final(self).spec_created() == old(self).spec_created()
                    && final(self).spec_expired() == old(self).spec_expired(),
                None => final(self).spec_created() == sat_add64(old(self).spec_created(), 1) && if old(
                    self,
                ).flows().len() < old(self).spec_capacity() {
                    final(self).flows() == old(self).flows().push(r) && final(self).outbox() == old(
                        self,
                    ).outbox() && final(self).spec_expired() == old(self).spec_expired()
                } else {
                    final(self).flows() == old(self).flows().push(r).drop_first() && final(self).outbox()
                        == old(self).outbox().push(old(self).flows()[0]) && final(self).spec_expired()
                        == sat_add64(old(self).spec_expired(), 1)
                },
            },
    {
        proof {
            let base = match index_of(old(self).flows(), key) {
                Some(i) => old(self).flows()[i],
                None => spec_new_record(key, now),
            };
            lemma_touch_deadline(base, octets, packets, template_id, template_gen, field_count, now, self.idle_ticks);
            if let Some(i) = index_of(old(self).flows(), key) {
                assert(old(self).flows()[i].key == key);
            }
        }
        let expire_at = now.saturating_add(self.idle_ticks);
        match self.find(&key) {
            Some(i) => {
                let mut rec = self.records[i];
                rec.accumulate(octets, packets, now);
                rec.bind_template(template_id, template_gen, field_count);
                rec.expire_at = expire_at;
                self.records.set(i, rec);
                proof {
                    assert forall|a: int, b: int| 0 <= a < b < self.records@.len() implies (
                    #[trigger] self.records@[a]).key != (#[trigger] self.records@[b]).key by {
                        assert(self.records@[a].key == old(self).records@[a].key);
                        assert(self.records@[b].key == old(self).records@[b].key);
                    }
                }
                rec
            },
            None => {
                let mut rec = FlowRecord::new(key, now);
                rec.accumulate(octets, packets, now);
                rec.bind_template(template_id, template_gen, field_count);
                rec.expire_at = expire_at;
                self.records.push(rec);
                self.created = self.created.saturating_add(1);
                if self.records.len() > self.capacity {
                    let victim = self.records.remove(0);
                    self.exported.push(victim);
                    self.expired = self.expired.saturating_add(1);
                    proof {
                        assert(self.records@ =~= old(self).records@.push(rec).drop_first());
                    }
                }
                if self.records.len() > self.high_water {
                    self.high_water = self.records.len();
                }
                proof {
                    assert forall|a: int, b: int| 0 <= a < b < self.records@.len() implies (
                    #[trigger] self.records@[a]).key != (#[trigger] self.records@[b]).key by {
                        let s = old(self).records@.push(rec);
                        if old(self).records@.len() < self.capacity {
                            assert(self.records@ == s);
                            if b == s.len() - 1 {
                                assert(s[a].key == old(self).records@[a].key);
                            }
                        } else {
                            assert(self.records@[a] == s[a + 1]);
                            assert(self.records@[b] == s[b + 1]);
                            if b + 1 == s.len() - 1 {
                                assert(s[a + 1].key == old(self).records@[a + 1].key);
                            }
                        }
                    }
                }
                rec
            },
        }
    }

    /// Look up a flow without modifying it.
    pub fn get(&self, key: &FlowKey) -> (r: Option<&FlowRecord>)
        requires
            self.wf(),
        ensures
            match index_of(self.flows(), *key) {
                Some(i) => r == Some(&self.flows()[i]),
                None => r is None,
            },
    {
        match self.find(key) {
            Some(i) => Some(&self.records[i]),
            None => None,
        }
    }

    /// Expire (and export) every flow whose idle deadline has passed and that
    /// has seen data. A table with a zero idle timeout never sweeps.
    pub fn sweep(&mut self, now: u64)
        requires
            old(self).wf(),
        ensures
            final(self).wf(),
            final(self).spec_capacity() == old(self).spec_capacity(),
            final(self).spec_idle_ticks() == old(self).spec_idle_ticks(),
            final(self).spec_created() == old(self).spec_created(),
            final(self).spec_high_water() == old(self).spec_high_water(),
            final(self).flows() == flows_after_sweep(old(self).flows(), now, old(self).spec_idle_ticks()),
            old(self).spec_idle_ticks() == 0 ==> final(self).flows() == old(self).flows() && final(self).outbox()
                == old(self).outbox() && final(self).spec_expired() == old(self).spec_expired(),
            old(self).spec_idle_ticks() != 0 ==> {
                let gone = old(self).flows().filter(|r: FlowRecord| sweep_due(r, now));
                &&& final(self).flows() == old(self).flows().filter(|r: FlowRecord| !sweep_due(r, now))
                &&& final(self).outbox() == old(self).outbox() + gone
                &&& final(self).spec_expired() == sat_add64(old(self).spec_expired(), gone.len() as u64)
            },
    {
        if self.idle_ticks == 0 {
            return;
        }
        let ghost orig = self.records@;
        let mut kept: Vec<FlowRecord> = Vec::new();
        let mut i: usize = 0;
        let mut n: u64 = 0;
        let ghost ex0 = self.exported@;
        while i < self.records.len()
            invariant
                i <= self.records@.len(),
                self.records@ == orig,
                orig == old(self).records@,
                self.capacity == old(self).capacity,
                self.idle_ticks == old(self).idle_ticks,
                self.created == old(self).created,
                self.expired == old(self).expired,
                self.high_water == old(self).high_water,
                old(self).wf(),

                ex0 == old(self).exported@,
                kept@ == orig.take(i as int).filter(|r: FlowRecord| !sweep_due(r, now)),
                self.exported@ == ex0 + orig.take(i as int).filter(|r: FlowRecord| sweep_due(r, now)),
                n as int == orig.take(i as int).filter(|r: FlowRecord| sweep_due(r, now)).len(),
                n <= i,
            decreases self.records@.len() - i,
        {
            let r = self.records[i];
            proof {
                reveal_with_fuel(Seq::<_>::filter, 1);
                assert(orig.take(i + 1).drop_last() =~= orig.take(i as int));
            }
            if now >= r.expire_at && r.state != FlowState::New {
                self.exported.push(r);
                n = n + 1;
            } else {
                kept.push(r);
            }
            i = i + 1;
        }
        proof {
            assert(orig.take(orig.len() as int) =~= orig);
            lemma_filter_keys_unique(orig, |r: FlowRecord| !sweep_due(r, now));
        }
        self.records = kept;
        self.expired = self.expired.saturating_add(n);
    }

    /// Drop every flow bound to `template_id` (without exporting it).
    pub fn purge_template(&mut self, template_id: u16)
        requires
            old(self).wf(),
        ensures
            final(self).wf(),
            final(self).flows() == old(self).flows().filter(|r: FlowRecord| r.template_id != template_id),
            final(self).outbox() == old(self).outbox(),
            final(self).spec_capacity() == old(self).spec_capacity(),
            final(self).spec_idle_ticks() == old(self).spec_idle_ticks(),
            final(self).spec_created() == old(self).spec_created(),
            final(self).spec_expired() == old(self).spec_expired(),
            final(self).spec_high_water() == old(self).spec_high_water(),
    {
        let ghost orig = self.records@;
        let mut kept: Vec<FlowRecord> = Vec::new();
        let mut i: usize = 0;
        while i < self.records.len()
            invariant
                i <= self.records@.len(),
                self.records@ == orig,
                kept@ == orig.take(i as int).filter(|r: FlowRecord| r.template_id != template_id),
            decreases self.records@.len() - i,
        {
            let r = self.records[i];
            proof {
                reveal_with_fuel(Seq::<_>::filter, 1);
                assert(orig.take(i + 1).drop_last() =~= orig.take(i as int));
            }
            if r.template_id != template_id {
                kept.push(r);
            }
            i = i + 1;
        }
        proof {
            assert(orig.take(orig.len() as int) =~= orig);
            lemma_filter_keys_unique(orig, |r: FlowRecord| r.template_id != template_id);
        }
        self.records = kept;
    }

    /// Kept for interface compatibility: records live in an ordinary vector,
    /// so there is no arena to reclaim and the table is unchanged.
    pub fn abandon_arena(&mut self)
        ensures
            *final(self) == *old(self),
    {
    }

    /// Export and clear every flow, in insertion order.
    pub fn flush(&mut self)
        requires
            old(self).wf(),
        ensures
            final(self).wf(),
            final(self).flows() == Seq::<FlowRecord>::empty(),
            final(self).outbox() == old(self).outbox() + old(self).flows(),
            final(self).spec_capacity() == old(self).spec_capacity(),
            final(self).spec_idle_ticks() == old(self).spec_idle_ticks(),
            final(self).spec_created() == old(self).spec_created(),
            final(self).spec_expired() == old(self).spec_expired(),
            final(self).spec_high_water() == old(self).spec_high_water(),
    {
        let mut i: usize = 0;
        while i < self.records.len()
            invariant
                i <= self.records@.len(),
                self.records@ == old(self).records@,
                self.capacity == old(self).capacity,
                self.idle_ticks == old(self).idle_ticks,
                self.created == old(self).created,
                self.expired == old(self).expired,
                self.high_water == old(self).high_water,
                old(self).wf(),
                self.exported@ == old(self).exported@ + old(self).records@.take(i as int),
            decreases self.records@.len() - i,
        {
            let r = self.records[i];
            self.exported.push(r);
            i = i + 1;
            assert(old(self).records@.take(i as int) =~= old(self).records@.take(i - 1).push(r));
        }
        assert(old(self).records@.take(old(self).records@.len() as int) =~= old(self).records@);
        self.records.clear();
    }

    /// Take the exported flows, leaving the outbox empty.
    pub fn drain_exported(&mut self) -> (out: Vec<FlowRecord>)
        requires
            old(self).wf(),
        ensures
            final(self).wf(),
            out@ == old(self).outbox(),
            final(self).outbox() == Seq::<FlowRecord>::empty(),
            final(self).flows() == old(self).flows(),
            final(self).spec_capacity() == old(self).spec_capacity(),
            final(self).spec_idle_ticks() == old(self).spec_idle_ticks(),
            final(self).spec_created() == old(self).spec_created(),
            final(self).spec_expired() == old(self).spec_expired(),
            final(self).spec_high_water() == old(self).spec_high_water(),
    {
        let mut out: Vec<FlowRecord> = Vec::new();
        std::mem::swap(&mut out, &mut self.exported);
        out
    }

    /// The largest number of flows the table has held at once.
    pub fn arena_high_water(&self) -> (n: usize)
        ensures
            n == self.spec_high_water(),
    {
        self.high_water
    }
}

proof fn lemma_filter_keys_unique(s: Seq<FlowRecord>, p: spec_fn(FlowRecord) -> bool)
    requires
        forall|i: int, j: int| 0 <= i < j < s.len() ==> (#[trigger] s[i]).key != (#[trigger] s[j]).key,
    ensures
        forall|i: int, j: int|
            0 <= i < j < s.filter(p).len() ==> (#[trigger] s.filter(p)[i]).key != (#[trigger] s.filter(p)[j]).key,
        s.filter(p).len() <= s.len(),
    decreases s.len(),
{
    reveal_with_fuel(Seq::<_>::filter, 1);
    if s.len() > 0 {
        let t = s.drop_last();
        lemma_filter_keys_unique(t, p);
        assert(s.drop_last() == t);
        let ft = t.filter(p);
        if p(s.last()) {
            assert forall|i: int, j: int| 0 <= i < j < s.filter(p).len() implies (
            #[trigger] s.filter(p)[i]).key != (#[trigger] s.filter(p)[j]).key by {
                if j == s.filter(p).len() - 1 {
                    assert(ft.contains(ft[i]));
                    t.lemma_filter_contains_rev(p, ft[i]);
                    let k = choose|k: int| 0 <= k < t.len() && t[k] == ft[i];
                    assert(s[k] == t[k]);
                }
            }
        }
    }
}

/// The table never holds two flows with the same key, nor more than its capacity.
pub proof fn lemma_table_bounded(t: FlowTable)
    requires
        t.wf(),
    ensures
        t.flows().len() <= t.spec_capacity(),
        forall|i: int, j: int| 0 <= i < j < t.flows().len() ==> t.flows()[i].key != t.flows()[j].key,
{
}

} // verus!
