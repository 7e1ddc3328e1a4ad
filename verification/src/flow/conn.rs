//! Connection registry and the pending-request queue.
//!
//! Connections are addressed by [`Handle`]. Each connection owns a small
//! scratch buffer used to stage the reply for the request currently in flight.
//! Requests that cannot be serviced immediately are parked on a queue and
//! drained by `PROCESS_QUEUE`; a request whose connection was reset in the
//! meantime no longer resolves and is dropped.

use vstd::prelude::*;

use crate::error::{Error, Kind};

verus! {

/// A stable reference to a connection. Handles are issued from a counter, so
/// a handle to a reset connection does not resolve to a later one.
#[derive(Debug, Clone, Copy, PartialEq, Eq, Structural)]
pub struct Handle {
    pub serial: u64,
}

/// A single connection's mutable state.
pub struct Connection {
    pub id: u32,
    pub scratch: Vec<u8>,
    pub requests_served: u64,
    pub reset: bool,
}

/// The content of a connection.
pub struct ConnSpec {
    pub id: u32,
    pub scratch: Seq<u8>,
    pub served: u64,
}

pub open spec fn conn_view(c: &Connection) -> ConnSpec {
    ConnSpec { id: c.id, scratch: c.scratch@, served: c.requests_served }
}

impl Connection {
    fn new(id: u32, scratch_len: usize) -> (c: Connection)
        ensures
            c.id == id,
            c.scratch@ == Seq::new(scratch_len as nat, |i: int| 0u8),
            c.requests_served == 0,
            !c.reset,
    {
        let mut scratch: Vec<u8> = Vec::new();
        let mut i: usize = 0;
        while i < scratch_len
            invariant
                i <= scratch_len,
                scratch@ == Seq::new(i as nat, |k: int| 0u8),
            decreases scratch_len - i,
        {
            scratch.push(0);
            i = i + 1;
            assert(scratch@ =~= Seq::new(i as nat, |k: int| 0u8));
        }
        Connection { id, scratch, requests_served: 0, reset: false }
    }
}

struct Slot {
    serial: u64,
    conn: Connection,
}

struct PendingRequest {
    conn: Handle,
    opcode: u16,
    payload: Vec<u8>,
}

/// A parked request: target serial, opcode, payload.
pub type ReqSpec = (u64, u16, Seq<u8>);

/// The live connections (serial, content) plus the served/dropped tallies.
pub struct ConnState {
    pub conns: Seq<(u64, ConnSpec)>,
    pub processed: u64,
    pub dropped: u64,
}

pub open spec fn sat_inc(x: u64) -> u64 {
    if x == u64::MAX { x } else { (x + 1) as u64 }
}

/// The first connection at or after `from` holding `serial`.
pub open spec fn find_serial(cs: Seq<(u64, ConnSpec)>, serial: u64, from: int) -> Option<int>
    decreases cs.len() - from,
{
    if from < 0 || from >= cs.len() {
        None
    } else if cs[from].0 == serial {
        Some(from)
    } else {
        find_serial(cs, serial, from + 1)
    }
}

/// A scratch buffer after staging a reply: the payload's prefix is copied in
/// (as much as fits) and the first byte is overwritten with the opcode's low byte.
proof fn lemma_find_serial(cs: Seq<(u64, ConnSpec)>, serial: u64, from: int)
    requires
        from >= 0,
    ensures
        find_serial(cs, serial, from) matches Some(k) ==> from <= k < cs.len() && cs[k].0 == serial,
        find_serial(cs, serial, from) is None ==> forall|k: int| from <= k < cs.len() ==> cs[k].0 != serial,
    decreases cs.len() - from,
{
    if from < cs.len() {
        lemma_find_serial(cs, serial, from + 1);
    }
}

pub open spec fn spec_stage(scratch: Seq<u8>, opcode: u16, payload: Seq<u8>) -> Seq<u8> {
    let n = if payload.len() < scratch.len() { payload.len() } else { scratch.len() };
    (payload.take(n as int) + scratch.skip(n as int)).update(0, (opcode % 256) as u8)
}

pub open spec fn spec_apply_req(st: ConnState, r: ReqSpec) -> ConnState {
    match find_serial(st.conns, r.0, 0) {
        Some(k) => ConnState {
            conns: st.conns.update(
                k,
                (st.conns[k].0, ConnSpec {
                    id: st.conns[k].1.id,
                    scratch: spec_stage(st.conns[k].1.scratch, r.1, r.2),
                    served: sat_inc(st.conns[k].1.served),
                }),
            ),
            processed: sat_inc(st.processed),
            dropped: st.dropped,
        },
        None => ConnState { conns: st.conns, processed: st.processed, dropped: sat_inc(st.dropped) },
    }
}

/// Serving the requests in queue order.
pub open spec fn spec_apply_all(st: ConnState, rs: Seq<ReqSpec>) -> ConnState
    decreases rs.len(),
{
    if rs.len() == 0 {
        st
    } else {
        spec_apply_req(spec_apply_all(st, rs.drop_last()), rs.last())
    }
}

pub open spec fn has_id(cs: Seq<(u64, ConnSpec)>, id: u32) -> bool {
    exists|k: int| 0 <= k < cs.len() && cs[k].1.id == id
}

/// `after` is `before` with connection `id` opened: a new connection (zeroed
/// scratch, nothing served) under the next serial, or, if `id` is live,
/// nothing changed. The queue and the tallies stay.
pub open spec fn conn_opened(before: ConnRegistry, after: ConnRegistry, id: u32) -> bool {
    &&& after.wf()
    &&& after.pending() == before.pending()
    &&& after.spec_stats() == before.spec_stats()
    &&& after.spec_scratch_len() == before.spec_scratch_len()
    &&& if has_id(before.live(), id) {
        after.live() == before.live() && after.spec_next_serial() == before.spec_next_serial()
    } else {
        &&& after.live() == before.live().push(
            (
                before.spec_next_serial(),
                ConnSpec { id, scratch: Seq::new(before.spec_scratch_len() as nat, |i: int| 0u8), served: 0 },
            ),
        )
        &&& after.spec_next_serial() == sat_inc(before.spec_next_serial())
    }
}

/// `after` is `before` with connection `id` removed if it was live; the
/// queue, the tallies and the serial counter stay.
pub open spec fn conn_was_reset(before: ConnRegistry, after: ConnRegistry, id: u32) -> bool {
    &&& after.wf()
    &&& after.pending() == before.pending()
    &&& after.spec_stats() == before.spec_stats()
    &&& after.spec_scratch_len() == before.spec_scratch_len()
    &&& after.spec_next_serial() == before.spec_next_serial()
    &&& has_id(before.live(), id) ==> exists|k: int|
        0 <= k < before.live().len() && before.live()[k].1.id == id && after.live() == before.live().remove(k)
    &&& !has_id(before.live(), id) ==> after.live() == before.live()
}

/// `after` is `before` with a request for connection `id` queued: it
/// succeeds when `id` is live and the queue holds at most 4096 requests, and
/// then parks `(serial, opcode, payload)`; otherwise nothing changes and the
/// error says which.
pub open spec fn conn_enqueued(
    before: ConnRegistry,
    after: ConnRegistry,
    id: u32,
    opcode: u16,
    payload: Seq<u8>,
    res: Result<(), Error>,
) -> bool {
    &&& after.wf()
    &&& after.live() == before.live()
    &&& after.spec_stats() == before.spec_stats()
    &&& after.spec_scratch_len() == before.spec_scratch_len()
    &&& after.spec_next_serial() == before.spec_next_serial()
    &&& match res {
        Ok(_) => has_id(before.live(), id) && before.pending().len() <= 4096 && exists|k: int|
            0 <= k < before.live().len() && before.live()[k].1.id == id && after.pending() == before.pending().push(
                (before.live()[k].0, opcode, payload),
            ),
        Err(e) => after.pending() == before.pending() && if !has_id(before.live(), id) {
            e.kind == Kind::Unresolved
        } else {
            before.pending().len() > 4096 && e.kind == Kind::Limit
        },
    }
}

/// `after` is `before` with its queue drained: each parked request served in
/// order if its connection is still live, dropped otherwise.
pub open spec fn queue_drained(before: ConnRegistry, after: ConnRegistry) -> bool {
    let st = spec_apply_all(
        ConnState { conns: before.live(), processed: before.spec_stats().0, dropped: before.spec_stats().1 },
        before.pending(),
    );
    &&& after.wf()
    &&& after.pending() == Seq::<ReqSpec>::empty()
    &&& after.spec_scratch_len() == before.spec_scratch_len()
    &&& after.spec_next_serial() == before.spec_next_serial()
    &&& after.live() == st.conns
    &&& after.spec_stats() == (st.processed, st.dropped)
}

pub struct ConnRegistry {
    conns: Vec<Slot>,
    queue: Vec<PendingRequest>,
    scratch_len: usize,
    processed: u64,
    dropped: u64,
    next_serial: u64,
}

impl ConnRegistry {
    /// Connection ids are unique and every scratch buffer has room for the
    /// opcode byte.
    pub closed spec fn wf(&self) -> bool {
        &&& self.scratch_len >= 64
        &&& forall|i: int, j: int|
            0 <= i < j < self.conns@.len() ==> (#[trigger] self.conns@[i]).conn.id != (
            #[trigger] self.conns@[j]).conn.id
        &&& forall|i: int| 0 <= i < self.conns@.len() ==> (#[trigger] self.conns@[i]).conn.scratch@.len() >= 1
    }

    pub closed spec fn live(&self) -> Seq<(u64, ConnSpec)> {
        self.conns@.map_values(|s: Slot| (s.serial, conn_view(&s.conn)))
    }

    pub closed spec fn pending(&self) -> Seq<ReqSpec> {
        self.queue@.map_values(|r: PendingRequest| (r.conn.serial, r.opcode, r.payload@))
    }

    pub closed spec fn spec_scratch_len(&self) -> usize {
        self.scratch_len
    }

    pub closed spec fn spec_next_serial(&self) -> u64 {
        self.next_serial
    }

    pub closed spec fn spec_stats(&self) -> (u64, u64) {
        (self.processed, self.dropped)
    }

    pub fn new(scratch_len: usize) -> (r: ConnRegistry)
        ensures
            r.wf(),
            r.live() == Seq::<(u64, ConnSpec)>::empty(),
            r.pending() == Seq::<ReqSpec>::empty(),
            r.spec_scratch_len() == if scratch_len < 64 { 64 } else { scratch_len },
            r.spec_stats() == (0u64, 0u64),
            r.spec_next_serial() == 0,
    {
        let r = ConnRegistry {
            conns: Vec::new(),
            queue: Vec::new(),
            scratch_len: if scratch_len < 64 { 64 } else { scratch_len },
            processed: 0,
            dropped: 0,
            next_serial: 0,
        };
        assert(r.live() =~= Seq::<(u64, ConnSpec)>::empty());
        assert(r.pending() =~= Seq::<ReqSpec>::empty());
        r
    }

    fn find_id(&self, id: u32) -> (r: Option<usize>)
        ensures
            match r {
                Some(k) => k < self.live().len() && self.live()[k as int].1.id == id,
                None => !has_id(self.live(), id),
            },
    {
        let mut k: usize = 0;
        while k < self.conns.len()
            invariant
                k <= self.conns@.len(),
                forall|j: int| 0 <= j < k ==> (#[trigger] self.conns@[j]).conn.id != id,
            decreases self.conns@.len() - k,
        {
            if self.conns[k].conn.id == id {
                return Some(k);
            }
            k = k + 1;
        }
        proof {
            assert forall|j: int| 0 <= j < self.live().len() implies (#[trigger] self.live()[j]).1.id != id by {
                assert(self.conns@[j].conn.id != id);
            }
        }
        None
    }

    /// Open connection `id`, or return the handle of the live one.
    pub fn open(&mut self, id: u32) -> (h: Handle)
        requires
            old(self).wf(),
        ensures
            conn_opened(*old(self), *final(self), id),
            final(self).wf(),
            final(self).pending() == old(self).pending(),
            final(self).spec_stats() == old(self).spec_stats(),
            final(self).spec_scratch_len() == old(self).spec_scratch_len(),
            if has_id(old(self).live(), id) {
                exists|k: int|
                    0 <= k < old(self).live().len() && old(self).live()[k].1.id == id && h.serial == old(
                        self,
                    ).live()[k].0 && final(self).live() == old(self).live() && final(self).spec_next_serial()
                        == old(self).spec_next_serial()
            } else {
                h.serial == old(self).spec_next_serial() && final(self).live() == old(self).live().push(
                    (
                        old(self).spec_next_serial(),
                        ConnSpec {
                            id,
                            scratch: Seq::new(old(self).spec_scratch_len() as nat, |i: int| 0u8),
                            served: 0,
                        },
                    ),
                ) && final(self).spec_next_serial() == sat_inc(old(self).spec_next_serial())
            },
    {
        match self.find_id(id) {
            Some(k) => Handle { serial: self.conns[k].serial },
            None => {
                let serial = self.next_serial;
                let conn = Connection::new(id, self.scratch_len);
                self.conns.push(Slot { serial, conn });
                self.next_serial = if self.next_serial == u64::MAX { u64::MAX } else { self.next_serial + 1 };
                proof {
                    assert(self.live() =~= old(self).live().push(
                        (serial, ConnSpec { id, scratch: Seq::new(self.scratch_len as nat, |i: int| 0u8), served: 0 }),
                    ));
                    assert forall|i: int, j: int| 0 <= i < j < self.conns@.len() implies (
                    #[trigger] self.conns@[i]).conn.id != (#[trigger] self.conns@[j]).conn.id by {
                        if j == self.conns@.len() - 1 {
                            assert(old(self).live()[i].1.id == self.conns@[i].conn.id);
                        }
                    }
                }
                Handle { serial }
            },
        }
    }

    pub fn live_count(&self) -> (n: usize)
        ensures
            n == self.live().len(),
    {
        self.conns.len()
    }

    pub fn queued(&self) -> (n: usize)
        ensures
            n == self.pending().len(),
    {
        self.queue.len()
    }

    /// Reset a connection: remove it and free its state. Requests queued for it
    /// are discarded when the queue is drained.
    pub fn reset(&mut self, id: u32) -> (b: bool)
        requires
            old(self).wf(),
        ensures
            conn_was_reset(*old(self), *final(self), id),
            final(self).wf(),
            b == has_id(old(self).live(), id),
            final(self).pending() == old(self).pending(),
            final(self).spec_stats() == old(self).spec_stats(),
            final(self).spec_scratch_len() == old(self).spec_scratch_len(),
            final(self).spec_next_serial() == old(self).spec_next_serial(),
            b ==> exists|k: int|
                0 <= k < old(self).live().len() && old(self).live()[k].1.id == id && final(self).live()
                    == old(self).live().remove(k),
            !b ==> final(self).live() == old(self).live(),
    {
        match self.find_id(id) {
            Some(k) => {
                self.conns.remove(k);
                proof {
                    assert(self.live() =~= old(self).live().remove(k as int));
                    assert forall|i: int, j: int| 0 <= i < j < self.conns@.len() implies (
                    #[trigger] self.conns@[i]).conn.id != (#[trigger] self.conns@[j]).conn.id by {
                        let oi = if i < k { i } else { i + 1 };
                        let oj = if j < k { j } else { j + 1 };
                        assert(self.conns@[i] == old(self).conns@[oi]);
                        assert(self.conns@[j] == old(self).conns@[oj]);
                    }
                    assert forall|i: int| 0 <= i < self.conns@.len() implies (
                    #[trigger] self.conns@[i]).conn.scratch@.len() >= 1 by {
                        let oi = if i < k { i } else { i + 1 };
                        assert(self.conns@[i] == old(self).conns@[oi]);
                    }
                }
                true
            },
            None => false,
        }
    }

    /// Enqueue a request against connection `id`.
    pub fn enqueue(&mut self, id: u32, opcode: u16, payload: &[u8]) -> (res: Result<(), Error>)
        requires
            old(self).wf(),
        ensures
            conn_enqueued(*old(self), *final(self), id, opcode, payload@, res),
            final(self).wf(),
            final(self).live() == old(self).live(),
            final(self).spec_stats() == old(self).spec_stats(),
            final(self).spec_scratch_len() == old(self).spec_scratch_len(),
            final(self).spec_next_serial() == old(self).spec_next_serial(),
            match res {
                Ok(_) => has_id(old(self).live(), id) && old(self).pending().len() <= 4096 && exists|k: int|
                    0 <= k < old(self).live().len() && old(self).live()[k].1.id == id && final(self).pending()
                        == old(self).pending().push((old(self).live()[k].0, opcode, payload@)),
                Err(e) => final(self).pending() == old(self).pending() && if !has_id(old(self).live(), id) {
                    e.kind == Kind::Unresolved
                } else {
                    old(self).pending().len() > 4096 && e.kind == Kind::Limit
                },
            },
    {
        let k = match self.find_id(id) {
            Some(k) => k,
            None => return Err(Error::unresolved("request for unknown connection")),
        };
        if self.queue.len() > 4096 {
            return Err(Error::limit("request queue full"));
        }
        let conn = Handle { serial: self.conns[k].serial };
        let mut body: Vec<u8> = Vec::new();
        let mut i: usize = 0;
        while i < payload.len()
            invariant
                i <= payload@.len(),
                body@ == payload@.take(i as int),
            decreases payload@.len() - i,
        {
            body.push(payload[i]);
            i = i + 1;
            assert(body@ =~= payload@.take(i as int));
        }
        assert(payload@.take(payload@.len() as int) =~= payload@);
        self.queue.push(PendingRequest { conn, opcode, payload: body });
        assert(self.pending() =~= old(self).pending().push((conn.serial, opcode, payload@)));
        Ok(())
    }

    fn locate(&self, serial: u64) -> (r: Option<usize>)
        ensures
            r == (match find_serial(self.live(), serial, 0) {
                Some(k) => Some(k as usize),
                None => None::<usize>,
            }),
            r matches Some(k) ==> k < self.live().len() && find_serial(self.live(), serial, 0) == Some(k as int),
            r is None ==> find_serial(self.live(), serial, 0) is None,
    {
        proof { lemma_find_serial(self.live(), serial, 0); }
        let mut k: usize = 0;
        while k < self.conns.len()
            invariant
                k <= self.conns@.len(),
                find_serial(self.live(), serial, 0) == find_serial(self.live(), serial, k as int),
            decreases self.conns@.len() - k,
        {
            if self.conns[k].serial == serial {
                return Some(k);
            }
            k = k + 1;
        }
        None
    }

    /// Drain the queue, servicing each request whose connection is still live.
    pub fn process_queue(&mut self)
        requires
            old(self).wf(),
        ensures
            queue_drained(*old(self), *final(self)),
            final(self).wf(),
            final(self).pending() == Seq::<ReqSpec>::empty(),
            final(self).spec_scratch_len() == old(self).spec_scratch_len(),
            final(self).spec_next_serial() == old(self).spec_next_serial(),
            ({
                let st = spec_apply_all(
                    ConnState { conns: old(self).live(), processed: old(self).spec_stats().0, dropped: old(self).spec_stats().1 },
                    old(self).pending(),
                );
                final(self).live() == st.conns && final(self).spec_stats() == (st.processed, st.dropped)
            }),
    {
        let ghost reqs = self.pending();
        let ghost init = ConnState { conns: self.live(), processed: self.processed, dropped: self.dropped };
        let mut i: usize = 0;
        while i < self.queue.len()
            invariant
                i <= self.queue@.len(),
                self.wf(),
                self.pending() == reqs,
                reqs == old(self).pending(),
                init == (ConnState { conns: old(self).live(), processed: old(self).processed, dropped: old(self).dropped }),
                self.scratch_len == old(self).scratch_len,
                self.next_serial == old(self).next_serial,
                ({
                    let st = spec_apply_all(init, reqs.take(i as int));
                    self.live() == st.conns && self.processed == st.processed && self.dropped == st.dropped
                }),
            decreases self.queue@.len() - i,
        {
            let serial = self.queue[i].conn.serial;
            let opcode = self.queue[i].opcode;
            let ghost before = spec_apply_all(init, reqs.take(i as int));
            proof {
                assert(reqs.take(i + 1).drop_last() =~= reqs.take(i as int));
                assert(reqs.take(i + 1).last() == reqs[i as int]);
            }
            match self.locate(serial) {
                Some(k) => {
                    let ghost pre = self.conns@;
                    let mut slot = self.conns.remove(k);
                    let ghost sc0 = slot.conn.scratch@;
                    let plen = self.queue[i].payload.len();
                    let n = if plen < slot.conn.scratch.len() { plen } else { slot.conn.scratch.len() };
                    let mut j: usize = 0;
                    while j < n
                        invariant
                            j <= n,
                            n <= slot.conn.scratch@.len(),
                            n <= self.queue@[i as int].payload@.len(),
                            i < self.queue@.len(),
                            slot.conn.scratch@.len() == sc0.len(),
                            slot.serial == pre[k as int].serial,
                            slot.conn.id == pre[k as int].conn.id,
                            slot.conn.requests_served == pre[k as int].conn.requests_served,
                            slot.conn.scratch@ == self.queue@[i as int].payload@.take(j as int) + sc0.skip(j as int),
                        decreases n - j,
                    {
                        let b = self.queue[i].payload[j];
                        slot.conn.scratch.set(j, b);
                        j = j + 1;
                        assert(slot.conn.scratch@ =~= self.queue@[i as int].payload@.take(j as int) + sc0.skip(j as int));
                    }
                    slot.conn.requests_served = if slot.conn.requests_served == u64::MAX {
                        u64::MAX
                    } else {
                        slot.conn.requests_served + 1
                    };
                    slot.conn.scratch.set(0, (opcode % 256) as u8);
                    self.conns.insert(k, slot);
                    self.processed = if self.processed == u64::MAX { u64::MAX } else { self.processed + 1 };
                    proof {
                        assert(self.conns@ =~= pre.update(k as int, slot));
                        assert(pre[k as int].conn.scratch@ == sc0);
                        assert(before.conns[k as int].1.scratch == sc0);
                        assert(reqs[i as int].2 == self.queue@[i as int].payload@);
                        assert(slot.conn.scratch@ =~= spec_stage(sc0, opcode, reqs[i as int].2));
                        assert(before.conns == pre.map_values(|s: Slot| (s.serial, conn_view(&s.conn))));
                        assert(before.conns[k as int].0 == pre[k as int].serial);
                        assert(before.conns[k as int].1.served == pre[k as int].conn.requests_served);
                        assert(find_serial(before.conns, serial, 0) == Some(k as int));
                        assert(reqs[i as int].0 == serial && reqs[i as int].1 == opcode);
                        assert(slot.serial == pre[k as int].serial);
                        assert(slot.conn.id == pre[k as int].conn.id);
                        assert(slot.conn.requests_served == sat_inc(pre[k as int].conn.requests_served));
                        assert(self.live()[k as int] == (before.conns[k as int].0, ConnSpec {
                                id: before.conns[k as int].1.id,
                                scratch: spec_stage(before.conns[k as int].1.scratch, opcode, reqs[i as int].2),
                                served: sat_inc(before.conns[k as int].1.served),
                            }));
                        assert(self.live() =~= before.conns.update(
                            k as int,
                            (before.conns[k as int].0, ConnSpec {
                                id: before.conns[k as int].1.id,
                                scratch: spec_stage(before.conns[k as int].1.scratch, opcode, reqs[i as int].2),
                                served: sat_inc(before.conns[k as int].1.served),
                            }),
                        ));
                        assert forall|x: int, y: int| 0 <= x < y < self.conns@.len() implies (
                        #[trigger] self.conns@[x]).conn.id != (#[trigger] self.conns@[y]).conn.id by {
                            assert(self.live()[x].1.id == before.conns[x].1.id);
                            assert(self.live()[y].1.id == before.conns[y].1.id);
                        }
                    }
                },
                None => {
                    self.dropped = if self.dropped == u64::MAX { u64::MAX } else { self.dropped + 1 };
                },
            }
            i = i + 1;
        }
        self.queue.clear();
        proof {
            assert(reqs.take(reqs.len() as int) =~= reqs);
            assert(self.pending() =~= Seq::<ReqSpec>::empty());
        }
    }

    /// `(processed, dropped)` request tallies.
    pub fn stats(&self) -> (s: (u64, u64))
        ensures
            s == self.spec_stats(),
    {
        (self.processed, self.dropped)
    }
}

/// A request queued for a connection that is reset before the queue is
/// drained is dropped, not served: with no live connection holding its
/// handle's serial, draining a queue of just that request leaves every
/// connection untouched and counts one drop.
pub proof fn lemma_reset_request_dropped(st: ConnState, r: ReqSpec)
    requires
        find_serial(st.conns, r.0, 0) is None,
    ensures
        spec_apply_req(st, r) == (ConnState { conns: st.conns, processed: st.processed, dropped: sat_inc(st.dropped) }),
{
}

} // verus!
