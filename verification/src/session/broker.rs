//! The broker: routes many transport connections to per-source [`Session`]s.
//!
//! A single process terminates many exporters. Each is identified by a
//! transport id (a hash of its address/port). The broker keeps one [`Session`]
//! per transport id, creates them on demand and reaps the ones that have gone
//! quiet so a churn of short-lived exporters does not leak sessions without
//! bound.

use vstd::prelude::*;

use crate::config::{config_ok, Config};
use crate::error::{Error, Kind};
use crate::parser::frame::{spec_parse_all, FrameConfig};
use crate::io::framing::{batch_count, spec_next};
use crate::io::BatchReader;
use crate::metrics::{all_zero, sat_add, Metrics};
use crate::session::{fresh_session, limit_free, took_stream, Session};
use crate::util::LogicalClock;
use crate::wire::MAGIC;

verus! {

struct Entry {
    session: Session,
    last_seen: u64,
}

pub struct Broker {
    cfg: Config,
    sessions: Vec<(u32, Entry)>,
    clock: LogicalClock,
    idle_ticks: u64,
    soft_cap: usize,
    reaped: u64,
    routed: u64,
    aggregate: Metrics,
}

pub open spec fn sat_inc(n: u64) -> u64 {
    if n == u64::MAX { n } else { (n + 1) as u64 }
}

/// The saturating sum of `s`, added left to right.
pub open spec fn sat_sum(s: Seq<u64>) -> u64
    decreases s.len(),
{
    if s.len() == 0 {
        0
    } else {
        sat_add(sat_sum(s.drop_last()), s.last() as int)
    }
}

/// A session last seen at `last_seen` is not yet idle at `now`.
pub open spec fn live_at(last_seen: u64, now: u64, idle_ticks: u64) -> bool {
    (if now >= last_seen {
        now - last_seen
    } else {
        0
    }) < idle_ticks
}

/// The ids, in order, whose sessions are not idle at `now`.
pub open spec fn survivors(ids: Seq<u32>, seen: Seq<u64>, now: u64, idle_ticks: u64) -> Seq<u32>
    decreases ids.len(),
{
    if ids.len() == 0 || seen.len() == 0 {
        Seq::empty()
    } else {
        (if live_at(seen[0], now, idle_ticks) {
            seq![ids[0]]
        } else {
            Seq::empty()
        }) + survivors(ids.skip(1), seen.skip(1), now, idle_ticks)
    }
}

/// A stream frames cleanly and holds no message that can hit a resource
/// limit, so a session processes it without failing.
pub open spec fn stream_benign(s: Seq<u8>) -> bool {
    spec_parse_all(s, FrameConfig::spec_default()) matches Ok(st) && limit_free(st.msgs)
}

/// Every length prefix of a batch frames cleanly up to the end, and every
/// stream, its selector tag stripped, is benign.
pub open spec fn batch_benign(b: Seq<u8>, max_stream: int, default: u32) -> bool
    decreases b.len(),
{
    let (want, after) = spec_next(b, max_stream);
    match want {
        Ok(None) => true,
        Ok(Some(s)) => if after.len() < b.len() {
            stream_benign(spec_split_tag(default, s).1) && batch_benign(after, max_stream, default)
        } else {
            false
        },
        Err(_) => false,
    }
}

/// How many streams can be read from the front of a batch before its end or
/// its first framing error.
pub open spec fn batch_frames(b: Seq<u8>, max_stream: int) -> nat
    decreases b.len(),
{
    let (want, after) = spec_next(b, max_stream);
    match want {
        Ok(Some(_)) => if after.len() < b.len() {
            1 + batch_frames(after, max_stream)
        } else {
            0
        },
        _ => 0,
    }
}

/// `a + n`, clamped to `u64::MAX`.
pub open spec fn sat_plus(a: u64, n: nat) -> u64 {
    if a + n > u64::MAX { u64::MAX } else { (a + n) as u64 }
}

/// The transport id a batched stream is routed under and the stream itself:
/// a stream that does not start with the CVWP magic carries a selector byte
/// that is mixed into the id and stripped.
pub open spec fn spec_split_tag(default: u32, s: Seq<u8>) -> (u32, Seq<u8>) {
    if s.len() >= 4 && s.take(4) == MAGIC@ {
        (default, s)
    } else if s.len() > 0 {
        (default ^ (s[0] as u32), s.skip(1))
    } else {
        (default, s)
    }
}

impl Broker {
    pub closed spec fn wf(&self) -> bool {
        &&& config_ok(self.cfg)
        &&& self.soft_cap >= 1
        &&& forall|i: int| 0 <= i < self.sessions@.len() ==> (#[trigger] self.sessions@[i]).1.session.wf()
    }

    /// Transport ids with a live session, in creation order.
    pub closed spec fn ids(&self) -> Seq<u32> {
        self.sessions@.map_values(|e: (u32, Entry)| e.0)
    }

    /// The sessions, in the order of [`Broker::ids`].
    pub closed spec fn spec_sessions(&self) -> Seq<Session> {
        self.sessions@.map_values(|e: (u32, Entry)| e.1.session)
    }

    /// The configuration new sessions are made with.
    pub closed spec fn spec_config(&self) -> Config {
        self.cfg
    }

    /// Each session's counters, in session order.
    pub closed spec fn session_metrics(&self) -> Seq<Metrics> {
        self.sessions@.map_values(|e: (u32, Entry)| e.1.session.spec_metrics())
    }

    /// When each session was last routed to, in session order.
    pub closed spec fn spec_seen(&self) -> Seq<u64> {
        self.sessions@.map_values(|e: (u32, Entry)| e.1.last_seen)
    }

    pub closed spec fn spec_now(&self) -> u64 {
        self.clock.spec_now()
    }

    pub closed spec fn spec_reaped(&self) -> u64 {
        self.reaped
    }

    pub closed spec fn spec_routed(&self) -> u64 {
        self.routed
    }

    pub closed spec fn spec_idle_ticks(&self) -> u64 {
        self.idle_ticks
    }

    pub closed spec fn spec_soft_cap(&self) -> usize {
        self.soft_cap
    }

    pub fn new(cfg: Config) -> (b: Broker)
        requires
            config_ok(cfg),
        ensures
            b.wf(),
            b.ids() == Seq::<u32>::empty(),
            b.spec_reaped() == 0 && b.spec_routed() == 0,
            b.spec_idle_ticks() == cfg.flow_idle_ticks,
            b.spec_soft_cap() == 4096,
    {
        let idle_ticks = cfg.flow_idle_ticks;
        let b = Broker {
            cfg,
            sessions: Vec::new(),
            clock: LogicalClock::new(1),
            idle_ticks,
            soft_cap: 4096,
            reaped: 0,
            routed: 0,
            aggregate: Metrics::new(),
        };
        assert(b.ids() =~= Seq::<u32>::empty());
        b
    }

    /// Set the idle timeout and the session count at which reaping starts
    /// (at least 1).
    pub fn with_limits(self, idle_ticks: u64, soft_cap: usize) -> (b: Broker)
        requires
            self.wf(),
        ensures
            b.wf(),
            b.ids() == self.ids(),
            b.spec_idle_ticks() == idle_ticks,
            b.spec_soft_cap() == (if soft_cap < 1 { 1 } else { soft_cap }),
            b.spec_reaped() == self.spec_reaped() && b.spec_routed() == self.spec_routed(),
    {
        let mut b = self;
        b.idle_ticks = idle_ticks;
        b.soft_cap = if soft_cap < 1 { 1 } else { soft_cap };
        b
    }

    pub fn session_count(&self) -> (n: usize)
        ensures
            n == self.ids().len(),
    {
        self.sessions.len()
    }

    /// Sessions dropped for idleness (saturating).
    pub fn reaped(&self) -> (n: u64)
        ensures
            n == self.spec_reaped(),
    {
        self.reaped
    }

    /// Streams routed (saturating).
    pub fn routed(&self) -> (n: u64)
        ensures
            n == self.spec_routed(),
    {
        self.routed
    }

    fn find(&self, id: u32) -> (r: Option<usize>)
        ensures
            r matches Some(i) ==> i < self.sessions@.len() && self.sessions@[i as int].0 == id,
            r is None ==> !self.ids().contains(id),
    {
        let mut i: usize = 0;
        while i < self.sessions.len()
            invariant
                i <= self.sessions@.len(),
                forall|j: int| 0 <= j < i ==> (#[trigger] self.sessions@[j]).0 != id,
            decreases self.sessions@.len() - i,
        {
            if self.sessions[i].0 == id {
                return Some(i);
            }
            i = i + 1;
        }
        proof {
            if self.ids().contains(id) {
                let j = choose|j: int| 0 <= j < self.ids().len() && self.ids()[j] == id;
                assert(self.sessions@[j].0 == id);
            }
        }
        None
    }

    /// The session for `transport_id`, created if needed, stamped as seen now.
    fn touch(&mut self, transport_id: u32) -> (idx: usize)
        requires
            old(self).wf(),
        ensures
            final(self).wf(),
            idx < final(self).ids().len() && final(self).ids()[idx as int] == transport_id,
            final(self).ids() == (if old(self).ids().contains(transport_id) {
                old(self).ids()
            } else {
                old(self).ids().push(transport_id)
            }),
            final(self).spec_reaped() == old(self).spec_reaped(),
            final(self).spec_routed() == old(self).spec_routed(),
            final(self).spec_idle_ticks() == old(self).spec_idle_ticks(),
            final(self).spec_soft_cap() == old(self).spec_soft_cap(),
            final(self).spec_config() == old(self).spec_config(),
            old(self).ids().contains(transport_id) ==> idx < old(self).ids().len() && final(self).spec_sessions()
                == old(self).spec_sessions(),
            !old(self).ids().contains(transport_id) ==> idx == old(self).ids().len() && final(self).spec_sessions()
                == old(self).spec_sessions().push(final(self).spec_sessions()[idx as int]) && fresh_session(
                final(self).spec_sessions()[idx as int],
                old(self).spec_config(),
            ),
    {
        let now = self.clock.now();
        let ghost ids0 = self.ids();
        match self.find(transport_id) {
            Some(i) => {
                proof {
                    assert(ids0[i as int] == transport_id);
                    assert(ids0.contains(transport_id));
                }
                let mut e = self.sessions.remove(i);
                e.1.last_seen = now;
                self.sessions.insert(i, e);
                proof {
                    assert(self.ids() =~= ids0);
                    assert forall|k: int| 0 <= k < self.sessions@.len() implies (#[trigger] self.sessions@[k]).1.session.wf() by {
                        if k != i {
                            assert(self.sessions@[k] == old(self).sessions@[k]);
                        }
                    }
                }
                i
            },
            None => {
                let s = Session::with_config(self.cfg);
                self.sessions.push((transport_id, Entry { session: s, last_seen: now }));
                proof {
                    assert(self.ids() =~= ids0.push(transport_id));
                    assert forall|k: int| 0 <= k < self.sessions@.len() implies (#[trigger] self.sessions@[k]).1.session.wf() by {
                        if k < self.sessions@.len() - 1 {
                            assert(self.sessions@[k] == old(self).sessions@[k]);
                        }
                    }
                }
                self.sessions.len() - 1
            },
        }
    }

    /// Run `stream` through the session at `idx`.
    fn process_at(&mut self, idx: usize, stream: &[u8]) -> (res: Result<(), Error>)
        requires
            old(self).wf(),
            idx < old(self).ids().len(),
        ensures
            final(self).wf(),
            spec_parse_all(stream@, FrameConfig::spec_default()) matches Err((k, _)) ==> res is Err
                && res->Err_0.kind == k,
            spec_parse_all(stream@, FrameConfig::spec_default()) is Ok && res is Err ==> res->Err_0.kind
                == Kind::Limit,
            spec_parse_all(stream@, FrameConfig::spec_default()) matches Ok(st) && limit_free(st.msgs) ==> res is Ok,
            final(self).ids() == old(self).ids(),
            final(self).spec_reaped() == old(self).spec_reaped(),
            final(self).spec_routed() == old(self).spec_routed(),
            final(self).spec_idle_ticks() == old(self).spec_idle_ticks(),
            final(self).spec_soft_cap() == old(self).spec_soft_cap(),
            final(self).spec_config() == old(self).spec_config(),
            final(self).spec_now() == old(self).spec_now(),
            final(self).spec_sessions() == old(self).spec_sessions().update(
                idx as int,
                final(self).spec_sessions()[idx as int],
            ),
            took_stream(old(self).spec_sessions()[idx as int], final(self).spec_sessions()[idx as int], stream@, res),
    {
        let ghost ids0 = self.ids();
        let mut e = self.sessions.remove(idx);
        let res = e.1.session.process_stream(stream);
        self.sessions.insert(idx, e);
        proof {
            assert(self.ids() =~= ids0);
            assert forall|k: int| 0 <= k < self.sessions@.len() implies (#[trigger] self.sessions@[k]).1.session.wf() by {
                if k != idx {
                    assert(self.sessions@[k] == old(self).sessions@[k]);
                }
            }
        }
        res
    }

    /// Route one stream to the session for `transport_id` (created on first
    /// use), advancing the clock; then reap idle sessions. The result is the
    /// session's.
    pub fn route(&mut self, transport_id: u32, stream: &[u8]) -> (res: Result<(), Error>)
        requires
            old(self).wf(),
        ensures
            final(self).wf(),
            spec_parse_all(stream@, FrameConfig::spec_default()) matches Err((k, _)) ==> res is Err
                && res->Err_0.kind == k,
            spec_parse_all(stream@, FrameConfig::spec_default()) is Ok && res is Err ==> res->Err_0.kind
                == Kind::Limit,
            spec_parse_all(stream@, FrameConfig::spec_default()) matches Ok(st) && limit_free(st.msgs) ==> res is Ok,
            final(self).spec_routed() == sat_inc(old(self).spec_routed()),
            ({
                let grown = if old(self).ids().contains(transport_id) {
                    old(self).ids()
                } else {
                    old(self).ids().push(transport_id)
                };
                (old(self).spec_idle_ticks() == 0 || grown.len() < old(self).spec_soft_cap()) ==> final(self).ids()
                    == grown
            }),
            ({
                let grown = if old(self).ids().contains(transport_id) {
                    old(self).ids()
                } else {
                    old(self).ids().push(transport_id)
                };
                (old(self).spec_idle_ticks() == 0 || grown.len() < old(self).spec_soft_cap()) ==> exists|
                    i: int,
                    s0: Session,
                |
                    0 <= i < grown.len() && grown[i] == transport_id && (if old(self).ids().contains(transport_id) {
                        i < old(self).ids().len() && s0 == old(self).spec_sessions()[i]
                    } else {
                        i == old(self).ids().len() && fresh_session(s0, old(self).spec_config())
                    }) && #[trigger] took_stream(s0, final(self).spec_sessions()[i], stream@, res) && (forall|k: int|
                        0 <= k < old(self).ids().len() && k != i ==> final(self).spec_sessions()[k]
                            == old(self).spec_sessions()[k])
            }),
    {
        self.clock.advance(1);
        self.routed = if self.routed == u64::MAX { u64::MAX } else { self.routed + 1 };
        let ghost b0 = *self;
        let idx = self.touch(transport_id);
        let ghost b1 = *self;
        let result = self.process_at(idx, stream);
        let ghost b2 = *self;
        self.reap_idle();
        proof {
            let i = idx as int;
            let s0 = b1.spec_sessions()[i];
            if old(self).ids().contains(transport_id) {
                assert(b0.spec_sessions() == old(self).spec_sessions());
                assert(b0.ids() == old(self).ids());
            }
            assert(took_stream(s0, b2.spec_sessions()[i], stream@, result));
        }
        result
    }

    /// Route a buffer of length-prefixed streams. Every stream goes to the
    /// session of the first stream's transport id (its selector tag mixed in);
    /// between streams the clock jumps by the idle timeout and idle sessions
    /// are reaped. A framing error or a failing stream stops the batch.
    pub fn route_batch(&mut self, transport_id: u32, buf: &[u8]) -> (res: Result<(), Error>)
        requires
            old(self).wf(),
        ensures
            final(self).wf(),
            batch_count(buf@, 8388608) is None ==> res is Err,
            batch_benign(buf@, 8388608, transport_id) ==> res is Ok,
            res is Err ==> exists|k: nat|
                k <= batch_frames(buf@, 8388608) && final(self).spec_routed() == sat_plus(
                    old(self).spec_routed(),
                    k,
                ),
            res is Ok ==> batch_count(buf@, 8388608) is Some && final(self).spec_routed() == sat_plus(
                old(self).spec_routed(),
                batch_count(buf@, 8388608)->Some_0,
            ),
    {
        let mut reader = BatchReader::new(buf);
        let mut cached: Option<u32> = None;
        let ghost total = batch_count(buf@, 8388608);
        let ghost mut seen: nat = 0;
        loop
            invariant
                self.wf(),
                reader.wf(),
                reader.spec_max_stream() == 8388608,
                total == batch_count(buf@, 8388608),
                total == (match batch_count(reader.rest(), 8388608) {
                    Some(n) => Some(n + seen),
                    None => None::<nat>,
                }),
                self.spec_routed() == sat_plus(old(self).spec_routed(), seen),
                batch_benign(buf@, 8388608, transport_id) ==> batch_benign(reader.rest(), 8388608, transport_id),
                seen + batch_frames(reader.rest(), 8388608) == batch_frames(buf@, 8388608),
            decreases reader.rest().len(),
        {
            let ghost before = reader.rest();
            let stream = match reader.next_stream() {
                Ok(Some(s)) => s,
                Ok(None) => {
                    return Ok(());
                },
                Err(e) => {
                    proof {
                        assert(seen <= batch_frames(buf@, 8388608));
                    }
                    return Err(e);
                },
            };
            proof {
                assert(reader.rest().len() < before.len());
                seen = seen + 1;
            }
            let (tid, body) = split_tag(transport_id, stream);
            match cached {
                None => {
                    let _ = self.touch(tid);
                    cached = Some(tid);
                },
                Some(_) => {
                    self.clock.advance(self.idle_ticks);
                },
            }
            self.reap_idle();
            match cached {
                Some(id) => {
                    let rr = self.route_into(id, body);
                    if rr.is_err() {
                        proof {
                            assert(seen <= batch_frames(buf@, 8388608));
                            assert(self.spec_routed() == sat_plus(old(self).spec_routed(), seen));
                        }
                        return rr;
                    }
                },
                None => {},
            }
        }
    }

    /// Route into the session for `transport_id`, recreating it if it was
    /// reaped in between.
    fn route_into(&mut self, transport_id: u32, stream: &[u8]) -> (res: Result<(), Error>)
        requires
            old(self).wf(),
        ensures
            final(self).wf(),
            spec_parse_all(stream@, FrameConfig::spec_default()) is Ok && res is Err ==> res->Err_0.kind
                == Kind::Limit,
            spec_parse_all(stream@, FrameConfig::spec_default()) matches Ok(st) && limit_free(st.msgs) ==> res is Ok,
            final(self).spec_routed() == sat_inc(old(self).spec_routed()),
    {
        self.clock.advance(1);
        self.routed = if self.routed == u64::MAX { u64::MAX } else { self.routed + 1 };
        let idx = match self.find(transport_id) {
            Some(i) => i,
            None => self.touch(transport_id),
        };
        self.process_at(idx, stream)
    }

    /// Drop sessions that have been idle at least the idle timeout, but only
    /// once the session count has reached the soft cap (reaping has a cost).
    fn reap_idle(&mut self)
        requires
            old(self).wf(),
        ensures
            final(self).wf(),
            final(self).spec_routed() == old(self).spec_routed(),
            final(self).spec_idle_ticks() == old(self).spec_idle_ticks(),
            final(self).spec_soft_cap() == old(self).spec_soft_cap(),
            (old(self).spec_idle_ticks() == 0 || old(self).ids().len() < old(self).spec_soft_cap()) ==> final(self).ids()
                == old(self).ids() && final(self).spec_reaped() == old(self).spec_reaped() && final(self).spec_sessions()
                == old(self).spec_sessions(),
            final(self).ids().len() <= old(self).ids().len(),
            final(self).spec_now() == old(self).spec_now(),
            old(self).spec_idle_ticks() != 0 && old(self).ids().len() >= old(self).spec_soft_cap() ==> {
                &&& final(self).ids() == survivors(
                    old(self).ids(),
                    old(self).spec_seen(),
                    old(self).spec_now(),
                    old(self).spec_idle_ticks(),
                )
                &&& final(self).spec_reaped() == sat_plus(
                    old(self).spec_reaped(),
                    (old(self).ids().len() - final(self).ids().len()) as nat,
                )
            },
    {
        if self.idle_ticks == 0 || self.sessions.len() < self.soft_cap {
            return;
        }
        let now = self.clock.now();
        let mut kept: Vec<(u32, Entry)> = Vec::new();
        let mut old_sessions: Vec<(u32, Entry)> = Vec::new();
        std::mem::swap(&mut old_sessions, &mut self.sessions);
        let n = old_sessions.len();
        let ghost orig = old_sessions@;
        let ghost target = survivors(
            orig.map_values(|e: (u32, Entry)| e.0),
            orig.map_values(|e: (u32, Entry)| e.1.last_seen),
            now,
            self.idle_ticks,
        );
        proof {
            assert(kept@.map_values(|e: (u32, Entry)| e.0) =~= Seq::<u32>::empty());
        }
        while old_sessions.len() > 0
            invariant
                kept@.len() + old_sessions@.len() <= n,
                n == orig.len(),
                now == self.clock.spec_now(),
                self.clock == old(self).clock,
                target == survivors(
                    orig.map_values(|e: (u32, Entry)| e.0),
                    orig.map_values(|e: (u32, Entry)| e.1.last_seen),
                    now,
                    self.idle_ticks,
                ),
                kept@.map_values(|e: (u32, Entry)| e.0) + survivors(
                    old_sessions@.map_values(|e: (u32, Entry)| e.0),
                    old_sessions@.map_values(|e: (u32, Entry)| e.1.last_seen),
                    now,
                    self.idle_ticks,
                ) == target,
                self.reaped == sat_plus(old(self).reaped, (n - old_sessions@.len() - kept@.len()) as nat),
                forall|k: int| 0 <= k < kept@.len() ==> (#[trigger] kept@[k]).1.session.wf(),
                forall|k: int| 0 <= k < old_sessions@.len() ==> (#[trigger] old_sessions@[k]).1.session.wf(),
                config_ok(self.cfg),
                self.soft_cap >= 1,
                self.cfg == old(self).cfg,
                self.soft_cap == old(self).soft_cap,
                self.idle_ticks == old(self).idle_ticks,
                self.routed == old(self).routed,
            decreases old_sessions@.len(),
        {
            let ghost prev = old_sessions@;
            let mut e = old_sessions.remove(0);
            proof {
                let pi = prev.map_values(|e: (u32, Entry)| e.0);
                let ps = prev.map_values(|e: (u32, Entry)| e.1.last_seen);
                assert(pi.skip(1) =~= old_sessions@.map_values(|e: (u32, Entry)| e.0));
                assert(ps.skip(1) =~= old_sessions@.map_values(|e: (u32, Entry)| e.1.last_seen));
                assert(pi[0] == e.0 && ps[0] == e.1.last_seen);
            }
            let ghost k0 = kept@;
            let idle = if now >= e.1.last_seen { now - e.1.last_seen } else { 0 };
            if idle >= self.idle_ticks {
                e.1.session.teardown();
                self.reaped = if self.reaped == u64::MAX { u64::MAX } else { self.reaped + 1 };
            } else {
                kept.push(e);
                proof {
                    assert(kept@.map_values(|e: (u32, Entry)| e.0) =~= k0.map_values(|e: (u32, Entry)| e.0) + seq![
                        e.0,
                    ]);
                }
            }
        }
        proof {
            assert(old_sessions@.map_values(|e: (u32, Entry)| e.0) =~= Seq::<u32>::empty());
            assert(kept@.map_values(|e: (u32, Entry)| e.0) =~= target);
        }
        self.sessions = kept;
        assert(self.ids().len() == self.sessions@.len());
    }

    /// Fold each session's counters (messages, records, errors, flows opened)
    /// into the broker aggregate and return it.
    pub fn aggregate_metrics(&mut self) -> (m: &Metrics)
        requires
            old(self).wf(),
        ensures
            final(self).wf(),
            final(self).ids() == old(self).ids(),
            m.messages_seen == sat_sum(old(self).session_metrics().map_values(|x: Metrics| x.messages_seen)),
            m.records_decoded == sat_sum(old(self).session_metrics().map_values(|x: Metrics| x.records_decoded)),
            m.decode_errors == sat_sum(old(self).session_metrics().map_values(|x: Metrics| x.decode_errors)),
            m.flows_opened == sat_sum(old(self).session_metrics().map_values(|x: Metrics| x.flows_opened)),
            all_zero(Metrics { messages_seen: 0, records_decoded: 0, decode_errors: 0, flows_opened: 0, ..*m }),
    {
        let ghost ms = self.session_metrics();
        let mut agg = Metrics::new();
        let mut i: usize = 0;
        while i < self.sessions.len()
            invariant
                i <= self.sessions@.len(),
                ms == self.session_metrics(),
                ms.len() == self.sessions@.len(),
                agg.messages_seen == sat_sum(ms.take(i as int).map_values(|x: Metrics| x.messages_seen)),
                agg.records_decoded == sat_sum(ms.take(i as int).map_values(|x: Metrics| x.records_decoded)),
                agg.decode_errors == sat_sum(ms.take(i as int).map_values(|x: Metrics| x.decode_errors)),
                agg.flows_opened == sat_sum(ms.take(i as int).map_values(|x: Metrics| x.flows_opened)),
                all_zero(Metrics { messages_seen: 0, records_decoded: 0, decode_errors: 0, flows_opened: 0, ..agg }),
            decreases self.sessions@.len() - i,
        {
            let m = self.sessions[i].1.session.metrics();
            proof {
                let t = ms.take(i + 1);
                assert(t.drop_last() =~= ms.take(i as int));
                assert(t.last() == *m);
                assert(t.map_values(|x: Metrics| x.messages_seen).drop_last() =~= ms.take(i as int).map_values(|x: Metrics| x.messages_seen));
                assert(t.map_values(|x: Metrics| x.records_decoded).drop_last() =~= ms.take(i as int).map_values(|x: Metrics| x.records_decoded));
                assert(t.map_values(|x: Metrics| x.decode_errors).drop_last() =~= ms.take(i as int).map_values(|x: Metrics| x.decode_errors));
                assert(t.map_values(|x: Metrics| x.flows_opened).drop_last() =~= ms.take(i as int).map_values(|x: Metrics| x.flows_opened));
            }
            agg.messages_seen = agg.messages_seen.saturating_add(m.messages_seen);
            agg.records_decoded = agg.records_decoded.saturating_add(m.records_decoded);
            agg.decode_errors = agg.decode_errors.saturating_add(m.decode_errors);
            agg.flows_opened = agg.flows_opened.saturating_add(m.flows_opened);
            i = i + 1;
        }
        proof {
            assert(ms.take(ms.len() as int) =~= ms);
        }
        self.aggregate = agg;
        &self.aggregate
    }

    /// Tear down and drop every session.
    pub fn teardown(&mut self)
        requires
            old(self).wf(),
        ensures
            final(self).wf(),
            final(self).ids() == Seq::<u32>::empty(),
            final(self).spec_reaped() == old(self).spec_reaped(),
            final(self).spec_routed() == old(self).spec_routed(),
            final(self).spec_idle_ticks() == old(self).spec_idle_ticks(),
            final(self).spec_soft_cap() == old(self).spec_soft_cap(),
    {
        while self.sessions.len() > 0
            invariant
                self.wf(),
                self.reaped == old(self).reaped,
                self.routed == old(self).routed,
                self.idle_ticks == old(self).idle_ticks,
                self.soft_cap == old(self).soft_cap,
            decreases self.sessions@.len(),
        {
            let mut e = self.sessions.pop().unwrap();
            e.1.session.teardown();
        }
        assert(self.ids() =~= Seq::<u32>::empty());
    }
}

/// Split a batched stream into its transport id and body.
fn split_tag(default: u32, stream: &[u8]) -> (r: (u32, &[u8]))
    ensures
        (r.0, r.1@) == spec_split_tag(default, stream@),
{
    if stream.len() >= 4 && stream[0] == MAGIC[0] && stream[1] == MAGIC[1] && stream[2] == MAGIC[2] && stream[3]
        == MAGIC[3] {
        assert(stream@.take(4) =~= MAGIC@);
        (default, stream)
    } else if stream.len() > 0 {
        proof {
            if stream@.len() >= 4 && stream@.take(4) == MAGIC@ {
                assert(stream@.take(4)[0] == stream@[0] && stream@.take(4)[1] == stream@[1]);
                assert(stream@.take(4)[2] == stream@[2] && stream@.take(4)[3] == stream@[3]);
            }
        }
        let rest = &stream[1..stream.len()];
        assert(rest@ =~= stream@.skip(1));
        (default ^ (stream[0] as u32), rest)
    } else {
        (default, stream)
    }
}

} // verus!
