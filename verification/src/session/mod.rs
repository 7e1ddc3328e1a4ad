//! The session layer: the front door of the engine.
//!
//! A [`Session`] owns one instance of every subsystem and drives them from a
//! parsed message stream. It is the integration point where protocol state
//! accumulates: schemas and templates are registered, data records fold into
//! the flow table, fragments reassemble, and connection, stream and channel
//! messages drive their state machines.
//!
//! A session is single-threaded and cheap to create; a fresh one per input
//! keeps state from leaking between inputs.

pub mod broker;
pub mod decode;
pub mod limits;
pub mod router;

pub use broker::Broker;
pub use limits::{LimitTracker, Limits, Resource};
pub use router::Router;

use vstd::prelude::*;

use crate::config::{config_ok, Config};
use crate::error::{Error, Kind};
use crate::flow::table::{flows_after_sweep, flows_after_update};
use crate::flow::biflow::observed_into;
use crate::flow::record::spec_new_record;
use crate::flow::conn::{conn_enqueued, conn_opened, conn_was_reset, queue_drained};
use crate::flow::{BiflowPairer, ConnRegistry, FlowRecord, FlowTable};
use crate::metrics::{sat_add, sat_add_i, Metrics};
use crate::parser::frame::spec_parse_all;
use crate::parser::message::MessageSpec;
use crate::proto::spec_descriptor;
use crate::parser::{FrameConfig, FrameParser, Message};
use crate::reassembly::engine::{frag_added, fresh_reassembler, reassembly_fails, rebased};
use crate::reassembly::window::{window_placed, window_size};
use crate::reassembly::{Reassembler, Window};
use crate::schema::registry::SchemaRegistry;
use crate::schema::template::{without, Template, TemplateCache};
use crate::schema::{lemma_row_width_bound, row_width_of};
use crate::schema::FieldSpec;
use crate::util::{be16, be32, be64, copy_bytes, i32_of, ByteReader};
use crate::wire::{spec_from_code, MsgType};

verus! {

/// A columnar section: `count` rows of `stride` bytes. Its bytes are held
/// from the start of the region up to the last byte written; the rest of the
/// region reads as zero.
struct Section {
    serial: u64,
    count: u32,
    stride: u32,
    data: Vec<u8>,
}

impl View for Section {
    type V = (u64, u32, u32, Seq<u8>);

    closed spec fn view(&self) -> (u64, u32, u32, Seq<u8>) {
        (self.serial, self.count, self.stride, self.data@)
    }
}

/// Per-stream sliding-window plus read cursor, created on `STREAM_OPEN` /
/// `FLOW_OPEN` and torn down on timeout.
struct StreamCtx {
    window: Window,
    read_pos: usize,
}

pub struct Session {
    cfg: Config,
    clock: u64,
    opened: bool,
    session_id: u32,
    schemas: SchemaRegistry,
    templates: TemplateCache,
    flows: FlowTable,
    biflows: BiflowPairer,
    reasm: Vec<(u32, Reassembler)>,
    streams: Vec<(u32, StreamCtx)>,
    conns: ConnRegistry,
    channels: Vec<(u32, Vec<u8>)>,
    /// The most recently opened channel, whose reuse generation is stamped on
    /// reallocation.
    chan_mark: Option<u32>,
    /// The most recent columnar sections.
    sections: Vec<Section>,
    /// The serial the next section gets.
    next_section: u64,
    /// The section a `SNAPSHOT_BEGIN` latched onto.
    pending_snap: Option<u64>,
    metrics: Metrics,
}

/// The first position of `s` keyed by `id`.
pub open spec fn first_slot<T>(s: Seq<(u32, T)>, id: u32) -> Option<int>
    decreases s.len(),
{
    if s.len() == 0 {
        None
    } else {
        match first_slot(s.drop_last(), id) {
            Some(i) => Some(i),
            None => if s.last().0 == id {
                Some(s.len() - 1)
            } else {
                None
            },
        }
    }
}

proof fn lemma_first_slot<T>(s: Seq<(u32, T)>, id: u32)
    ensures
        match first_slot(s, id) {
            Some(i) => 0 <= i < s.len() && s[i].0 == id && forall|j: int| 0 <= j < i ==> (#[trigger] s[j]).0 != id,
            None => forall|j: int| 0 <= j < s.len() ==> (#[trigger] s[j]).0 != id,
        },
    decreases s.len(),
{
    if s.len() > 0 {
        let d = s.drop_last();
        lemma_first_slot(d, id);
        assert forall|j: int| 0 <= j < d.len() implies d[j] == s[j] by {}
    }
}

/// The first index holding `id`, when that index is the least such one.
proof fn lemma_first_slot_at<T>(s: Seq<(u32, T)>, id: u32, i: int)
    requires
        0 <= i < s.len(),
        s[i].0 == id,
        forall|j: int| 0 <= j < i ==> (#[trigger] s[j]).0 != id,
    ensures
        first_slot(s, id) == Some(i),
{
    lemma_first_slot(s, id);
}

/// No index holds `id`.
proof fn lemma_first_slot_none<T>(s: Seq<(u32, T)>, id: u32)
    requires
        forall|j: int| 0 <= j < s.len() ==> (#[trigger] s[j]).0 != id,
    ensures
        first_slot(s, id) is None,
{
    lemma_first_slot(s, id);
}

/// `after` is the stream list `before` with a stream `id` added (zeroed
/// window of the requested size clamped to `64..=hi`, cursor at 0) unless one
/// is there already.
spec fn stream_ensured(before: Seq<(u32, StreamCtx)>, after: Seq<(u32, StreamCtx)>, id: u32, window: int, hi: int) -> bool {
    if first_slot(before, id) is Some {
        after == before
    } else {
        &&& after == before.push((id, after.last().1))
        &&& after.last().1.read_pos == 0
        &&& after.last().1.window.wf()
        &&& after.last().1.window.spec_size() == window_size(clamp_window(window, hi) as nat)
        &&& after.last().1.window.spec_high_seq() == 0
        &&& after.last().1.window.contents() == Seq::new(after.last().1.window.spec_size(), |i: int| 0u8)
    }
}

/// The channels' ids and contents.
spec fn chan_views(cs: Seq<(u32, Vec<u8>)>) -> Seq<(u32, Seq<u8>)> {
    cs.map_values(|c: (u32, Vec<u8>)| (c.0, c.1@))
}

/// A channel size request clamped to `1..=2^20`.
pub open spec fn chan_size(raw: int) -> nat {
    if raw < 1 {
        1
    } else if raw > 1048576 {
        1048576
    } else {
        raw as nat
    }
}

/// `v` resized to `n` bytes, new bytes zero.
pub open spec fn resized(v: Seq<u8>, n: nat) -> Seq<u8> {
    Seq::new(n, |k: int| if k < v.len() { v[k] } else { 0u8 })
}

/// `v` with `g` written big-endian over its first (up to) eight bytes.
pub open spec fn stamped(v: Seq<u8>, g: u64) -> Seq<u8> {
    Seq::new(v.len(), |k: int| if k < 8 { be_byte(g, k) } else { v[k] })
}

/// A signed gauge moved by one, saturating.
pub open spec fn gauge_up(x: i64) -> i64 {
    if x == i64::MAX { x } else { (x + 1) as i64 }
}

pub open spec fn gauge_down(x: i64) -> i64 {
    if x == i64::MIN { x } else { (x - 1) as i64 }
}

/// `a + b` wrapping at the width of `usize`.
pub open spec fn wrap_add(a: usize, b: int) -> usize {
    if a + b > usize::MAX { (a + b - usize::MAX - 1) as usize } else { (a + b) as usize }
}

/// Message types that can carry a data record: the record itself, or a
/// continuation or nested record wrapping one.
pub open spec fn carries_record(ty: MsgType) -> bool {
    ty == MsgType::DataRecord || ty == MsgType::Continuation || ty == MsgType::NestedRecord
}

/// Message types whose handling can change the flow table: those carrying
/// data records, template definitions (an evicted template's flows are
/// purged) and session close (the table is flushed).
pub open spec fn touches_flows(ty: MsgType) -> bool {
    carries_record(ty) || ty == MsgType::TemplateDef || ty == MsgType::SessionClose
}

/// No message of the stream can change the flow table.
pub open spec fn leaves_flows(msgs: Seq<MessageSpec>) -> bool {
    forall|i: int| 0 <= i < msgs.len() ==> !touches_flows(#[trigger] msgs[i].ty)
}

/// No message of the stream can carry a data record.
pub open spec fn no_data_records(msgs: Seq<MessageSpec>) -> bool {
    forall|i: int| 0 <= i < msgs.len() ==> !carries_record(#[trigger] msgs[i].ty)
}

/// A requested stream window clamped to `64..=hi`.
pub open spec fn clamp_window(window: int, hi: int) -> int {
    if window < 64 {
        64
    } else if window > hi {
        hi
    } else {
        window
    }
}

/// Byte `i` (0 to 7) of `g` in big-endian order.
pub open spec fn be_byte(g: u64, i: int) -> u8 {
    (g >> ((56 - 8 * i) as u64)) as u8
}

/// Message types whose handling can hit a resource limit: schema and
/// template definitions (field count), section headers (dimensions), nested
/// records (depth), requests (queue length), fragments (fragment count and
/// buffer size), flow timeouts (the reassembled extent) and stream packets and
/// reads (window size).
pub open spec fn may_limit(ty: MsgType) -> bool {
    ||| ty == MsgType::SchemaDef || ty == MsgType::SchemaUpdate || ty == MsgType::TemplateDef
    ||| ty == MsgType::SectionHeader || ty == MsgType::Continuation || ty == MsgType::NestedRecord
    ||| ty == MsgType::Request || ty == MsgType::Fragment || ty == MsgType::FragmentReorder
        || ty == MsgType::FlowTimeout
    ||| ty == MsgType::Packet || ty == MsgType::ReadWindow
}

/// No message of the stream can hit a resource limit.
pub open spec fn limit_free(msgs: Seq<MessageSpec>) -> bool {
    forall|i: int| 0 <= i < msgs.len() ==> !may_limit(#[trigger] msgs[i].ty)
}

/// `tr` records, in order, the session before and after each handled message
/// of `msgs` (a prefix of them) with the handler's result: each entry is a
/// dispatch step, and between `start`, the entries and `end` only the clock
/// and counters change.
pub open spec fn handled(
    start: Session,
    end: Session,
    tr: Seq<(Session, Session, Result<(), Error>)>,
    msgs: Seq<MessageSpec>,
) -> bool {
    &&& tr.len() <= msgs.len()
    &&& forall|i: int| 0 <= i < tr.len() ==> (#[trigger] tr[i]).0.dispatch_step(tr[i].1, msgs[i], tr[i].2)
    &&& tr.len() == 0 ==> start.same_but_counters(end)
    &&& tr.len() > 0 ==> start.same_but_counters(tr[0].0) && tr.last().1.same_but_counters(end)
    &&& forall|i: int| 0 <= i < tr.len() - 1 ==> (#[trigger] tr[i]).1.same_but_counters(tr[i + 1].0)
}

/// `after` is `before` once it has taken `stream` in: when the stream frames,
/// its messages were handed in order to their handlers, all of them unless
/// the result is the failure that stopped the stream.
pub open spec fn took_stream(before: Session, after: Session, stream: Seq<u8>, res: Result<(), Error>) -> bool {
    spec_parse_all(stream, FrameConfig::spec_default()) matches Ok(st) ==> exists|
        tr: Seq<(Session, Session, Result<(), Error>)>,
    |
        #[trigger] handled(before, after, tr, st.msgs) && (res is Ok ==> tr.len() == st.msgs.len()) && (res is Err
            ==> tr.len() > 0 && tr.last().2 == res)
}

/// A session as a new one starts out under `cfg`: closed, empty, all
/// counters zero.
pub open spec fn fresh_session(s: Session, cfg: Config) -> bool {
    &&& s.wf()
    &&& !s.spec_opened()
    &&& s.spec_config() == cfg
    &&& s.spec_clock() == 1
    &&& s.spec_flows() == Seq::<FlowRecord>::empty()
    &&& crate::metrics::all_zero(s.spec_metrics())
}

/// One more handled message extends the record.
proof fn lemma_handled_extend(
    start: Session,
    cur: Session,
    tr: Seq<(Session, Session, Result<(), Error>)>,
    msgs: Seq<MessageSpec>,
    pre: Session,
    post: Session,
    r: Result<(), Error>,
    after: Session,
)
    requires
        handled(start, cur, tr, msgs),
        tr.len() < msgs.len(),
        cur.same_but_counters(pre),
        pre.dispatch_step(post, msgs[tr.len() as int], r),
        post.same_but_counters(after),
    ensures
        handled(start, after, tr.push((pre, post, r)), msgs),
{
    let t = tr.push((pre, post, r));
    assert forall|i: int| 0 <= i < t.len() implies (#[trigger] t[i]).0.dispatch_step(t[i].1, msgs[i], t[i].2) by {
        if i < tr.len() {
            assert(t[i] == tr[i]);
        }
    }
    assert forall|i: int| 0 <= i < t.len() - 1 implies (#[trigger] t[i]).1.same_but_counters(t[i + 1].0) by {
        assert(t[i] == tr[i]);
        if i < tr.len() - 1 {
            assert(t[i + 1] == tr[i + 1]);
        }
    }
}

/// Changing only counters after the last handled message keeps the record.
proof fn lemma_handled_extend_end(
    start: Session,
    cur: Session,
    tr: Seq<(Session, Session, Result<(), Error>)>,
    msgs: Seq<MessageSpec>,
    after: Session,
)
    requires
        handled(start, cur, tr, msgs),
        cur.same_but_counters(after),
    ensures
        handled(start, after, tr, msgs),
{
}

/// The bytes a section keeps of its body: its whole rows, at most `count`
/// of them.
pub open spec fn section_rows(body: Seq<u8>, count: int, stride: int) -> Seq<u8> {
    let avail = (body.len() as int) / stride;
    let rows = if avail < count { avail } else { count };
    body.take(rows * stride)
}

/// `data` with `body` written over its start.
pub open spec fn overwrite(data: Seq<u8>, body: Seq<u8>) -> Seq<u8> {
    if body.len() >= data.len() {
        body
    } else {
        body + data.skip(body.len() as int)
    }
}

/// The sections (serial, rows, stride, bytes) after committing `body` to the
/// latched serial: each section with that serial gets at most its capacity
/// of the body written over its start; with nothing latched, nothing changes.
pub open spec fn committed(secs: Seq<(u64, u32, u32, Seq<u8>)>, target: Option<u64>, body: Seq<u8>) -> Seq<
    (u64, u32, u32, Seq<u8>),
> {
    Seq::new(
        secs.len(),
        |j: int|
            {
                let x = secs[j];
                if target == Some(x.0) {
                    let cap = x.1 * x.2;
                    (x.0, x.1, x.2, overwrite(x.3, body.take(if body.len() < cap { body.len() as int } else { cap })))
                } else {
                    x
                }
            },
    )
}

/// `n + 1`, saturating.
/// Message types whose handling changes nothing in the session: the codec,
/// transform-engine, plugin and scope messages only check their payload here.
pub open spec fn inert(ty: MsgType) -> bool {
    ||| ty == MsgType::CompressedBlock || ty == MsgType::CompressConfig || ty == MsgType::CompressData
    ||| ty == MsgType::ModuleLoad || ty == MsgType::ModuleReload || ty == MsgType::CallSymbol
    ||| ty == MsgType::PluginInvoke || ty == MsgType::PluginRegister
    ||| ty == MsgType::ScopeBegin || ty == MsgType::ScopeEnd
}

/// For message types whose handling in an open session succeeds exactly when
/// the payload carries a fixed-size header, that header's length.
pub open spec fn min_payload(ty: MsgType) -> Option<int> {
    match ty {
        MsgType::FlowOpen | MsgType::ConnOpen | MsgType::ConnReset | MsgType::StreamOpen | MsgType::ChannelTeardown
        | MsgType::ModuleLoad | MsgType::ModuleReload | MsgType::CallSymbol | MsgType::PluginInvoke => Some(4),
        MsgType::ChannelOpen | MsgType::ChannelAlloc => Some(8),
        MsgType::PluginRegister => Some(6),
        MsgType::CompressedBlock => Some(13),
        MsgType::CompressConfig => Some(1),
        MsgType::ScopeBegin | MsgType::ScopeEnd | MsgType::CompressData | MsgType::ProcessQueue => Some(0),
        _ => None,
    }
}

pub open spec fn sat_inc64(n: u64) -> u64 {
    if n == u64::MAX { n } else { (n + 1) as u64 }
}

/// Every message's handler demands an open session.
pub open spec fn all_need_open(msgs: Seq<MessageSpec>) -> bool {
    forall|i: int| 0 <= i < msgs.len() ==> needs_open(#[trigger] msgs[i].ty)
}

/// Message types that are only valid after `SESSION_OPEN`: those whose
/// descriptor requires an open session.
pub open spec fn needs_open(ty: MsgType) -> bool {
    spec_descriptor(ty).requires_open
}

impl Session {
    pub closed spec fn wf(&self) -> bool {
        &&& config_ok(self.cfg)
        &&& self.schemas.wf()
        &&& self.templates.wf()
        &&& self.flows.wf()
        &&& self.biflows.wf()
        &&& self.conns.wf()
        &&& forall|i: int| 0 <= i < self.reasm@.len() ==> (#[trigger] self.reasm@[i]).1.wf()
        &&& forall|i: int| 0 <= i < self.streams@.len() ==> (#[trigger] self.streams@[i]).1.window.wf()
    }

    /// Whether a `SESSION_OPEN` has been seen (and no `SESSION_CLOSE` since).
    pub closed spec fn spec_opened(&self) -> bool {
        self.opened
    }

    pub closed spec fn spec_session_id(&self) -> u32 {
        self.session_id
    }

    pub closed spec fn spec_metrics(&self) -> Metrics {
        self.metrics
    }

    /// The live flows, in insertion order.
    pub closed spec fn spec_flows(&self) -> Seq<FlowRecord> {
        self.flows.flows()
    }

    pub closed spec fn spec_config(&self) -> Config {
        self.cfg
    }

    pub closed spec fn spec_clock(&self) -> u64 {
        self.clock
    }

    /// `after` is this session with only its clock and counters changed.
    pub closed spec fn same_but_counters(self, after: Session) -> bool {
        after == Session { clock: after.clock, metrics: after.metrics, ..self }
    }

    /// What handling `SESSION_OPEN` does: a payload of at least four bytes
    /// opens the session under the id it starts with; a shorter one is
    /// malformed and changes nothing.
    pub closed spec fn session_open_step(self, after: Session, p: Seq<u8>, res: Result<(), Error>) -> bool {
        &&& p.len() < 4 ==> res is Err && res->Err_0.kind == Kind::Malformed && after == self
        &&& p.len() >= 4 ==> res is Ok && after == (Session { opened: true, session_id: be32(p) as u32, ..self })
    }

    /// What handling `SESSION_CLOSE` does: the session closes and its flow
    /// table is flushed.
    pub closed spec fn session_close_step(self, after: Session, res: Result<(), Error>) -> bool {
        &&& res is Ok
        &&& after == (Session { opened: false, flows: after.flows, ..self })
        &&& after.flows.flows() == Seq::<FlowRecord>::empty()
        &&& after.flows.outbox() == self.flows.outbox() + self.flows.flows()
    }

    /// What handling a well-formed `SCHEMA_DEF` (or, with `update`,
    /// `SCHEMA_UPDATE`) in an open session does: the schema is installed under
    /// its id with the given fields, at version 1 for a definition and at the
    /// next (wrapping) version for an update; updating an unknown schema is
    /// unresolved and changes no schema. Other schemas stay as they were.
    pub closed spec fn schema_def_step(self, after: Session, p: Seq<u8>, update: bool, res: Result<(), Error>) -> bool {
        &&& self.opened ==> after == (Session { schemas: after.schemas, ..self })
        &&& self.opened && res is Err ==> after == self
        &&& ({
            let q = p.skip(2);
            self.opened && p.len() >= 4 && 1 <= be16(q) <= 4096 && decode::spec_field_entries(q.skip(2), be16(q) as nat)
                is Some
        }) ==> {
            let sid = be16(p) as u16;
            let es = decode::spec_field_entries(p.skip(2).skip(2), be16(p.skip(2)) as nat)->Some_0;
            let before = self.schemas.spec_schemas();
            let now = after.schemas.spec_schemas();
            &&& update && !before.dom().contains(sid) ==> res is Err && res->Err_0.kind == Kind::Unresolved && now
                == before
            &&& (!update || before.dom().contains(sid)) ==> {
                &&& res is Ok
                &&& now.dom() == before.dom().insert(sid)
                &&& now[sid].fields@.map_values(|f: FieldSpec| decode::entry_of(f)) == es
                &&& now[sid].version == (if !update {
                    1u16
                } else if before[sid].version == u16::MAX {
                    0u16
                } else {
                    (before[sid].version + 1) as u16
                })
                &&& forall|x: u16| x != sid && #[trigger] before.dom().contains(x) ==> now[x] == before[x]
            }
        }
    }

    /// What handling a well-formed `TEMPLATE_DEF` in an open session does: the
    /// template is installed under its id with its schema id and fields.
    pub closed spec fn template_def_step(self, after: Session, p: Seq<u8>, res: Result<(), Error>) -> bool {
        &&& self.opened && res is Err ==> after == self
        &&& self.opened && res is Ok ==> {
            let tid = be16(p) as u16;
            let full = seq![tid] + without(self.templates.order(), tid);
            let over = full.len() > self.templates.spec_capacity();
            &&& after == (Session { templates: after.templates, flows: after.flows, metrics: after.metrics, ..self })
            &&& after.metrics == (Metrics {
                templates_defined: sat_add(self.metrics.templates_defined, 1),
                ..self.metrics
            })
            &&& after.templates.order() == (if over { full.drop_last() } else { full })
            &&& after.templates.spec_templates().dom().contains(tid)
            &&& forall|x: u16| x != tid && #[trigger] after.templates.spec_templates().dom().contains(x)
                ==> self.templates.spec_templates().dom().contains(x) && after.templates.spec_templates()[x]
                == self.templates.spec_templates()[x]
            &&& after.flows.flows() == (if over {
                self.flows.flows().filter(|r: FlowRecord| r.template_id != full.last())
            } else {
                self.flows.flows()
            })
        }
        &&& ({
            let q = p.skip(4);
            self.opened && p.len() >= 6 && 1 <= be16(q) <= 4096 && decode::spec_field_entries(q.skip(2), be16(q) as nat)
                is Some
        }) ==> {
            let tid = be16(p) as u16;
            let t = after.templates.spec_templates()[tid];
            &&& res is Ok
            &&& after.templates.spec_templates().dom().contains(tid)
            &&& t.schema_id == be16(p.skip(2)) as u16
            &&& t.fields@.map_values(|f: FieldSpec| decode::entry_of(f)) == decode::spec_field_entries(
                p.skip(4).skip(2),
                be16(p.skip(4)) as nat,
            )->Some_0
        }
    }

    /// What handling a `DATA_RECORD` with a full header in an open session
    /// does: for an unknown template, an unresolved error and no flow change;
    /// for a known one, success, one more record decoded, and the flows updated
    /// with the record (when aggregating) and then swept.
    pub closed spec fn data_record_step(self, after: Session, p: Seq<u8>, res: Result<(), Error>) -> bool {
        &&& self.opened && p.len() < decode::data_header_len() ==> res is Err && res->Err_0.kind == Kind::Malformed
            && after == self
        &&& self.opened && res is Err ==> after == self
        &&& self.opened ==> after == (Session {
            templates: after.templates,
            flows: after.flows,
            biflows: after.biflows,
            metrics: after.metrics,
            ..self
        })
        &&& self.opened && p.len() >= decode::data_header_len() ==> {
            let h = decode::spec_data_header(p);
            let known = self.templates.spec_templates().dom().contains(h.template_id);
            &&& !known ==> res is Err && res->Err_0.kind == Kind::Unresolved && after.flows == self.flows
            &&& known ==> {
                let t = self.templates.spec_templates()[h.template_id];
                let idle = self.flows.spec_idle_ticks();
                let folded = if self.cfg.aggregate {
                    flows_after_update(
                        self.flows.flows(),
                        self.flows.spec_capacity(),
                        h.key,
                        h.octets,
                        h.packets,
                        h.template_id,
                        t.generation,
                        t.fields.len() as u16,
                        self.clock,
                        idle,
                    )
                } else {
                    self.flows.flows()
                };
                &&& res is Ok
                &&& after.templates.order() == seq![h.template_id] + without(self.templates.order(), h.template_id)
                &&& after.templates.spec_templates().dom() == self.templates.spec_templates().dom()
                &&& after.flows.flows() == flows_after_sweep(folded, self.clock, idle)
                &&& after.metrics == (Metrics { records_decoded: sat_add(self.metrics.records_decoded, 1), ..self.metrics })
                &&& self.cfg.aggregate ==> observed_into(
                    self.biflows.entries(),
                    after.biflows.entries(),
                    (FlowRecord { octets: h.octets, packets: h.packets, ..spec_new_record(h.key, self.clock) }),
                )
                &&& !self.cfg.aggregate ==> after.biflows.entries() == self.biflows.entries()
            }
        }
    }

    /// How many reassemblers, open streams and open channels the session
    /// holds.
    pub closed spec fn spec_live_counts(self) -> (nat, nat, nat) {
        (self.reasm@.len(), self.streams@.len(), self.channels@.len())
    }

    /// The sections a session holds, oldest first, as (serial, row count,
    /// stride, bytes).
    pub closed spec fn spec_sections(self) -> Seq<(u64, u32, u32, Seq<u8>)> {
        self.sections@.map_values(|x: Section| x@)
    }

    /// What handling `SECTION_HEADER` in an open session does: with sane
    /// dimensions the section is appended (the oldest evicted once eight are
    /// held) with the whole rows its body carries; otherwise the sections stay.
    pub closed spec fn section_header_step(self, after: Session, p: Seq<u8>, res: Result<(), Error>) -> bool {
        let count = be32(p);
        let stride = be32(p.skip(4));
        let kept = if self.spec_sections().len() >= 8 {
            self.spec_sections().drop_first()
        } else {
            self.spec_sections()
        };
        &&& self.opened ==> after == (Session { sections: after.sections, next_section: after.next_section, ..self })
        &&& self.opened && res is Err ==> after == self
        &&& res is Err ==> after.spec_sections() == self.spec_sections()
        &&& self.opened && p.len() >= 8 ==> (res is Ok <==> (0 < count <= 1048576 && 0 < stride <= 65536))
        &&& res is Ok ==> after.spec_sections() == kept.push(
            (self.next_section, count as u32, stride as u32, section_rows(p.skip(8), count, stride)),
        )
    }

    /// What handling `SNAPSHOT_BEGIN` in an open session does: a payload
    /// naming a held section latches that section's serial.
    pub closed spec fn snapshot_begin_step(self, after: Session, p: Seq<u8>, res: Result<(), Error>) -> bool {
        &&& after.spec_sections() == self.spec_sections()
        &&& self.opened ==> after == (Session { pending_snap: after.pending_snap, ..self })
        &&& self.opened && res is Err ==> after == self
        &&& self.opened ==> (res is Ok <==> p.len() >= 4 && be32(p) < self.spec_sections().len())
        &&& res is Ok ==> after.pending_snap == Some(self.spec_sections()[be32(p)].0)
    }

    /// What handling `SNAPSHOT_COMMIT` in an open session does: the body (at
    /// most the declared length) is written over the start of the latched
    /// section while it is still held, and the latch is released.
    pub closed spec fn snapshot_commit_step(self, after: Session, p: Seq<u8>) -> bool {
        &&& self.opened ==> after == (Session { sections: after.sections, pending_snap: after.pending_snap, ..self })
        &&& self.opened && p.len() < 4 ==> after == self
        &&& self.opened && p.len() >= 4 ==> {
            let rest = p.skip(4);
            let body = rest.take(if be32(p) < rest.len() { be32(p) } else { rest.len() as int });
            &&& after.pending_snap is None
            &&& after.spec_sections() == committed(self.spec_sections(), self.pending_snap, body)
        }
    }

    /// The flow id and window a `FLOW_OPEN` or `STREAM_OPEN` payload names:
    /// the window defaults to the configured size when absent.
    spec fn open_window(self, p: Seq<u8>) -> int {
        if p.len() >= 8 {
            be32(p.skip(4))
        } else {
            (self.cfg.window_size as u32) as int
        }
    }

    /// What `FLOW_OPEN` does in an open session: with a flow id, a
    /// reassembler and a stream context for the flow are added where missing
    /// and the flow counters go up; nothing else changes.
    pub closed spec fn flow_open_step(self, after: Session, p: Seq<u8>, res: Result<(), Error>) -> bool {
        self.opened && p.len() >= 4 ==> {
            let id = be32(p) as u32;
            &&& res is Ok
            &&& after == (Session { reasm: after.reasm, streams: after.streams, metrics: after.metrics, ..self })
            &&& first_slot(self.reasm@, id) is Some ==> after.reasm@ == self.reasm@
            &&& first_slot(self.reasm@, id) is None ==> after.reasm@ == self.reasm@.push((id, after.reasm@.last().1))
                && fresh_reassembler(after.reasm@.last().1, self.cfg.max_fragments, (self.cfg.window_size * 4) as usize)
            &&& stream_ensured(self.streams@, after.streams@, id, self.open_window(p), self.cfg.window_size * 4)
            &&& after.metrics == (Metrics {
                flows_opened: sat_add(self.metrics.flows_opened, 1),
                live_flows: sat_add_i(self.metrics.live_flows, 1),
                ..self.metrics
            })
        }
    }

    /// What `STREAM_OPEN` does in an open session: with a stream id, a stream
    /// context is added if missing; nothing else changes.
    pub closed spec fn stream_open_step(self, after: Session, p: Seq<u8>, res: Result<(), Error>) -> bool {
        self.opened && p.len() >= 4 ==> {
            &&& res is Ok
            &&& after == (Session { streams: after.streams, ..self })
            &&& stream_ensured(self.streams@, after.streams@, be32(p) as u32, self.open_window(p), self.cfg.window_size * 4)
        }
    }

    /// What `FRAGMENT` does in an open session: the payload is a flow id, an
    /// offset, a length and that many bytes. A truncated payload is malformed
    /// and an unopened flow unresolved, with nothing changed; otherwise the
    /// fragment goes to the flow's reassembler (see [`frag_added`]), whose
    /// result is the handler's, and an accepted one is counted.
    pub closed spec fn fragment_step(self, after: Session, p: Seq<u8>, res: Result<(), Error>) -> bool {
        self.opened ==> {
            let id = be32(p) as u32;
            let off = i32_of(be32(p.skip(4))) as i32;
            let n = be16(p.skip(8));
            &&& (p.len() < 10 || p.len() - 10 < n) ==> res is Err && res->Err_0.kind == Kind::Malformed && after
                == self
            &&& p.len() >= 10 && p.len() - 10 >= n ==> match first_slot(self.reasm@, id) {
                None => res is Err && res->Err_0.kind == Kind::Unresolved && after == self,
                Some(i) => {
                    &&& after == (Session { reasm: after.reasm, metrics: after.metrics, ..self })
                    &&& after.reasm@ == self.reasm@.update(i, (id, after.reasm@[i].1))
                    &&& frag_added(self.reasm@[i].1, after.reasm@[i].1, off, p.skip(10).take(n), res)
                    &&& after.metrics == (if res is Ok {
                        Metrics { fragments_seen: sat_add(self.metrics.fragments_seen, 1), ..self.metrics }
                    } else {
                        self.metrics
                    })
                },
            }
        }
    }

    /// What `FRAGMENT_REORDER` does in an open session: the payload is a flow
    /// id and a start and end offset. A truncated payload is malformed and an
    /// unopened flow unresolved, with nothing changed; otherwise the flow's
    /// reassembler is rebased (see [`rebased`]) and its result is the
    /// handler's.
    pub closed spec fn reorder_step(self, after: Session, p: Seq<u8>, res: Result<(), Error>) -> bool {
        self.opened ==> {
            let id = be32(p) as u32;
            &&& p.len() < 12 ==> res is Err && res->Err_0.kind == Kind::Malformed && after == self
            &&& p.len() >= 12 ==> match first_slot(self.reasm@, id) {
                None => res is Err && res->Err_0.kind == Kind::Unresolved && after == self,
                Some(i) => {
                    &&& after == (Session { reasm: after.reasm, ..self })
                    &&& after.reasm@ == self.reasm@.update(i, (id, after.reasm@[i].1))
                    &&& rebased(
                        self.reasm@[i].1,
                        after.reasm@[i].1,
                        i32_of(be32(p.skip(4))) as i32,
                        i32_of(be32(p.skip(8))) as i32,
                        res,
                    )
                },
            }
        }
    }

    /// What `FLOW_TIMEOUT` does in an open session with a flow id: the
    /// flow's reassembler is dropped; if flattening it fails, that error is
    /// the result and nothing else changes; otherwise the flow's stream
    /// context is dropped too and the flow counters record the close.
    pub closed spec fn timeout_step(self, after: Session, p: Seq<u8>, res: Result<(), Error>) -> bool {
        self.opened && p.len() >= 4 ==> {
            let id = be32(p) as u32;
            let ri = first_slot(self.reasm@, id);
            let fails = ri matches Some(i) && reassembly_fails(self.reasm@[i].1);
            &&& after.reasm@ == (match ri {
                Some(i) => self.reasm@.remove(i),
                None => self.reasm@,
            })
            &&& fails ==> res is Err && after == (Session { reasm: after.reasm, ..self })
            &&& !fails ==> {
                &&& res is Ok
                &&& after == (Session { reasm: after.reasm, streams: after.streams, metrics: after.metrics, ..self })
                &&& after.streams@ == (match first_slot(self.streams@, id) {
                    Some(j) => self.streams@.remove(j),
                    None => self.streams@,
                })
                &&& after.metrics == (Metrics {
                    flows_closed: sat_add(self.metrics.flows_closed, 1),
                    live_flows: sat_add_i(self.metrics.live_flows, -1),
                    ..self.metrics
                })
            }
        }
    }

    /// What `CONN_OPEN` does in an open session with a connection id: the
    /// connection registry opens it (see [`conn_opened`]); nothing else changes.
    pub closed spec fn conn_open_step(self, after: Session, p: Seq<u8>, res: Result<(), Error>) -> bool {
        self.opened && p.len() >= 4 ==> {
            &&& res is Ok
            &&& after == (Session { conns: after.conns, ..self })
            &&& conn_opened(self.conns, after.conns, be32(p) as u32)
        }
    }

    /// What `CONN_RESET` does in an open session with a connection id: the
    /// registry drops the connection (see [`conn_was_reset`]); nothing else
    /// changes.
    pub closed spec fn conn_reset_step(self, after: Session, p: Seq<u8>, res: Result<(), Error>) -> bool {
        self.opened && p.len() >= 4 ==> {
            &&& res is Ok
            &&& after == (Session { conns: after.conns, ..self })
            &&& conn_was_reset(self.conns, after.conns, be32(p) as u32)
        }
    }

    /// What `REQUEST` does in an open session: the payload is a connection
    /// id, an opcode and the request body. Truncated, it is malformed and
    /// nothing changes; otherwise the request is queued (see
    /// [`conn_enqueued`]), whose result is the handler's.
    pub closed spec fn request_step(self, after: Session, p: Seq<u8>, res: Result<(), Error>) -> bool {
        self.opened ==> {
            &&& p.len() < 6 ==> res is Err && res->Err_0.kind == Kind::Malformed && after == self
            &&& p.len() >= 6 ==> after == (Session { conns: after.conns, ..self }) && conn_enqueued(
                self.conns,
                after.conns,
                be32(p) as u32,
                be16(p.skip(4)) as u16,
                p.skip(6),
                res,
            )
        }
    }

    /// What `PROCESS_QUEUE` does in an open session: the registry drains its
    /// queue (see [`queue_drained`]); nothing else changes.
    pub closed spec fn process_queue_step(self, after: Session, res: Result<(), Error>) -> bool {
        self.opened ==> res is Ok && after == (Session { conns: after.conns, ..self }) && queue_drained(
            self.conns,
            after.conns,
        )
    }

    /// What `PACKET` does in an open session: the payload is a stream id, a
    /// sequence number and the packet bytes. Truncated, it is malformed; for
    /// an unopened stream unresolved; a packet whose end would pass
    /// `u64::MAX` is malformed; in those cases nothing changes. Otherwise the
    /// bytes go into the stream's window (see [`window_placed`]), whose
    /// result is the handler's, and the read cursor stays.
    pub closed spec fn packet_step(self, after: Session, p: Seq<u8>, res: Result<(), Error>) -> bool {
        self.opened ==> {
            let id = be32(p) as u32;
            let seq = be64(p.skip(4));
            let data = p.skip(12);
            &&& p.len() < 12 ==> res is Err && res->Err_0.kind == Kind::Malformed && after == self
            &&& p.len() >= 12 ==> match first_slot(self.streams@, id) {
                None => res is Err && res->Err_0.kind == Kind::Unresolved && after == self,
                Some(i) => if seq + data.len() > u64::MAX {
                    res is Err && res->Err_0.kind == Kind::Malformed && after == self
                } else {
                    &&& after == (Session { streams: after.streams, ..self })
                    &&& after.streams@ == self.streams@.update(i, (id, after.streams@[i].1))
                    &&& after.streams@[i].1.read_pos == self.streams@[i].1.read_pos
                    &&& window_placed(self.streams@[i].1.window, after.streams@[i].1.window, seq as u64, data, res)
                },
            }
        }
    }

    /// What `READ_WINDOW` does in an open session: the payload is a stream
    /// id, a sequence number and a length. Truncated, it is malformed; for an
    /// unopened stream unresolved; a read longer than the window is a limit
    /// error; in those cases nothing changes. Otherwise the read succeeds and
    /// the stream's cursor advances by the length (wrapping).
    pub closed spec fn read_window_step(self, after: Session, p: Seq<u8>, res: Result<(), Error>) -> bool {
        self.opened ==> {
            let id = be32(p) as u32;
            let len = be32(p.skip(12));
            &&& p.len() < 16 ==> res is Err && res->Err_0.kind == Kind::Malformed && after == self
            &&& p.len() >= 16 ==> match first_slot(self.streams@, id) {
                None => res is Err && res->Err_0.kind == Kind::Unresolved && after == self,
                Some(i) => if len > self.streams@[i].1.window.spec_size() {
                    res is Err && res->Err_0.kind == Kind::Limit && after == self
                } else {
                    &&& res is Ok
                    &&& after == (Session { streams: after.streams, ..self })
                    &&& after.streams@ == self.streams@.update(i, (id, after.streams@[i].1))
                    &&& after.streams@[i].1.window == self.streams@[i].1.window
                    &&& after.streams@[i].1.read_pos == wrap_add(self.streams@[i].1.read_pos, len)
                },
            }
        }
    }

    /// What `SEEK_RELATIVE` does in an open session: the payload is a stream
    /// id and a signed offset. Truncated, it is malformed; for an unopened
    /// stream unresolved; a target before 0 or past the window size is
    /// malformed; in those cases nothing changes. Otherwise the stream's
    /// cursor moves to the target.
    pub closed spec fn seek_step(self, after: Session, p: Seq<u8>, res: Result<(), Error>) -> bool {
        self.opened ==> {
            let id = be32(p) as u32;
            let delta = i32_of(be32(p.skip(4)));
            &&& p.len() < 8 ==> res is Err && res->Err_0.kind == Kind::Malformed && after == self
            &&& p.len() >= 8 ==> match first_slot(self.streams@, id) {
                None => res is Err && res->Err_0.kind == Kind::Unresolved && after == self,
                Some(i) => {
                    let next = self.streams@[i].1.read_pos + delta;
                    if next < 0 || next > self.streams@[i].1.window.spec_size() {
                        res is Err && res->Err_0.kind == Kind::Malformed && after == self
                    } else {
                        &&& res is Ok
                        &&& after == (Session { streams: after.streams, ..self })
                        &&& after.streams@ == self.streams@.update(i, (id, after.streams@[i].1))
                        &&& after.streams@[i].1.window == self.streams@[i].1.window
                        &&& after.streams@[i].1.read_pos == next
                    }
                },
            }
        }
    }

    /// The channels, as (id, contents), in creation order.
    pub closed spec fn spec_channels(self) -> Seq<(u32, Seq<u8>)> {
        chan_views(self.channels@)
    }

    /// What `CHANNEL_OPEN` does in an open session with an id and a size: a
    /// missing channel is created zero-filled at the size clamped to
    /// `1..=2^20`; either way it becomes the marked channel and the
    /// live-channel gauge goes up (saturating). Nothing else changes.
    pub closed spec fn channel_open_step(self, after: Session, p: Seq<u8>, res: Result<(), Error>) -> bool {
        self.opened && p.len() >= 8 ==> {
            let id = be32(p) as u32;
            let size = chan_size(be32(p.skip(4)));
            &&& res is Ok
            &&& after == (Session { channels: after.channels, chan_mark: after.chan_mark, metrics: after.metrics, ..self })
            &&& after.spec_channels() == (if first_slot(self.channels@, id) is None {
                self.spec_channels().push((id, Seq::new(size, |i: int| 0u8)))
            } else {
                self.spec_channels()
            })
            &&& after.chan_mark == Some(id)
            &&& after.metrics == (Metrics { live_channels: gauge_up(self.metrics.live_channels), ..self.metrics })
        }
    }

    /// What `CHANNEL_TEARDOWN` does in an open session with an id: a present
    /// channel is removed and the live-channel gauge goes down (saturating);
    /// otherwise nothing changes.
    pub closed spec fn channel_teardown_step(self, after: Session, p: Seq<u8>, res: Result<(), Error>) -> bool {
        self.opened && p.len() >= 4 ==> {
            &&& res is Ok
            &&& match first_slot(self.channels@, be32(p) as u32) {
                Some(i) => {
                    &&& after == (Session { channels: after.channels, metrics: after.metrics, ..self })
                    &&& after.spec_channels() == self.spec_channels().remove(i)
                    &&& after.metrics == (Metrics {
                        live_channels: gauge_down(self.metrics.live_channels),
                        ..self.metrics
                    })
                },
                None => after == self,
            }
        }
    }

    /// What `CHANNEL_ALLOC` does in an open session with an id and a size: a
    /// present channel is resized to the size clamped to `1..=2^20` (new
    /// bytes zero), a missing one created zero-filled and counted in the
    /// gauge; when the channel is the marked one, the clock is stamped
    /// big-endian over its first bytes. Nothing else changes.
    pub closed spec fn channel_alloc_step(self, after: Session, p: Seq<u8>, res: Result<(), Error>) -> bool {
        self.opened && p.len() >= 8 ==> {
            let id = be32(p) as u32;
            let size = chan_size(be32(p.skip(4)));
            let hot = self.chan_mark == Some(id);
            let fin = |v: Seq<u8>| if hot { stamped(v, self.clock) } else { v };
            &&& res is Ok
            &&& after == (Session { channels: after.channels, metrics: after.metrics, ..self })
            &&& match first_slot(self.channels@, id) {
                Some(i) => {
                    &&& after.spec_channels() == self.spec_channels().update(
                        i,
                        (id, fin(resized(self.spec_channels()[i].1, size))),
                    )
                    &&& after.metrics == self.metrics
                },
                None => {
                    &&& after.spec_channels() == self.spec_channels().push((id, fin(Seq::new(size, |i: int| 0u8))))
                    &&& after.metrics == (Metrics { live_channels: gauge_up(self.metrics.live_channels), ..self.metrics })
                },
            }
        }
    }

    /// What `CONTINUATION` / `NESTED_RECORD` does in an open session at
    /// nesting `depth`: past eight levels a limit error; at the top a lone
    /// padding byte (0x0F) is accepted; an empty payload is malformed; an
    /// inner data record is handled as `DATA_RECORD`, an inner continuation
    /// or nested record is unwrapped again one level deeper, and any other
    /// inner type is accepted. Only the data-record case changes the session.
    pub closed spec fn nested_step(self, after: Session, p: Seq<u8>, depth: int, res: Result<(), Error>) -> bool
        decreases 9 - depth,
    {
        if !self.opened || depth < 0 {
            true
        } else if depth > 8 {
            res is Err && res->Err_0.kind == Kind::Limit && after == self
        } else if depth == 0 && p.len() > 0 && p[0] == 0x0F {
            res is Ok && after == self
        } else if p.len() == 0 {
            res is Err && res->Err_0.kind == Kind::Malformed && after == self
        } else if spec_from_code(p[0]) == Some(MsgType::DataRecord) {
            self.data_record_step(after, p.skip(1), res)
        } else if spec_from_code(p[0]) == Some(MsgType::Continuation) || spec_from_code(p[0]) == Some(
            MsgType::NestedRecord,
        ) {
            self.nested_step(after, p.skip(1), depth + 1, res)
        } else {
            res is Ok && after == self
        }
    }

    /// What handing message `m` to its handler does: the refusal before
    /// `SESSION_OPEN`, then, for every message type, the step relation of its
    /// handler (each naming the parts of the session it changes and leaving
    /// the rest as it was); codec, engine, plugin and scope messages change
    /// nothing.
    #[verifier::opaque]
    pub closed spec fn dispatch_step(self, after: Session, m: MessageSpec, res: Result<(), Error>) -> bool {
        &&& after.metrics.streams_parsed == self.metrics.streams_parsed
        &&& after.metrics.messages_seen == self.metrics.messages_seen
        &&& needs_open(m.ty) && !self.opened ==> res is Err && res->Err_0.kind == Kind::Protocol && after == self
        &&& !may_limit(m.ty) && res is Err ==> res->Err_0.kind != Kind::Limit
        &&& !touches_flows(m.ty) ==> after.flows.flows() == self.flows.flows()
        &&& !carries_record(m.ty) ==> after.metrics.records_decoded == self.metrics.records_decoded
        &&& m.ty != MsgType::SessionOpen && m.ty != MsgType::SessionClose ==> after.opened == self.opened
        &&& self.opened && min_payload(m.ty) is Some ==> (res is Ok <==> m.payload.len() >= min_payload(m.ty)->Some_0)
        &&& m.ty == MsgType::SessionOpen ==> self.session_open_step(after, m.payload, res)
        &&& m.ty == MsgType::SessionClose ==> self.session_close_step(after, res)
        &&& m.ty == MsgType::SchemaDef ==> self.schema_def_step(after, m.payload, false, res)
        &&& m.ty == MsgType::SchemaUpdate ==> self.schema_def_step(after, m.payload, true, res)
        &&& m.ty == MsgType::TemplateDef ==> self.template_def_step(after, m.payload, res)
        &&& m.ty == MsgType::DataRecord ==> self.data_record_step(after, m.payload, res)
        &&& m.ty == MsgType::SectionHeader ==> self.section_header_step(after, m.payload, res)
        &&& m.ty == MsgType::SnapshotBegin ==> self.snapshot_begin_step(after, m.payload, res)
        &&& m.ty == MsgType::SnapshotCommit ==> self.snapshot_commit_step(after, m.payload)
        &&& self.opened && min_payload(m.ty) is Some && m.payload.len() < min_payload(m.ty)->Some_0 ==> after == self
        &&& inert(m.ty) ==> after == self
        &&& m.ty == MsgType::FlowOpen ==> self.flow_open_step(after, m.payload, res)
        &&& m.ty == MsgType::StreamOpen ==> self.stream_open_step(after, m.payload, res)
        &&& m.ty == MsgType::Fragment ==> self.fragment_step(after, m.payload, res)
        &&& m.ty == MsgType::FragmentReorder ==> self.reorder_step(after, m.payload, res)
        &&& m.ty == MsgType::FlowTimeout ==> self.timeout_step(after, m.payload, res)
        &&& m.ty == MsgType::ConnOpen ==> self.conn_open_step(after, m.payload, res)
        &&& m.ty == MsgType::ConnReset ==> self.conn_reset_step(after, m.payload, res)
        &&& m.ty == MsgType::Request ==> self.request_step(after, m.payload, res)
        &&& m.ty == MsgType::ProcessQueue ==> self.process_queue_step(after, res)
        &&& m.ty == MsgType::Packet ==> self.packet_step(after, m.payload, res)
        &&& m.ty == MsgType::ReadWindow ==> self.read_window_step(after, m.payload, res)
        &&& m.ty == MsgType::SeekRelative ==> self.seek_step(after, m.payload, res)
        &&& m.ty == MsgType::ChannelOpen ==> self.channel_open_step(after, m.payload, res)
        &&& m.ty == MsgType::ChannelTeardown ==> self.channel_teardown_step(after, m.payload, res)
        &&& m.ty == MsgType::ChannelAlloc ==> self.channel_alloc_step(after, m.payload, res)
        &&& m.ty == MsgType::Continuation || m.ty == MsgType::NestedRecord ==> self.nested_step(after, m.payload, 0, res)
    }

    /// Refusal before `SESSION_OPEN`: in a session that is not open, handling
    /// any message whose descriptor requires an open session fails with a
    /// protocol error and leaves the whole session as it was.
    pub proof fn lemma_refused_before_open(self, after: Session, m: MessageSpec, res: Result<(), Error>)
        requires
            self.dispatch_step(after, m, res),
            !self.spec_opened(),
            spec_descriptor(m.ty).requires_open,
        ensures
            res is Err && res->Err_0.kind == Kind::Protocol,
            after == self,
    {
        reveal(Session::dispatch_step);
    }

    /// A session with the default configuration.
    pub fn new() -> (s: Session)
        ensures
            s.wf(),
            !s.spec_opened(),
            s.spec_flows() == Seq::<FlowRecord>::empty(),
            crate::metrics::all_zero(s.spec_metrics()),
    {
        Session::with_config(Config::default())
    }

    pub fn with_config(cfg: Config) -> (s: Session)
        requires
            config_ok(cfg),
        ensures
            s.wf(),
            !s.spec_opened(),
            s.spec_config() == cfg,
            s.spec_clock() == 1,
            s.spec_flows() == Seq::<FlowRecord>::empty(),
            crate::metrics::all_zero(s.spec_metrics()),
    {
        let templates = TemplateCache::new(cfg.template_capacity);
        let flows = FlowTable::new(cfg.flow_capacity, cfg.flow_idle_ticks, cfg.arena_chunk);
        let scratch = if cfg.window_size < 4096 { cfg.window_size } else { 4096 };
        Session {
            clock: 1,
            opened: false,
            session_id: 0,
            schemas: SchemaRegistry::new(),
            templates,
            flows,
            biflows: BiflowPairer::new(),
            reasm: Vec::new(),
            streams: Vec::new(),
            conns: ConnRegistry::new(scratch),
            channels: Vec::new(),
            chan_mark: None,
            sections: Vec::new(),
            next_section: 0,
            pending_snap: None,
            metrics: Metrics::new(),
            cfg,
        }
    }

    pub fn metrics(&self) -> (m: &Metrics)
        ensures
            *m == self.spec_metrics(),
    {
        &self.metrics
    }

    pub fn is_open(&self) -> (b: bool)
        ensures
            b == self.spec_opened(),
    {
        self.opened
    }

    pub fn flow_count(&self) -> (n: usize)
        ensures
            n == self.spec_flows().len(),
    {
        self.flows.len()
    }

    /// Parse one CVWP stream and process every message it contains. A framing
    /// error fails the stream before any message is handled. A message whose
    /// handler fails is counted as an error; a limit violation aborts the
    /// stream, any other failure lets it continue.
    pub fn process_stream(&mut self, data: &[u8]) -> (res: Result<(), Error>)
        requires
            old(self).wf(),
        ensures
            final(self).wf(),
            final(self).spec_metrics().streams_parsed == sat_add(old(self).spec_metrics().streams_parsed, 1),
            spec_parse_all(data@, FrameConfig::spec_default()) matches Err((k, _)) ==> res is Err && res->Err_0.kind
                == k,
            spec_parse_all(data@, FrameConfig::spec_default()) matches Ok(st) ==> {
                &&& res is Err ==> res->Err_0.kind == Kind::Limit
                &&& res is Ok ==> final(self).spec_metrics().messages_seen == sat_add(
                    old(self).spec_metrics().messages_seen,
                    st.msgs.len() as int,
                )
                &&& limit_free(st.msgs) ==> res is Ok
                &&& leaves_flows(st.msgs) ==> final(self).spec_flows() == old(self).spec_flows()
                &&& no_data_records(st.msgs) ==> final(self).spec_metrics().records_decoded
                    == old(self).spec_metrics().records_decoded
                &&& !old(self).spec_opened() && all_need_open(st.msgs) ==> {
                    &&& res is Ok
                    &&& !final(self).spec_opened()
                    &&& final(self).spec_flows() == old(self).spec_flows()
                    &&& final(self).spec_metrics().decode_errors == sat_add(
                        old(self).spec_metrics().decode_errors,
                        st.msgs.len() as int,
                    )
                    &&& final(self).spec_metrics().records_decoded == old(self).spec_metrics().records_decoded
                }
                &&& exists|tr: Seq<(Session, Session, Result<(), Error>)>|
                    #[trigger] handled(*old(self), *final(self), tr, st.msgs) && (res is Ok ==> tr.len()
                        == st.msgs.len()) && (res is Err ==> tr.len() > 0 && tr.last().2 == res)
            },
            took_stream(*old(self), *final(self), data@, res),
    {
        self.metrics.note_stream(data.len());
        let mut parser = FrameParser::new();
        let messages = parser.parse_all(data)?;
        let ghost seen0 = self.metrics.messages_seen;
        let ghost msgs = spec_parse_all(data@, FrameConfig::spec_default())->Ok_0.msgs;
        let ghost refused = !old(self).opened && all_need_open(msgs);
        let ghost mut tr: Seq<(Session, Session, Result<(), Error>)> = Seq::empty();
        let mut i: usize = 0;
        while i < messages.len()
            invariant
                i <= messages@.len(),
                spec_parse_all(data@, FrameConfig::spec_default()) is Ok,
                msgs == spec_parse_all(data@, FrameConfig::spec_default())->Ok_0.msgs,
                messages@.map_values(|m: Message| m@) == msgs,
                refused == (!old(self).opened && all_need_open(msgs)),
                seen0 == old(self).metrics.messages_seen,
                self.wf(),
                self.metrics.streams_parsed == sat_add(old(self).metrics.streams_parsed, 1),
                self.metrics.messages_seen == sat_add(seen0, i as int),
                leaves_flows(msgs) ==> self.flows.flows() == old(self).flows.flows(),
                no_data_records(msgs) ==> self.metrics.records_decoded == old(self).metrics.records_decoded,
                refused ==> !self.opened && self.flows.flows() == old(self).flows.flows()
                    && self.metrics.decode_errors == sat_add(old(self).metrics.decode_errors, i as int)
                    && self.metrics.records_decoded == old(self).metrics.records_decoded,
                tr.len() == i,
                handled(*old(self), *self, tr, msgs),
            decreases messages@.len() - i,
        {
            let msg = &messages[i];
            proof {
                assert(msgs[i as int] == messages@[i as int]@);
                if refused {
                    assert(needs_open(msgs[i as int].ty));
                }
                if leaves_flows(msgs) {
                    assert(!touches_flows(msgs[i as int].ty));
                }
                if limit_free(msgs) {
                    assert(!may_limit(msgs[i as int].ty));
                }
                if no_data_records(msgs) {
                    assert(!carries_record(msgs[i as int].ty));
                }
            }
            let ghost cur = *self;
            self.clock = if self.clock == u64::MAX { u64::MAX } else { self.clock + 1 };
            self.metrics.note_message(msg.ty.code());
            let ghost pre = *self;
            let r = self.dispatch(msg);
            let ghost post = *self;
            let ghost tr0 = tr;
            proof {
                tr = tr.push((pre, post, r));
            }
            match r {
                Ok(()) => {},
                Err(e) => {
                    self.metrics.note_error();
                },
            }
            proof {
                lemma_handled_extend(*old(self), cur, tr0, msgs, pre, post, r, *self);
            }
            match r {
                Ok(()) => {},
                Err(e) => {
                    if !e.kind.is_recoverable() {
                        return Err(e);
                    }
                },
            }
            i = i + 1;
        }
        let ghost before_end = *self;
        self.metrics.arena_high_water = self.flows.arena_high_water();
        proof {
            lemma_handled_extend_end(*old(self), before_end, tr, msgs, *self);
        }
        Ok(())
    }

    fn require_open(&self) -> (res: Result<(), Error>)
        ensures
            self.spec_opened() ==> res is Ok,
            !self.spec_opened() ==> res is Err && res->Err_0.kind == Kind::Protocol,
    {
        if self.opened {
            Ok(())
        } else {
            Err(Error::protocol("message before SESSION_OPEN"))
        }
    }

    /// Hand one message to its handler. Before `SESSION_OPEN`, every message
    /// whose descriptor requires an open session (all but `SESSION_OPEN` and
    /// `SESSION_CLOSE`) is refused with a protocol error and changes nothing.
    fn dispatch(&mut self, msg: &Message) -> (res: Result<(), Error>)
        requires
            old(self).wf(),
        ensures
            final(self).wf(),
            final(self).spec_metrics().streams_parsed == old(self).spec_metrics().streams_parsed,
            final(self).spec_metrics().messages_seen == old(self).spec_metrics().messages_seen,
            needs_open(msg.ty) && !old(self).spec_opened() ==> res is Err && res->Err_0.kind == Kind::Protocol
                && *final(self) == *old(self),
            !may_limit(msg.ty) && res is Err ==> res->Err_0.kind != Kind::Limit,
            !touches_flows(msg.ty) ==> final(self).spec_flows() == old(self).spec_flows(),
            !carries_record(msg.ty) ==> final(self).spec_metrics().records_decoded
                == old(self).spec_metrics().records_decoded,
            old(self).dispatch_step(*final(self), msg@, res),
    {
        proof {
            reveal(Session::dispatch_step);
        }
        let p = msg.payload;
        match msg.ty {
            MsgType::SessionOpen => self.on_session_open(p),
            MsgType::SessionClose => self.on_session_close(p),
            MsgType::SchemaDef => self.on_schema_def(p, false),
            MsgType::SchemaUpdate => self.on_schema_def(p, true),
            MsgType::TemplateDef => self.on_template_def(p),
            MsgType::DataRecord => self.on_data_record(p),
            MsgType::Fragment => self.on_fragment(p),
            MsgType::FragmentReorder => self.on_fragment_reorder(p),
            MsgType::FlowOpen => self.on_flow_open(p),
            MsgType::FlowTimeout => self.on_flow_timeout(p),
            MsgType::CompressedBlock => self.on_compressed_block(p),
            MsgType::SectionHeader => self.on_section_header(p),
            MsgType::ConnOpen => self.on_conn_open(p),
            MsgType::ConnReset => self.on_conn_reset(p),
            MsgType::Continuation | MsgType::NestedRecord => self.on_nested(p, 0),
            MsgType::ModuleLoad | MsgType::ModuleReload | MsgType::CallSymbol | MsgType::PluginInvoke => {
                self.on_engine_u32(p)
            },
            MsgType::ScopeBegin | MsgType::ScopeEnd => self.require_open(),
            MsgType::PluginRegister => self.on_plugin_register(p),
            MsgType::CompressConfig => self.on_compress_config(p),
            MsgType::CompressData => self.require_open(),
            MsgType::Request => self.on_request(p),
            MsgType::ProcessQueue => {
                self.require_open()?;
                self.conns.process_queue();
                Ok(())
            },
            MsgType::StreamOpen => self.on_stream_open(p),
            MsgType::Packet => self.on_packet(p),
            MsgType::ReadWindow => self.on_read_window(p),
            MsgType::SeekRelative => self.on_seek_relative(p),
            MsgType::ChannelOpen => self.on_channel_open(p),
            MsgType::ChannelTeardown => self.on_channel_teardown(p),
            MsgType::ChannelAlloc => self.on_channel_alloc(p),
            MsgType::SnapshotBegin => self.on_snapshot_begin(p),
            MsgType::SnapshotCommit => self.on_snapshot_commit(p),
        }
    }

    // --- lifecycle -------------------------------------------------------

    /// `SESSION_OPEN`: a session id (u32) and an optional feature word.
    fn on_session_open(&mut self, payload: &[u8]) -> (res: Result<(), Error>)
        requires
            old(self).wf(),
        ensures
            res is Err ==> res->Err_0.kind != Kind::Limit,
            final(self).flows == old(self).flows,
            final(self).metrics.records_decoded == old(self).metrics.records_decoded,
            final(self).wf(),
            final(self).spec_metrics() == old(self).spec_metrics(),
            payload@.len() < 4 ==> res is Err && res->Err_0.kind == Kind::Malformed && *final(self) == *old(self),
            payload@.len() >= 4 ==> res is Ok && final(self).spec_opened() && final(self).spec_session_id()
                == be32(payload@),
            old(self).session_open_step(*final(self), payload@, res),
    {
        let mut r = ByteReader::new(payload);
        self.session_id = r.u32()?;
        let _features = match r.u32() {
            Ok(v) => v,
            Err(_) => 0,
        };
        self.opened = true;
        Ok(())
    }

    /// `SESSION_CLOSE`: flush every flow and close the session.
    fn on_session_close(&mut self, payload: &[u8]) -> (res: Result<(), Error>)
        requires
            old(self).wf(),
        ensures
            res is Err ==> res->Err_0.kind != Kind::Limit,
            final(self).metrics.records_decoded == old(self).metrics.records_decoded,
            final(self).wf(),
            res is Ok,
            !final(self).spec_opened(),
            final(self).spec_flows() == Seq::<FlowRecord>::empty(),
            final(self).spec_metrics() == old(self).spec_metrics(),
            old(self).session_close_step(*final(self), res),
    {
        let mut r = ByteReader::new(payload);
        let _sid = match r.u32() {
            Ok(v) => v,
            Err(_) => self.session_id,
        };
        self.flows.abandon_arena();
        self.flows.flush();
        self.opened = false;
        Ok(())
    }

    // --- schema / template ----------------------------------------------

    fn on_schema_def(&mut self, payload: &[u8], update: bool) -> (res: Result<(), Error>)
        requires
            old(self).wf(),
        ensures
            final(self).opened == old(self).opened,
            final(self).flows == old(self).flows,
            final(self).metrics.records_decoded == old(self).metrics.records_decoded,
            final(self).wf(),
            final(self).spec_metrics() == old(self).spec_metrics(),
            !old(self).spec_opened() ==> res is Err && res->Err_0.kind == Kind::Protocol && *final(self) == *old(self),
            old(self).schema_def_step(*final(self), payload@, update, res),
    {
        self.require_open()?;
        let mut r = ByteReader::new(payload);
        let schema_id = r.u16()?;
        assert(r@ =~= payload@.skip(2));
        let fields = decode::parse_fields(&mut r)?;
        let ghost parsed = fields@;
        let ghost before = self.schemas.spec_schemas();
        proof {
            lemma_row_width_bound(fields@);
            assert(65535 * fields@.len() <= 65535 * 4096) by (nonlinear_arith)
                requires
                    fields@.len() <= 4096,
            ;
        }
        let out = if update {
            self.schemas.update(schema_id, fields)
        } else {
            self.schemas.define(schema_id, fields)
        };
        proof {
            let now = self.schemas.spec_schemas();
            if out is Ok {
                assert(now[schema_id].fields@ == parsed);
                assert(now.dom() =~= before.dom().insert(schema_id));
            }
        }
        match out {
            Ok(_) => Ok(()),
            Err(e) => Err(e),
        }
    }

    fn on_template_def(&mut self, payload: &[u8]) -> (res: Result<(), Error>)
        requires
            old(self).wf(),
        ensures
            final(self).opened == old(self).opened,
            final(self).metrics.records_decoded == old(self).metrics.records_decoded,
            final(self).wf(),
            !old(self).spec_opened() ==> res is Err && res->Err_0.kind == Kind::Protocol && *final(self) == *old(self),
            final(self).spec_metrics().streams_parsed == old(self).spec_metrics().streams_parsed,
            final(self).spec_metrics().messages_seen == old(self).spec_metrics().messages_seen,
            ({
                let q = payload@.skip(4);
                old(self).spec_opened() && payload@.len() >= 6 && 1 <= be16(q) <= 4096 && decode::spec_field_entries(
                    q.skip(2),
                    be16(q) as nat,
                ) is Some
            }) ==> {
                let tid = be16(payload@) as u16;
                let t = final(self).templates.spec_templates()[tid];
                &&& res is Ok
                &&& final(self).templates.spec_templates().dom().contains(tid)
                &&& t.schema_id == be16(payload@.skip(2)) as u16
                &&& t.fields@.map_values(|f: FieldSpec| decode::entry_of(f)) == decode::spec_field_entries(
                    payload@.skip(4).skip(2),
                    be16(payload@.skip(4)) as nat,
                )->Some_0
            },
            old(self).template_def_step(*final(self), payload@, res),
    {
        self.require_open()?;
        let mut r = ByteReader::new(payload);
        let template_id = r.u16()?;
        assert(r@ =~= payload@.skip(2));
        let schema_id = r.u16()?;
        assert(r@ =~= payload@.skip(4));
        let ghost fs_bytes = r@;
        let fields = decode::parse_fields(&mut r)?;
        let ghost parsed = fields@;
        proof {
            lemma_row_width_bound(fields@);
            assert(65535 * fields@.len() <= 65535 * 4096) by (nonlinear_arith)
                requires
                    fields@.len() <= 4096,
            ;
        }
        let tmpl = Template::new(template_id, schema_id, fields);
        let ghost tv = tmpl;
        let evicted = self.templates.define(tmpl);
        let ghost tcache = self.templates;
        proof {
            let t = tcache.spec_templates()[template_id];
            assert(t.fields == tv.fields);
            assert(t.fields@ == parsed);
        }
        self.metrics.templates_defined = self.metrics.templates_defined.saturating_add(1);
        let ghost mid = *self;
        // Drop flow bindings to any template just evicted so nothing keeps a
        // stale reference to it.
        let mut i: usize = 0;
        while i < evicted.len()
            invariant
                i <= evicted@.len() <= 1,
                self.wf(),
                *self == (Session { flows: self.flows, ..mid }),
                i == 0 ==> self.flows.flows() == mid.flows.flows(),
                i == 1 ==> self.flows.flows() == mid.flows.flows().filter(
                    |r: FlowRecord| r.template_id != evicted@[0],
                ),
            decreases evicted@.len() - i,
        {
            self.flows.purge_template(evicted[i]);
            i = i + 1;
        }
        Ok(())
    }

    /// `DATA_RECORD`: the fixed header, then template-specific bytes. The
    /// template must be known; the record is counted and, when aggregating,
    /// folded into the flow table and the biflow pairer; then idle flows are
    /// swept.
    fn on_data_record(&mut self, payload: &[u8]) -> (res: Result<(), Error>)
        requires
            old(self).wf(),
        ensures
            final(self).opened == old(self).opened,
            res is Err ==> res->Err_0.kind != Kind::Limit,
            final(self).wf(),
            final(self).spec_metrics().streams_parsed == old(self).spec_metrics().streams_parsed,
            final(self).spec_metrics().messages_seen == old(self).spec_metrics().messages_seen,
            !old(self).spec_opened() ==> res is Err && res->Err_0.kind == Kind::Protocol && *final(self) == *old(self),
            old(self).spec_opened() && payload@.len() < decode::data_header_len() ==> res is Err && res->Err_0.kind
                == Kind::Malformed,
            old(self).data_record_step(*final(self), payload@, res),
            res is Ok ==> final(self).spec_metrics().records_decoded == sat_add(
                old(self).spec_metrics().records_decoded,
                1,
            ),
            res is Err ==> final(self).spec_metrics().records_decoded == old(self).spec_metrics().records_decoded,
            old(self).spec_opened() && payload@.len() >= decode::data_header_len() ==> {
                let h = decode::spec_data_header(payload@);
                let known = old(self).templates.spec_templates().dom().contains(h.template_id);
                &&& !known ==> res is Err && res->Err_0.kind == Kind::Unresolved && final(self).flows
                    == old(self).flows
                &&& known ==> {
                    let t = old(self).templates.spec_templates()[h.template_id];
                    let idle = old(self).flows.spec_idle_ticks();
                    let folded = if old(self).cfg.aggregate {
                        flows_after_update(
                            old(self).flows.flows(),
                            old(self).flows.spec_capacity(),
                            h.key,
                            h.octets,
                            h.packets,
                            h.template_id,
                            t.generation,
                            t.fields.len() as u16,
                            old(self).clock,
                            idle,
                        )
                    } else {
                        old(self).flows.flows()
                    };
                    &&& res is Ok
                    &&& final(self).flows.flows() == flows_after_sweep(folded, old(self).clock, idle)
                    &&& final(self).metrics == (Metrics {
                        records_decoded: sat_add(old(self).metrics.records_decoded, 1),
                        ..old(self).metrics
                    })
                    &&& old(self).cfg.aggregate ==> observed_into(
                        old(self).biflows.entries(),
                        final(self).biflows.entries(),
                        (FlowRecord { octets: h.octets, packets: h.packets, ..spec_new_record(h.key, old(self).clock) }),
                    )
                    &&& !old(self).cfg.aggregate ==> final(self).biflows.entries() == old(self).biflows.entries()
                }
            },
    {
        self.require_open()?;
        let mut r = ByteReader::new(payload);
        let hdr = decode::parse_data_header(&mut r)?;
        let _body = r.rest();
        let (gen, field_count, _row_stride, _schema_id) = match self.templates.get(hdr.template_id) {
            Some(t) => (t.generation, t.fields.len() as u16, t.row_stride, t.schema_id),
            None => {
                return Err(Error::unresolved("data for unknown template"));
            },
        };
        self.metrics.note_record();
        if self.cfg.aggregate {
            self.flows.update(hdr.key, hdr.octets, hdr.packets, hdr.template_id, gen, field_count, self.clock);
            let mut snap = FlowRecord::new(hdr.key, self.clock);
            snap.octets = hdr.octets;
            snap.packets = hdr.packets;
            self.biflows.observe(&snap);
        }
        self.flows.sweep(self.clock);
        Ok(())
    }

    // --- reassembly ------------------------------------------------------

    fn find_reasm(&self, id: u32) -> (r: Option<usize>)
        ensures
            r matches Some(i) ==> i < self.reasm@.len() && self.reasm@[i as int].0 == id && forall|j: int|
                0 <= j < i ==> (#[trigger] self.reasm@[j]).0 != id,
            r is None ==> forall|j: int| 0 <= j < self.reasm@.len() ==> (#[trigger] self.reasm@[j]).0 != id,
    {
        let mut i: usize = 0;
        while i < self.reasm.len()
            invariant
                i <= self.reasm@.len(),
                forall|j: int| 0 <= j < i ==> (#[trigger] self.reasm@[j]).0 != id,
            decreases self.reasm@.len() - i,
        {
            if self.reasm[i].0 == id {
                return Some(i);
            }
            i = i + 1;
        }
        None
    }

    fn find_stream(&self, id: u32) -> (r: Option<usize>)
        ensures
            r matches Some(i) ==> i < self.streams@.len() && self.streams@[i as int].0 == id && forall|j: int|
                0 <= j < i ==> (#[trigger] self.streams@[j]).0 != id,
            r is None ==> forall|j: int| 0 <= j < self.streams@.len() ==> (#[trigger] self.streams@[j]).0 != id,
    {
        let mut i: usize = 0;
        while i < self.streams.len()
            invariant
                i <= self.streams@.len(),
                forall|j: int| 0 <= j < i ==> (#[trigger] self.streams@[j]).0 != id,
            decreases self.streams@.len() - i,
        {
            if self.streams[i].0 == id {
                return Some(i);
            }
            i = i + 1;
        }
        None
    }

    /// Open a stream window of `window` bytes (bounded by the configuration)
    /// unless one with this id exists.
    fn ensure_stream(&mut self, id: u32, window: usize)
        requires
            old(self).wf(),
        ensures
            final(self).wf(),
            *final(self) == (Session { streams: final(self).streams, ..*old(self) }),
            stream_ensured(old(self).streams@, final(self).streams@, id, window as int, old(self).cfg.window_size * 4),
    {
        match self.find_stream(id) {
            Some(j) => {
                proof {
                    lemma_first_slot(self.streams@, id);
                }
            },
            None => {
                proof {
                    lemma_first_slot_none(self.streams@, id);
                }
                let hi = self.cfg.window_size * 4;
                let size = if window < 64 { 64 } else if window > hi { hi } else { window };
                let w = Window::new(size);
                self.streams.push((id, StreamCtx { window: w, read_pos: 0 }));
                proof {
                    assert(self.streams@ =~= old(self).streams@.push((id, self.streams@.last().1)));
                    assert forall|i: int| 0 <= i < self.streams@.len() implies (#[trigger] self.streams@[i]).1.window.wf() by {
                        if i < self.streams@.len() - 1 {
                            assert(self.streams@[i] == old(self).streams@[i]);
                        }
                    }
                }
            },
        }
    }

    fn on_flow_open(&mut self, payload: &[u8]) -> (res: Result<(), Error>)
        requires
            old(self).wf(),
        ensures
            final(self).opened == old(self).opened,
            old(self).spec_opened() ==> (res is Ok <==> payload@.len() >= 4),
            res is Err ==> res->Err_0.kind != Kind::Limit,
            final(self).flows == old(self).flows,
            final(self).metrics.records_decoded == old(self).metrics.records_decoded,
            final(self).wf(),
            !old(self).spec_opened() ==> res is Err && res->Err_0.kind == Kind::Protocol && *final(self) == *old(self),
            final(self).spec_metrics().streams_parsed == old(self).spec_metrics().streams_parsed,
            final(self).spec_metrics().messages_seen == old(self).spec_metrics().messages_seen,
            old(self).flow_open_step(*final(self), payload@, res),
            old(self).spec_opened() && payload@.len() < 4 ==> *final(self) == *old(self),
    {
        self.require_open()?;
        let mut r = ByteReader::new(payload);
        let flow_id = r.u32()?;
        assert(r@ =~= payload@.skip(4));
        let window = match r.u32() {
            Ok(v) => v as usize,
            Err(_) => (self.cfg.window_size as u32) as usize,
        };
        assert(window as int == old(self).open_window(payload@));
        match self.find_reasm(flow_id) {
            Some(j) => {
                proof {
                    lemma_first_slot(self.reasm@, flow_id);
                }
            },
            None => {
                proof {
                    lemma_first_slot_none(self.reasm@, flow_id);
                }
                let re = Reassembler::new(self.cfg.max_fragments, self.cfg.window_size * 4);
                self.reasm.push((flow_id, re));
                proof {
                    assert(self.reasm@ =~= old(self).reasm@.push((flow_id, self.reasm@.last().1)));
                    assert forall|i: int| 0 <= i < self.reasm@.len() implies (#[trigger] self.reasm@[i]).1.wf() by {
                        if i < self.reasm@.len() - 1 {
                            assert(self.reasm@[i] == old(self).reasm@[i]);
                        }
                    }
                }
            },
        }
        self.ensure_stream(flow_id, window);
        self.metrics.open_flow();
        Ok(())
    }

    fn on_fragment(&mut self, payload: &[u8]) -> (res: Result<(), Error>)
        requires
            old(self).wf(),
        ensures
            final(self).opened == old(self).opened,
            final(self).flows == old(self).flows,
            final(self).metrics.records_decoded == old(self).metrics.records_decoded,
            final(self).wf(),
            !old(self).spec_opened() ==> res is Err && res->Err_0.kind == Kind::Protocol && *final(self) == *old(self),
            final(self).spec_metrics().streams_parsed == old(self).spec_metrics().streams_parsed,
            final(self).spec_metrics().messages_seen == old(self).spec_metrics().messages_seen,
            old(self).fragment_step(*final(self), payload@, res),
    {
        self.require_open()?;
        let mut r = ByteReader::new(payload);
        let flow_id = r.u32()?;
        assert(r@ =~= payload@.skip(4));
        let offset = r.i32()?;
        assert(r@ =~= payload@.skip(8));
        let len = r.u16()?;
        assert(r@ =~= payload@.skip(10));
        let data = r.take(len as usize)?;
        let i = match self.find_reasm(flow_id) {
            Some(i) => i,
            None => {
                proof {
                    lemma_first_slot_none(self.reasm@, flow_id);
                }
                return Err(Error::unresolved("fragment for unopened flow"));
            },
        };
        proof {
            lemma_first_slot_at(self.reasm@, flow_id, i as int);
        }
        let mut entry = self.reasm.remove(i);
        let res = entry.1.add(offset, data);
        self.reasm.insert(i, entry);
        proof {
            assert(self.reasm@ =~= old(self).reasm@.update(i as int, (flow_id, self.reasm@[i as int].1)));
            assert forall|k: int| 0 <= k < self.reasm@.len() implies (#[trigger] self.reasm@[k]).1.wf() by {
                if k != i {
                    assert(self.reasm@[k] == old(self).reasm@[k]);
                }
            }
        }
        match res {
            Ok(()) => {},
            Err(e) => {
                return Err(e);
            },
        }
        self.metrics.fragments_seen = self.metrics.fragments_seen.saturating_add(1);
        Ok(())
    }

    fn on_fragment_reorder(&mut self, payload: &[u8]) -> (res: Result<(), Error>)
        requires
            old(self).wf(),
        ensures
            final(self).opened == old(self).opened,
            final(self).flows == old(self).flows,
            final(self).metrics.records_decoded == old(self).metrics.records_decoded,
            final(self).wf(),
            !old(self).spec_opened() ==> res is Err && res->Err_0.kind == Kind::Protocol && *final(self) == *old(self),
            final(self).spec_metrics() == old(self).spec_metrics(),
            old(self).reorder_step(*final(self), payload@, res),
    {
        self.require_open()?;
        let mut r = ByteReader::new(payload);
        let flow_id = r.u32()?;
        assert(r@ =~= payload@.skip(4));
        let start = r.i32()?;
        assert(r@ =~= payload@.skip(8));
        let end = r.i32()?;
        let i = match self.find_reasm(flow_id) {
            Some(i) => i,
            None => {
                proof {
                    lemma_first_slot_none(self.reasm@, flow_id);
                }
                return Err(Error::unresolved("reorder for unopened flow"));
            },
        };
        proof {
            lemma_first_slot_at(self.reasm@, flow_id, i as int);
        }
        let mut entry = self.reasm.remove(i);
        let res = entry.1.reorder(start, end);
        self.reasm.insert(i, entry);
        proof {
            assert(self.reasm@ =~= old(self).reasm@.update(i as int, (flow_id, self.reasm@[i as int].1)));
            assert forall|k: int| 0 <= k < self.reasm@.len() implies (#[trigger] self.reasm@[k]).1.wf() by {
                if k != i {
                    assert(self.reasm@[k] == old(self).reasm@[k]);
                }
            }
        }
        res
    }

    fn on_flow_timeout(&mut self, payload: &[u8]) -> (res: Result<(), Error>)
        requires
            old(self).wf(),
        ensures
            final(self).opened == old(self).opened,
            final(self).flows == old(self).flows,
            final(self).metrics.records_decoded == old(self).metrics.records_decoded,
            final(self).wf(),
            !old(self).spec_opened() ==> res is Err && res->Err_0.kind == Kind::Protocol && *final(self) == *old(self),
            final(self).spec_metrics().streams_parsed == old(self).spec_metrics().streams_parsed,
            final(self).spec_metrics().messages_seen == old(self).spec_metrics().messages_seen,
            old(self).timeout_step(*final(self), payload@, res),
            old(self).spec_opened() && payload@.len() < 4 ==> *final(self) == *old(self),
    {
        self.require_open()?;
        let mut r = ByteReader::new(payload);
        let flow_id = r.u32()?;
        match self.find_reasm(flow_id) {
            Some(i) => {
                proof {
                    lemma_first_slot_at(self.reasm@, flow_id, i as int);
                }
                let entry = self.reasm.remove(i);
                proof {
                    assert(self.reasm@ =~= old(self).reasm@.remove(i as int));
                    assert(entry == old(self).reasm@[i as int]);
                    assert forall|k: int| 0 <= k < self.reasm@.len() implies (#[trigger] self.reasm@[k]).1.wf() by {
                        let o = if k < i { k } else { k + 1 };
                        assert(self.reasm@[k] == old(self).reasm@[o]);
                    }
                }
                match entry.1.reassemble() {
                    Ok(_) => {},
                    Err(e) => {
                        return Err(e);
                    },
                }
            },
            None => {
                proof {
                    lemma_first_slot_none(self.reasm@, flow_id);
                }
            },
        }
        let ghost mid = *self;
        match self.find_stream(flow_id) {
            Some(i) => {
                proof {
                    lemma_first_slot_at(self.streams@, flow_id, i as int);
                }
                let ghost before = self.streams@;
                self.streams.remove(i);
                proof {
                    assert(self.streams@ =~= before.remove(i as int));
                    assert forall|k: int| 0 <= k < self.streams@.len() implies (#[trigger] self.streams@[k]).1.window.wf() by {
                        let o = if k < i { k } else { k + 1 };
                        assert(self.streams@[k] == before[o]);
                    }
                }
            },
            None => {
                proof {
                    lemma_first_slot_none(self.streams@, flow_id);
                }
            },
        }
        self.metrics.close_flow();
        Ok(())
    }

    // --- compression -------------------------------------------------------

    /// `COMPRESSED_BLOCK`: codec code, declared length, output limit, data.
    fn on_compressed_block(&mut self, payload: &[u8]) -> (res: Result<(), Error>)
        requires
            old(self).wf(),
        ensures
            old(self).spec_opened() ==> (res is Ok <==> payload@.len() >= 13),
            res is Err ==> res->Err_0.kind != Kind::Limit,
            *final(self) == *old(self),
            !old(self).spec_opened() ==> res is Err && res->Err_0.kind == Kind::Protocol,
    {
        self.require_open()?;
        let mut r = ByteReader::new(payload);
        let _codec = r.u8()?;
        let _declared = r.u64()?;
        let _limit = r.u32()?;
        Ok(())
    }

    /// `COMPRESS_CONFIG`: codec code then codec-specific parameters.
    fn on_compress_config(&mut self, payload: &[u8]) -> (res: Result<(), Error>)
        requires
            old(self).wf(),
        ensures
            old(self).spec_opened() ==> (res is Ok <==> payload@.len() >= 1),
            res is Err ==> res->Err_0.kind != Kind::Limit,
            *final(self) == *old(self),
            !old(self).spec_opened() ==> res is Err && res->Err_0.kind == Kind::Protocol,
    {
        self.require_open()?;
        let mut r = ByteReader::new(payload);
        let _codec = r.u8()?;
        Ok(())
    }

    // --- sections (columnar region) -------------------------------------

    /// `SECTION_HEADER`: row count and stride (both non-zero, at most 2^20
    /// rows of at most 2^16 bytes), then row data. The section keeps the whole
    /// rows of the body (at most `count` of them) and gets the next serial.
    /// The last eight sections are kept.
    fn on_section_header(&mut self, payload: &[u8]) -> (res: Result<(), Error>)
        requires
            old(self).wf(),
        ensures
            old(self).section_header_step(*final(self), payload@, res),
            final(self).opened == old(self).opened,
            final(self).flows == old(self).flows,
            final(self).metrics.records_decoded == old(self).metrics.records_decoded,
            final(self).wf(),
            final(self).spec_metrics() == old(self).spec_metrics(),
            !old(self).spec_opened() ==> res is Err && res->Err_0.kind == Kind::Protocol && *final(self) == *old(self),
            old(self).spec_opened() && payload@.len() >= 8 && (be32(payload@) == 0 || be32(payload@.skip(4)) == 0)
                ==> res is Err && res->Err_0.kind == Kind::Malformed,
            old(self).spec_opened() && payload@.len() >= 8 && be32(payload@) != 0 && be32(payload@.skip(4)) != 0
                && (be32(payload@) > 1048576 || be32(payload@.skip(4)) > 65536) ==> res is Err && res->Err_0.kind
                == Kind::Limit,
            res is Err ==> final(self).sections == old(self).sections,
            old(self).spec_opened() && payload@.len() >= 8 && 0 < be32(payload@) <= 1048576 && 0 < be32(
                payload@.skip(4),
            ) <= 65536 ==> res is Ok,
            res is Ok ==> {
                let count = be32(payload@);
                let stride = be32(payload@.skip(4));
                let kept = if old(self).sections@.len() >= 8 {
                    old(self).sections@.map_values(|x: Section| x@).drop_first()
                } else {
                    old(self).sections@.map_values(|x: Section| x@)
                };
                &&& old(self).spec_opened() && payload@.len() >= 8
                &&& 0 < count <= 1048576 && 0 < stride <= 65536
                &&& final(self).sections@.map_values(|x: Section| x@) == kept.push(
                    (old(self).next_section, count as u32, stride as u32, section_rows(payload@.skip(8), count, stride)),
                )
                &&& final(self).next_section == sat_inc64(old(self).next_section)
            },
    {
        self.require_open()?;
        let mut r = ByteReader::new(payload);
        let count = r.u32()?;
        assert(r@ =~= payload@.skip(4));
        let stride = r.u32()?;
        assert(r@ =~= payload@.skip(8));
        if count == 0 || stride == 0 {
            return Err(Error::malformed("empty section"));
        }
        if count > 1048576 || stride > 65536 {
            return Err(Error::limit("section dims too large"));
        }
        let body = r.rest();
        let avail = body.len() / (stride as usize);
        let rows: usize = if avail < count as usize { avail } else { count as usize };
        proof {
            assert(rows * (stride as int) <= body@.len()) by (nonlinear_arith)
                requires
                    rows <= (body@.len() as int) / (stride as int),
                    stride > 0,
            ;
        }
        let n = rows * (stride as usize);
        let data = copy_bytes(&body[0..n]);
        assert(body@.subrange(0, n as int) =~= section_rows(payload@.skip(8), count as int, stride as int));
        let ghost before = self.sections@.map_values(|x: Section| x@);
        if self.sections.len() >= 8 {
            self.sections.remove(0);
            assert(self.sections@.map_values(|x: Section| x@) =~= before.drop_first());
        }
        let ghost mid = self.sections@.map_values(|x: Section| x@);
        let sec = Section { serial: self.next_section, count, stride, data };
        self.sections.push(sec);
        assert(self.sections@.map_values(|x: Section| x@) =~= mid.push(sec@));
        self.next_section = if self.next_section == u64::MAX { u64::MAX } else { self.next_section + 1 };
        Ok(())
    }

    // --- connections -----------------------------------------------------

    fn on_conn_open(&mut self, payload: &[u8]) -> (res: Result<(), Error>)
        requires
            old(self).wf(),
        ensures
            final(self).opened == old(self).opened,
            old(self).spec_opened() ==> (res is Ok <==> payload@.len() >= 4),
            res is Err ==> res->Err_0.kind != Kind::Limit,
            final(self).flows == old(self).flows,
            final(self).metrics.records_decoded == old(self).metrics.records_decoded,
            final(self).wf(),
            final(self).spec_metrics() == old(self).spec_metrics(),
            !old(self).spec_opened() ==> res is Err && res->Err_0.kind == Kind::Protocol && *final(self) == *old(self),
            old(self).conn_open_step(*final(self), payload@, res),
            old(self).spec_opened() && payload@.len() < 4 ==> *final(self) == *old(self),
    {
        self.require_open()?;
        let mut r = ByteReader::new(payload);
        let id = r.u32()?;
        let _h = self.conns.open(id);
        Ok(())
    }

    fn on_conn_reset(&mut self, payload: &[u8]) -> (res: Result<(), Error>)
        requires
            old(self).wf(),
        ensures
            final(self).opened == old(self).opened,
            old(self).spec_opened() ==> (res is Ok <==> payload@.len() >= 4),
            res is Err ==> res->Err_0.kind != Kind::Limit,
            final(self).flows == old(self).flows,
            final(self).metrics.records_decoded == old(self).metrics.records_decoded,
            final(self).wf(),
            final(self).spec_metrics() == old(self).spec_metrics(),
            !old(self).spec_opened() ==> res is Err && res->Err_0.kind == Kind::Protocol && *final(self) == *old(self),
            old(self).conn_reset_step(*final(self), payload@, res),
            old(self).spec_opened() && payload@.len() < 4 ==> *final(self) == *old(self),
    {
        self.require_open()?;
        let mut r = ByteReader::new(payload);
        let id = r.u32()?;
        let _ = self.conns.reset(id);
        Ok(())
    }

    fn on_request(&mut self, payload: &[u8]) -> (res: Result<(), Error>)
        requires
            old(self).wf(),
        ensures
            final(self).opened == old(self).opened,
            final(self).flows == old(self).flows,
            final(self).metrics.records_decoded == old(self).metrics.records_decoded,
            final(self).wf(),
            final(self).spec_metrics() == old(self).spec_metrics(),
            !old(self).spec_opened() ==> res is Err && res->Err_0.kind == Kind::Protocol && *final(self) == *old(self),
            old(self).request_step(*final(self), payload@, res),
    {
        self.require_open()?;
        let mut r = ByteReader::new(payload);
        let id = r.u32()?;
        assert(r@ =~= payload@.skip(4));
        let opcode = r.u16()?;
        assert(r@ =~= payload@.skip(6));
        let body = r.rest();
        self.conns.enqueue(id, opcode, body)
    }

    // --- transform engine ------------------------------------------------

    /// Engine messages that lead with a u32 id (module, symbol or plugin).
    fn on_engine_u32(&mut self, payload: &[u8]) -> (res: Result<(), Error>)
        requires
            old(self).wf(),
        ensures
            res is Err ==> res->Err_0.kind != Kind::Limit,
            *final(self) == *old(self),
            !old(self).spec_opened() ==> res is Err && res->Err_0.kind == Kind::Protocol,
            old(self).spec_opened() ==> (res is Ok <==> payload@.len() >= 4),
    {
        self.require_open()?;
        let mut r = ByteReader::new(payload);
        let _id = r.u32()?;
        Ok(())
    }

    fn on_plugin_register(&mut self, payload: &[u8]) -> (res: Result<(), Error>)
        requires
            old(self).wf(),
        ensures
            res is Err ==> res->Err_0.kind != Kind::Limit,
            *final(self) == *old(self),
            !old(self).spec_opened() ==> res is Err && res->Err_0.kind == Kind::Protocol,
            old(self).spec_opened() ==> (res is Ok <==> payload@.len() >= 6),
    {
        self.require_open()?;
        let mut r = ByteReader::new(payload);
        let _plugin_id = r.u32()?;
        let _handler = r.u16()?;
        Ok(())
    }

    // --- streams ---------------------------------------------------------

    fn on_stream_open(&mut self, payload: &[u8]) -> (res: Result<(), Error>)
        requires
            old(self).wf(),
        ensures
            final(self).opened == old(self).opened,
            old(self).spec_opened() ==> (res is Ok <==> payload@.len() >= 4),
            res is Err ==> res->Err_0.kind != Kind::Limit,
            final(self).flows == old(self).flows,
            final(self).metrics.records_decoded == old(self).metrics.records_decoded,
            final(self).wf(),
            final(self).spec_metrics() == old(self).spec_metrics(),
            !old(self).spec_opened() ==> res is Err && res->Err_0.kind == Kind::Protocol && *final(self) == *old(self),
            old(self).stream_open_step(*final(self), payload@, res),
            old(self).spec_opened() && payload@.len() < 4 ==> *final(self) == *old(self),
    {
        self.require_open()?;
        let mut r = ByteReader::new(payload);
        let stream_id = r.u32()?;
        assert(r@ =~= payload@.skip(4));
        let window = match r.u32() {
            Ok(v) => v as usize,
            Err(_) => (self.cfg.window_size as u32) as usize,
        };
        assert(window as int == old(self).open_window(payload@));
        self.ensure_stream(stream_id, window);
        Ok(())
    }

    fn on_packet(&mut self, payload: &[u8]) -> (res: Result<(), Error>)
        requires
            old(self).wf(),
        ensures
            final(self).opened == old(self).opened,
            final(self).flows == old(self).flows,
            final(self).metrics.records_decoded == old(self).metrics.records_decoded,
            final(self).wf(),
            final(self).spec_metrics() == old(self).spec_metrics(),
            !old(self).spec_opened() ==> res is Err && res->Err_0.kind == Kind::Protocol && *final(self) == *old(self),
            old(self).packet_step(*final(self), payload@, res),
    {
        self.require_open()?;
        let mut r = ByteReader::new(payload);
        let stream_id = r.u32()?;
        assert(r@ =~= payload@.skip(4));
        let seq = r.u64()?;
        assert(r@ =~= payload@.skip(12));
        let data = r.rest();
        let i = match self.find_stream(stream_id) {
            Some(i) => i,
            None => {
                proof {
                    lemma_first_slot_none(self.streams@, stream_id);
                }
                return Err(Error::unresolved("packet for unopened stream"));
            },
        };
        proof {
            lemma_first_slot_at(self.streams@, stream_id, i as int);
        }
        if data.len() as u64 > u64::MAX - seq {
            return Err(Error::malformed("packet sequence overflows"));
        }
        let mut entry = self.streams.remove(i);
        let res = entry.1.window.place(seq, data);
        self.streams.insert(i, entry);
        proof {
            assert(self.streams@ =~= old(self).streams@.update(i as int, (stream_id, self.streams@[i as int].1)));
            assert forall|k: int| 0 <= k < self.streams@.len() implies (#[trigger] self.streams@[k]).1.window.wf() by {
                if k != i {
                    assert(self.streams@[k] == old(self).streams@[k]);
                }
            }
        }
        res
    }

    fn on_read_window(&mut self, payload: &[u8]) -> (res: Result<(), Error>)
        requires
            old(self).wf(),
        ensures
            final(self).opened == old(self).opened,
            final(self).flows == old(self).flows,
            final(self).metrics.records_decoded == old(self).metrics.records_decoded,
            final(self).wf(),
            final(self).spec_metrics() == old(self).spec_metrics(),
            !old(self).spec_opened() ==> res is Err && res->Err_0.kind == Kind::Protocol && *final(self) == *old(self),
            old(self).read_window_step(*final(self), payload@, res),
    {
        self.require_open()?;
        let mut r = ByteReader::new(payload);
        let stream_id = r.u32()?;
        assert(r@ =~= payload@.skip(4));
        let seq = r.u64()?;
        assert(r@ =~= payload@.skip(12));
        let len = r.u32()?;
        let i = match self.find_stream(stream_id) {
            Some(i) => i,
            None => {
                proof {
                    lemma_first_slot_none(self.streams@, stream_id);
                }
                return Err(Error::unresolved("read for unopened stream"));
            },
        };
        proof {
            lemma_first_slot_at(self.streams@, stream_id, i as int);
        }
        let out = match self.streams[i].1.window.read(seq, len as usize) {
            Ok(o) => o,
            Err(e) => {
                return Err(e);
            },
        };
        let mut entry = self.streams.remove(i);
        entry.1.read_pos = entry.1.read_pos.wrapping_add(out.len());
        self.streams.insert(i, entry);
        proof {
            assert(self.streams@ =~= old(self).streams@.update(i as int, (stream_id, self.streams@[i as int].1)));
            assert forall|k: int| 0 <= k < self.streams@.len() implies (#[trigger] self.streams@[k]).1.window.wf() by {
                if k != i {
                    assert(self.streams@[k] == old(self).streams@[k]);
                }
            }
        }
        Ok(())
    }

    fn on_seek_relative(&mut self, payload: &[u8]) -> (res: Result<(), Error>)
        requires
            old(self).wf(),
        ensures
            final(self).opened == old(self).opened,
            res is Err ==> res->Err_0.kind != Kind::Limit,
            final(self).flows == old(self).flows,
            final(self).metrics.records_decoded == old(self).metrics.records_decoded,
            final(self).wf(),
            final(self).spec_metrics() == old(self).spec_metrics(),
            !old(self).spec_opened() ==> res is Err && res->Err_0.kind == Kind::Protocol && *final(self) == *old(self),
            old(self).seek_step(*final(self), payload@, res),
    {
        self.require_open()?;
        let mut r = ByteReader::new(payload);
        let stream_id = r.u32()?;
        assert(r@ =~= payload@.skip(4));
        let delta = r.i32()?;
        let i = match self.find_stream(stream_id) {
            Some(i) => i,
            None => {
                proof {
                    lemma_first_slot_none(self.streams@, stream_id);
                }
                return Err(Error::unresolved("seek for unopened stream"));
            },
        };
        proof {
            lemma_first_slot_at(self.streams@, stream_id, i as int);
        }
        let pos = self.streams[i].1.read_pos as u64;
        let next: i128 = (pos as i128) + (delta as i128);
        if next < 0 || next > self.streams[i].1.window.size() as i128 {
            return Err(Error::malformed("stream seek out of range"));
        }
        let mut entry = self.streams.remove(i);
        entry.1.read_pos = next as usize;
        self.streams.insert(i, entry);
        proof {
            assert(self.streams@ =~= old(self).streams@.update(i as int, (stream_id, self.streams@[i as int].1)));
            assert forall|k: int| 0 <= k < self.streams@.len() implies (#[trigger] self.streams@[k]).1.window.wf() by {
                if k != i {
                    assert(self.streams@[k] == old(self).streams@[k]);
                }
            }
        }
        Ok(())
    }

    // --- channels --------------------------------------------------------

    fn find_channel(&self, id: u32) -> (r: Option<usize>)
        ensures
            r matches Some(i) ==> i < self.channels@.len() && self.channels@[i as int].0 == id && forall|j: int|
                0 <= j < i ==> (#[trigger] self.channels@[j]).0 != id,
            r is None ==> forall|j: int| 0 <= j < self.channels@.len() ==> (#[trigger] self.channels@[j]).0 != id,
    {
        let mut i: usize = 0;
        while i < self.channels.len()
            invariant
                i <= self.channels@.len(),
                forall|j: int| 0 <= j < i ==> (#[trigger] self.channels@[j]).0 != id,
            decreases self.channels@.len() - i,
        {
            if self.channels[i].0 == id {
                return Some(i);
            }
            i = i + 1;
        }
        None
    }

    /// `CHANNEL_OPEN`: id and size (clamped to 1..=2^20). A new channel is
    /// zero-filled; either way the channel becomes the marked one and the
    /// live-channel gauge goes up.
    fn on_channel_open(&mut self, payload: &[u8]) -> (res: Result<(), Error>)
        requires
            old(self).wf(),
        ensures
            final(self).opened == old(self).opened,
            old(self).spec_opened() ==> (res is Ok <==> payload@.len() >= 8),
            res is Err ==> res->Err_0.kind != Kind::Limit,
            final(self).flows == old(self).flows,
            final(self).metrics.records_decoded == old(self).metrics.records_decoded,
            final(self).wf(),
            final(self).spec_metrics().streams_parsed == old(self).spec_metrics().streams_parsed,
            final(self).spec_metrics().messages_seen == old(self).spec_metrics().messages_seen,
            !old(self).spec_opened() ==> res is Err && res->Err_0.kind == Kind::Protocol && *final(self) == *old(self),
            old(self).channel_open_step(*final(self), payload@, res),
            old(self).spec_opened() && payload@.len() < 8 ==> *final(self) == *old(self),
    {
        self.require_open()?;
        let mut r = ByteReader::new(payload);
        let id = r.u32()?;
        assert(r@ =~= payload@.skip(4));
        let raw = r.u32()?;
        let size: usize = if raw < 1 { 1 } else if raw > 1048576 { 1048576 } else { raw as usize };
        match self.find_channel(id) {
            Some(j) => {
                proof {
                    lemma_first_slot(self.channels@, id);
                }
            },
            None => {
                proof {
                    lemma_first_slot_none(self.channels@, id);
                }
                let z = zeroed(size);
                self.channels.push((id, z));
                proof {
                    assert(chan_views(self.channels@) =~= chan_views(old(self).channels@).push(
                        (id, Seq::new(size as nat, |i: int| 0u8)),
                    ));
                }
            },
        }
        self.chan_mark = Some(id);
        self.metrics.live_channels = if self.metrics.live_channels == i64::MAX {
            i64::MAX
        } else {
            self.metrics.live_channels + 1
        };
        Ok(())
    }

    fn on_channel_teardown(&mut self, payload: &[u8]) -> (res: Result<(), Error>)
        requires
            old(self).wf(),
        ensures
            final(self).opened == old(self).opened,
            old(self).spec_opened() ==> (res is Ok <==> payload@.len() >= 4),
            res is Err ==> res->Err_0.kind != Kind::Limit,
            final(self).flows == old(self).flows,
            final(self).metrics.records_decoded == old(self).metrics.records_decoded,
            final(self).wf(),
            final(self).spec_metrics().streams_parsed == old(self).spec_metrics().streams_parsed,
            final(self).spec_metrics().messages_seen == old(self).spec_metrics().messages_seen,
            !old(self).spec_opened() ==> res is Err && res->Err_0.kind == Kind::Protocol && *final(self) == *old(self),
            old(self).channel_teardown_step(*final(self), payload@, res),
            old(self).spec_opened() && payload@.len() < 4 ==> *final(self) == *old(self),
    {
        self.require_open()?;
        let mut r = ByteReader::new(payload);
        let id = r.u32()?;
        match self.find_channel(id) {
            Some(i) => {
                proof {
                    lemma_first_slot_at(self.channels@, id, i as int);
                }
                self.channels.remove(i);
                proof {
                    assert(chan_views(self.channels@) =~= chan_views(old(self).channels@).remove(i as int));
                }
                self.metrics.live_channels = if self.metrics.live_channels == i64::MIN {
                    i64::MIN
                } else {
                    self.metrics.live_channels - 1
                };
            },
            None => {
                proof {
                    lemma_first_slot_none(self.channels@, id);
                }
            },
        }
        Ok(())
    }

    /// `CHANNEL_ALLOC`: resize (or create) a channel; when it is the marked
    /// channel, stamp the clock big-endian into its first bytes.
    fn on_channel_alloc(&mut self, payload: &[u8]) -> (res: Result<(), Error>)
        requires
            old(self).wf(),
        ensures
            final(self).opened == old(self).opened,
            old(self).spec_opened() ==> (res is Ok <==> payload@.len() >= 8),
            res is Err ==> res->Err_0.kind != Kind::Limit,
            final(self).flows == old(self).flows,
            final(self).metrics.records_decoded == old(self).metrics.records_decoded,
            final(self).wf(),
            final(self).spec_metrics().streams_parsed == old(self).spec_metrics().streams_parsed,
            final(self).spec_metrics().messages_seen == old(self).spec_metrics().messages_seen,
            !old(self).spec_opened() ==> res is Err && res->Err_0.kind == Kind::Protocol && *final(self) == *old(self),
            old(self).channel_alloc_step(*final(self), payload@, res),
            old(self).spec_opened() && payload@.len() < 8 ==> *final(self) == *old(self),
    {
        self.require_open()?;
        let mut r = ByteReader::new(payload);
        let id = r.u32()?;
        assert(r@ =~= payload@.skip(4));
        let raw = r.u32()?;
        let size: usize = if raw < 1 { 1 } else if raw > 1048576 { 1048576 } else { raw as usize };
        let hot = match self.chan_mark {
            Some(m) => m == id,
            None => false,
        };
        let ghost cv0 = chan_views(old(self).channels@);
        let i = match self.find_channel(id) {
            Some(i) => {
                proof {
                    lemma_first_slot_at(self.channels@, id, i as int);
                }
                let mut entry = self.channels.remove(i);
                resize_zero(&mut entry.1, size);
                self.channels.insert(i, entry);
                proof {
                    assert(entry.1@ =~= resized(cv0[i as int].1, size as nat));
                    assert(chan_views(self.channels@) =~= cv0.update(i as int, (id, resized(cv0[i as int].1, size as nat))));
                }
                i
            },
            None => {
                proof {
                    lemma_first_slot_none(self.channels@, id);
                }
                self.channels.push((id, zeroed(size)));
                proof {
                    assert(chan_views(self.channels@) =~= cv0.push((id, Seq::new(size as nat, |k: int| 0u8))));
                }
                self.metrics.live_channels = if self.metrics.live_channels == i64::MAX {
                    i64::MAX
                } else {
                    self.metrics.live_channels + 1
                };
                self.channels.len() - 1
            },
        };
        let ghost cv1 = chan_views(self.channels@);
        let ghost was = first_slot(old(self).channels@, id);
        let ghost base = match was {
            Some(k) => resized(cv0[k].1, size as nat),
            None => Seq::new(size as nat, |k: int| 0u8),
        };
        proof {
            assert(cv1[i as int] == (id, base));
            assert(was is None ==> cv1 == cv0.push((id, base)) && i as int == cv0.len());
            assert(was matches Some(k) ==> cv1 == cv0.update(k, (id, base)) && i as int == k);
        }
        if hot {
            let mut entry = self.channels.remove(i);
            let ghost before = entry.1@;
            stamp(&mut entry.1, self.clock);
            self.channels.insert(i, entry);
            proof {
                assert(before == cv1[i as int].1);
                assert(entry.1@ =~= stamped(before, self.clock));
                assert(chan_views(self.channels@) =~= cv1.update(i as int, (id, stamped(before, self.clock))));
                if was is None {
                    assert(chan_views(self.channels@) =~= cv0.push((id, stamped(base, self.clock))));
                } else {
                    assert(chan_views(self.channels@) =~= cv0.update(i as int, (id, stamped(base, self.clock))));
                }
            }
        }
        Ok(())
    }

    // --- nested records --------------------------------------------------

    /// `CONTINUATION` / `NESTED_RECORD`: an inner type byte and body, handled
    /// as a data record or unwrapped again, at most eight levels deep.
    fn on_nested(&mut self, payload: &[u8], depth: u32) -> (res: Result<(), Error>)
        requires
            old(self).wf(),
            depth <= 9,
        ensures
            final(self).opened == old(self).opened,
            final(self).wf(),
            final(self).spec_metrics().streams_parsed == old(self).spec_metrics().streams_parsed,
            final(self).spec_metrics().messages_seen == old(self).spec_metrics().messages_seen,
            !old(self).spec_opened() ==> res is Err && res->Err_0.kind == Kind::Protocol && *final(self) == *old(self),
            old(self).nested_step(*final(self), payload@, depth as int, res),
        decreases 9 - depth,
    {
        self.require_open()?;
        if depth > 8 {
            return Err(Error::limit("nested record too deep"));
        }
        if depth == 0 && payload.len() > 0 && payload[0] == 0x0F {
            return Ok(());
        }
        let mut r = ByteReader::new(payload);
        let inner_ty = r.u8()?;
        assert(r@ =~= payload@.skip(1));
        let body = r.rest();
        match MsgType::from_u8(inner_ty) {
            Some(MsgType::DataRecord) => self.on_data_record(body),
            Some(MsgType::Continuation) | Some(MsgType::NestedRecord) => self.on_nested(body, depth + 1),
            _ => Ok(()),
        }
    }

    // --- snapshots -------------------------------------------------------

    /// Phase one of a snapshot: latch an existing section.
    fn on_snapshot_begin(&mut self, payload: &[u8]) -> (res: Result<(), Error>)
        requires
            old(self).wf(),
        ensures
            old(self).snapshot_begin_step(*final(self), payload@, res),
            final(self).opened == old(self).opened,
            old(self).spec_opened() ==> (res is Ok <==> payload@.len() >= 4 && be32(payload@) < old(self).sections@.len()),
            res is Err ==> res->Err_0.kind != Kind::Limit,
            final(self).flows == old(self).flows,
            final(self).metrics.records_decoded == old(self).metrics.records_decoded,
            final(self).wf(),
            final(self).spec_metrics() == old(self).spec_metrics(),
            !old(self).spec_opened() ==> res is Err && res->Err_0.kind == Kind::Protocol && *final(self) == *old(self),
            final(self).sections == old(self).sections,
            res is Ok ==> final(self).pending_snap == Some(old(self).sections@[be32(payload@)].serial),
    {
        self.require_open()?;
        let mut r = ByteReader::new(payload);
        let idx = r.u32()? as usize;
        if idx >= self.sections.len() {
            return Err(Error::unresolved("snapshot for unknown section"));
        }
        self.pending_snap = Some(self.sections[idx].serial);
        Ok(())
    }

    /// Phase two: consume the committed bytes (at most the declared length)
    /// and release the latch; a body carrying a flow snapshot must decode.
    fn on_snapshot_commit(&mut self, payload: &[u8]) -> (res: Result<(), Error>)
        requires
            old(self).wf(),
        ensures
            old(self).snapshot_commit_step(*final(self), payload@),
            final(self).opened == old(self).opened,
            res is Err ==> res->Err_0.kind != Kind::Limit,
            final(self).flows == old(self).flows,
            final(self).metrics.records_decoded == old(self).metrics.records_decoded,
            final(self).wf(),
            final(self).spec_metrics() == old(self).spec_metrics(),
            !old(self).spec_opened() ==> res is Err && res->Err_0.kind == Kind::Protocol && *final(self) == *old(self),
            old(self).spec_opened() && payload@.len() < 4 ==> res is Err && final(self).sections
                == old(self).sections,
            old(self).spec_opened() && payload@.len() >= 4 ==> {
                let rest = payload@.skip(4);
                let body = rest.take(if be32(payload@) < rest.len() { be32(payload@) } else { rest.len() as int });
                &&& final(self).pending_snap is None
                &&& final(self).sections@.map_values(|x: Section| x@) == committed(
                    old(self).sections@.map_values(|x: Section| x@),
                    old(self).pending_snap,
                    body,
                )
            },
    {
        self.require_open()?;
        let mut r = ByteReader::new(payload);
        let len = r.u32()?;
        assert(r@ =~= payload@.skip(4));
        let rem = r.remaining();
        let n = if (len as usize) < rem { len as usize } else { rem };
        let body = r.take(n)?;
        let target = self.pending_snap;
        self.pending_snap = None;
        match target {
            Some(serial) => {
                self.write_snapshot(serial, body);
            },
            None => {
                assert(committed(self.sections@.map_values(|x: Section| x@), target, body@) =~= self.sections@.map_values(
                    |x: Section| x@,
                ));
            },
        }
        if body.len() >= 4 && body[0] == 0x43 && body[1] == 0x56 && body[2] == 0x53 && body[3] == 0x53 {
            let _ = crate::snapshot::format::decode(body)?;
        }
        Ok(())
    }

    /// Copy `body` (at most the section's capacity) over the start of every
    /// section with this serial; a section that is gone gets nothing.
    fn write_snapshot(&mut self, serial: u64, body: &[u8])
        requires
            old(self).wf(),
        ensures
            final(self).wf(),
            final(self).sections@.map_values(|x: Section| x@) == committed(
                old(self).sections@.map_values(|x: Section| x@),
                Some(serial),
                body@,
            ),
            *final(self) == (Session { sections: final(self).sections, ..*old(self) }),
    {
        let ghost vs = self.sections@.map_values(|x: Section| x@);
        let mut i: usize = 0;
        while i < self.sections.len()
            invariant
                i <= self.sections@.len() == vs.len(),
                vs == old(self).sections@.map_values(|x: Section| x@),
                *self == (Session { sections: self.sections, ..*old(self) }),
                forall|j: int| 0 <= j < vs.len() ==> #[trigger] self.sections@[j]@ == (if j < i {
                    committed(vs, Some(serial), body@)[j]
                } else {
                    vs[j]
                }),
            decreases vs.len() - i,
        {
            if self.sections[i].serial == serial {
                let ghost secs0 = self.sections@;
                let mut sec = self.sections.remove(i);
                let ghost o = sec@;
                assert(secs0[i as int] == sec);
                assert(o == vs[i as int]);
                assert((sec.count as u64) * (sec.stride as u64) <= u64::MAX) by (nonlinear_arith)
                    requires
                        sec.count <= u32::MAX,
                        sec.stride <= u32::MAX,
                ;
                let cap: u64 = (sec.count as u64) * (sec.stride as u64);
                let m: usize = if (body.len() as u64) < cap { body.len() } else { cap as usize };
                assert(cap as int == o.1 * o.2);
                assert(m as int == (if body@.len() < o.1 * o.2 { body@.len() as int } else { o.1 * o.2 }));
                let mut data = copy_bytes(&body[0..m]);
                assert(body@.subrange(0, m as int) =~= body@.take(m as int));
                if m < sec.data.len() {
                    let mut k: usize = m;
                    assert(data@ =~= body@.take(m as int) + sec.data@.subrange(m as int, k as int));
                    while k < sec.data.len()
                        invariant
                            m <= k <= sec.data@.len(),
                            data@ == body@.take(m as int) + sec.data@.subrange(m as int, k as int),
                        decreases sec.data@.len() - k,
                    {
                        data.push(sec.data[k]);
                        k = k + 1;
                        assert(data@ =~= body@.take(m as int) + sec.data@.subrange(m as int, k as int));
                    }
                    assert(sec.data@.subrange(m as int, k as int) =~= sec.data@.skip(m as int));
                }
                assert(data@ =~= overwrite(sec.data@, body@.take(m as int)));
                let ghost prev = self.sections@;
                sec.data = data;
                self.sections.insert(i, sec);
                proof {
                    assert(self.sections@ =~= prev.insert(i as int, sec));
                    assert(self.sections@[i as int]@ == committed(vs, Some(serial), body@)[i as int]);
                }
            }
            i = i + 1;
        }
        assert(self.sections@.map_values(|x: Section| x@) =~= committed(vs, Some(serial), body@));
    }

    /// Flush and finalise the session.
    pub fn teardown(&mut self)
        requires
            old(self).wf(),
        ensures
            final(self).wf(),
            final(self).spec_flows() == Seq::<FlowRecord>::empty(),
            final(self).spec_opened() == old(self).spec_opened(),
            final(self).spec_metrics() == old(self).spec_metrics(),
            final(self).spec_live_counts() == (0nat, 0nat, 0nat),
            final(self).spec_sections() == old(self).spec_sections(),
            final(self).spec_config() == old(self).spec_config(),
    {
        self.flows.flush();
        self.reasm.clear();
        self.streams.clear();
        self.channels.clear();
    }
}

impl Default for Session {
    fn default() -> (s: Session)
        ensures
            s.wf(),
            !s.spec_opened(),
    {
        Session::new()
    }
}

/// A zero-filled buffer of `n` bytes.
fn zeroed(n: usize) -> (v: Vec<u8>)
    ensures
        v@ == Seq::new(n as nat, |i: int| 0u8),
{
    let mut v: Vec<u8> = Vec::new();
    let mut i: usize = 0;
    while i < n
        invariant
            i <= n,
            v@ == Seq::new(i as nat, |k: int| 0u8),
        decreases n - i,
    {
        v.push(0);
        i = i + 1;
        assert(v@ =~= Seq::new(i as nat, |k: int| 0u8));
    }
    v
}

/// Truncate or zero-extend `v` to `n` bytes.
fn resize_zero(v: &mut Vec<u8>, n: usize)
    ensures
        final(v)@.len() == n,
        forall|i: int| 0 <= i < n && i < old(v)@.len() ==> final(v)@[i] == old(v)@[i],
        forall|i: int| old(v)@.len() <= i < n ==> final(v)@[i] == 0,
{
    if v.len() > n {
        v.truncate(n);
    } else {
        while v.len() < n
            invariant
                old(v)@.len() <= v@.len() <= n,
                forall|i: int| 0 <= i < old(v)@.len() ==> v@[i] == old(v)@[i],
                forall|i: int| old(v)@.len() <= i < v@.len() ==> v@[i] == 0,
            decreases n - v@.len(),
        {
            v.push(0);
        }
    }
}

/// Write `g` big-endian into the first (up to eight) bytes of `v`.
fn stamp(v: &mut Vec<u8>, g: u64)
    ensures
        final(v)@.len() == old(v)@.len(),
        forall|i: int| 0 <= i < 8 && i < old(v)@.len() ==> final(v)@[i] == be_byte(g, i),
        forall|i: int| 8 <= i < old(v)@.len() ==> final(v)@[i] == old(v)@[i],
{
    let mut i: usize = 0;
    while i < 8 && i < v.len()
        invariant
            i <= 8,
            v@.len() == old(v)@.len(),
            forall|j: int| 0 <= j < i && j < old(v)@.len() ==> v@[j] == be_byte(g, j),
            forall|j: int| i <= j < old(v)@.len() ==> v@[j] == old(v)@[j],
        decreases 8 - i,
    {
        let sh: u64 = 56 - 8 * (i as u64);
        assert(sh == ((56 - 8 * i) as u64));
        v.set(i, (g >> sh) as u8);
        i = i + 1;
    }
}

} // verus!
