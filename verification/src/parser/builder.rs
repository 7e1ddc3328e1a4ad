//! A fluent builder for CVWP streams.
//!
//! Encoding is the exact inverse of [`super::frame::FrameParser`]: see
//! [`lemma_build_parse_roundtrip`].

use vstd::prelude::*;

use crate::parser::frame::{spec_header, spec_parse_all, spec_run, spec_step, FrameConfig, ParseState, starts_with};
use crate::parser::message::MessageSpec;
use crate::util::{be16, be32, u16_bytes, u32_bytes, ByteWriter, lemma_be16_roundtrip, lemma_be32_roundtrip};
use crate::wire::{spec_code, spec_from_code, MsgType, MAGIC, STREAM_HEADER_LEN, VERSION, MSG_HEADER_LEN};

pub mod payload;

verus! {

/// One message waiting to be encoded: raw type byte, flags and payload.
pub type RawMessage = (u8, u8, Vec<u8>);

/// The content of a raw message.
pub open spec fn raw_view(m: RawMessage) -> (u8, u8, Seq<u8>) {
    (m.0, m.1, m.2@)
}

pub struct StreamBuilder {
    version: u8,
    flags: u8,
    messages: Vec<RawMessage>,
}

/// The encoding of one message: type, flags, big-endian length, payload.
pub open spec fn spec_encode_msg(m: (u8, u8, Seq<u8>)) -> Seq<u8> {
    seq![m.0, m.1] + u32_bytes(m.2.len() as u32) + m.2
}

/// The encodings of all messages, concatenated in order.
pub open spec fn spec_encode_msgs(ms: Seq<(u8, u8, Seq<u8>)>) -> Seq<u8>
    decreases ms.len(),
{
    if ms.len() == 0 {
        Seq::empty()
    } else {
        spec_encode_msgs(ms.drop_last()) + spec_encode_msg(ms.last())
    }
}

/// A complete stream: magic, version, flags, message count, messages.
pub open spec fn spec_build(version: u8, flags: u8, ms: Seq<(u8, u8, Seq<u8>)>) -> Seq<u8> {
    MAGIC@ + seq![version, flags] + u16_bytes(ms.len() as u16) + spec_encode_msgs(ms)
}

impl StreamBuilder {
    pub closed spec fn spec_version(&self) -> u8 {
        self.version
    }

    pub closed spec fn spec_flags(&self) -> u8 {
        self.flags
    }

    /// The messages appended so far.
    pub closed spec fn spec_messages(&self) -> Seq<(u8, u8, Seq<u8>)> {
        self.messages@.map_values(|m: RawMessage| raw_view(m))
    }

    pub fn new() -> (b: StreamBuilder)
        ensures
            b.spec_version() == VERSION,
            b.spec_flags() == 0,
            b.spec_messages() == Seq::<(u8, u8, Seq<u8>)>::empty(),
    {
        let b = StreamBuilder { version: VERSION, flags: 0, messages: Vec::new() };
        assert(b.spec_messages() =~= Seq::<(u8, u8, Seq<u8>)>::empty());
        b
    }

    pub fn version(self, v: u8) -> (b: StreamBuilder)
        ensures
            b.spec_version() == v,
            b.spec_flags() == self.spec_flags(),
            b.spec_messages() == self.spec_messages(),
    {
        StreamBuilder { version: v, flags: self.flags, messages: self.messages }
    }

    pub fn stream_flags(self, f: u8) -> (b: StreamBuilder)
        ensures
            b.spec_version() == self.spec_version(),
            b.spec_flags() == f,
            b.spec_messages() == self.spec_messages(),
    {
        StreamBuilder { version: self.version, flags: f, messages: self.messages }
    }

    /// Append a message by raw type byte.
    pub fn raw(self, ty: u8, flags: u8, payload: Vec<u8>) -> (b: StreamBuilder)
        ensures
            b.spec_version() == self.spec_version(),
            b.spec_flags() == self.spec_flags(),
            b.spec_messages() == self.spec_messages().push((ty, flags, payload@)),
    {
        let mut messages = self.messages;
        let ghost before = messages@;
        messages.push((ty, flags, payload));
        let b = StreamBuilder { version: self.version, flags: self.flags, messages };
        assert(b.spec_messages() =~= self.spec_messages().push((ty, flags, payload@)));
        b
    }

    /// Append a message by typed [`MsgType`].
    pub fn msg(self, ty: MsgType, payload: Vec<u8>) -> (b: StreamBuilder)
        ensures
            b.spec_version() == self.spec_version(),
            b.spec_flags() == self.spec_flags(),
            b.spec_messages() == self.spec_messages().push((spec_code(ty), 0u8, payload@)),
    {
        self.raw(ty.code(), 0, payload)
    }

    pub fn msg_flags(self, ty: MsgType, flags: u8, payload: Vec<u8>) -> (b: StreamBuilder)
        ensures
            b.spec_version() == self.spec_version(),
            b.spec_flags() == self.spec_flags(),
            b.spec_messages() == self.spec_messages().push((spec_code(ty), flags, payload@)),
    {
        self.raw(ty.code(), flags, payload)
    }

    pub fn message_count(&self) -> (n: usize)
        ensures
            n == self.spec_messages().len(),
    {
        self.messages.len()
    }

    /// Finalise into a byte buffer.
    pub fn build(self) -> (out: Vec<u8>)
        ensures
            out@ == spec_build(self.spec_version(), self.spec_flags(), self.spec_messages()),
    {
        let ghost ms = self.spec_messages();
        let mut w = ByteWriter::new();
        w.bytes(MAGIC.as_slice());
        w.u8(self.version);
        w.u8(self.flags);
        w.u16(self.messages.len() as u16);
        let ghost head = w@;
        let mut i: usize = 0;
        while i < self.messages.len()
            invariant
                i <= self.messages@.len(),
                ms == self.messages@.map_values(|m: RawMessage| raw_view(m)),
                w@ == head + spec_encode_msgs(ms.take(i as int)),
            decreases self.messages@.len() - i,
        {
            let m = &self.messages[i];
            w.u8(m.0);
            w.u8(m.1);
            w.u32(m.2.len() as u32);
            w.bytes(m.2.as_slice());
            proof {
                assert(ms.take(i + 1).drop_last() =~= ms.take(i as int));
                assert(ms.take(i + 1).last() == ms[i as int]);
                assert(w@ =~= head + spec_encode_msgs(ms.take(i + 1)));
            }
            i = i + 1;
        }
        assert(ms.take(ms.len() as int) =~= ms);
        assert(w@ =~= spec_build(self.version, self.flags, ms));
        w.into_vec()
    }
}

impl Default for StreamBuilder {
    fn default() -> (b: StreamBuilder)
        ensures
            b.spec_version() == VERSION,
            b.spec_flags() == 0,
            b.spec_messages() == Seq::<(u8, u8, Seq<u8>)>::empty(),
    {
        StreamBuilder::new()
    }
}

/// Every raw type byte names a known message type.
pub open spec fn all_known(ms: Seq<(u8, u8, Seq<u8>)>) -> bool {
    forall|i: int| 0 <= i < ms.len() ==> (#[trigger] spec_from_code(ms[i].0)) is Some
}

/// The message count and every payload length fit the wire fields and `cfg`.
pub open spec fn fits_config(ms: Seq<(u8, u8, Seq<u8>)>, cfg: FrameConfig) -> bool {
    &&& ms.len() <= cfg.max_msg_count
    &&& ms.len() <= u16::MAX
    &&& forall|i: int| 0 <= i < ms.len() ==> (#[trigger] ms[i].2.len()) <= cfg.max_msg_len && ms[i].2.len()
        <= u32::MAX
}

pub open spec fn is_prefix(a: Seq<u8>, b: Seq<u8>) -> bool {
    a.len() <= b.len() && b.take(a.len() as int) == a
}

proof fn lemma_encode_prefix(ms: Seq<(u8, u8, Seq<u8>)>, k: int, n: int)
    requires
        0 <= k <= n <= ms.len(),
    ensures
        is_prefix(spec_encode_msgs(ms.take(k)), spec_encode_msgs(ms.take(n))),
    decreases n - k,
{
    if k < n {
        lemma_encode_prefix(ms, k, n - 1);
        assert(ms.take(n).drop_last() =~= ms.take(n - 1));
        let a = spec_encode_msgs(ms.take(k));
        let c = spec_encode_msgs(ms.take(n - 1));
        let d = spec_encode_msg(ms.take(n).last());
        assert((c + d).take(a.len() as int) =~= c.take(a.len() as int));
    } else {
        assert(spec_encode_msgs(ms.take(k)).take(spec_encode_msgs(ms.take(k)).len() as int)
            =~= spec_encode_msgs(ms.take(k)));
    }
}

/// The framer's state after `k` messages of a built stream.
pub open spec fn built_state_ok(ms: Seq<(u8, u8, Seq<u8>)>, k: int, st: ParseState) -> bool {
    &&& st.pos == STREAM_HEADER_LEN + spec_encode_msgs(ms.take(k)).len()
    &&& st.skipped == 0
    &&& st.msgs.len() == k
    &&& forall|i: int|
        0 <= i < k ==> spec_code(#[trigger] st.msgs[i].ty) == ms[i].0 && st.msgs[i].flags == ms[i].1
            && st.msgs[i].payload == ms[i].2
}

proof fn lemma_run_built(version: u8, flags: u8, ms: Seq<(u8, u8, Seq<u8>)>, cfg: FrameConfig, k: nat)
    requires
        k <= ms.len(),
        fits_config(ms, cfg),
        all_known(ms),
    ensures
        spec_run(spec_build(version, flags, ms), cfg, k) matches Ok(st) && built_state_ok(ms, k as int, st),
    decreases k,
{
    let data = spec_build(version, flags, ms);
    let head = MAGIC@ + seq![version, flags] + u16_bytes(ms.len() as u16);
    assert(head.len() == 8);
    if k == 0 {
        assert(ms.take(0) =~= Seq::<(u8, u8, Seq<u8>)>::empty());
    } else {
        let j = (k - 1) as int;
        lemma_run_built(version, flags, ms, cfg, (k - 1) as nat);
        let st = spec_run(data, cfg, (k - 1) as nat)->Ok_0;
        let m = ms[j];
        let ek = spec_encode_msgs(ms.take(j));
        let em = spec_encode_msg(m);
        assert(ms.take(k as int).drop_last() =~= ms.take(j));
        assert(ms.take(k as int).last() == m);
        assert(spec_encode_msgs(ms.take(k as int)) == ek + em);
        lemma_encode_prefix(ms, k as int, ms.len() as int);
        assert(ms.take(ms.len() as int) =~= ms);
        let all = spec_encode_msgs(ms);
        assert(data == head + all);
        let pos = st.pos;
        assert(pos == 8 + ek.len());
        assert forall|t: int| 0 <= t < em.len() implies data[pos + t] == em[t] by {
            assert(all.take((ek + em).len() as int)[ek.len() + t] == (ek + em)[ek.len() + t]);
        }
        lemma_be32_roundtrip(m.2.len() as u32);
        assert(ms[j].2.len() <= cfg.max_msg_len && ms[j].2.len() <= u32::MAX);
        assert(em.len() == 6 + m.2.len());
        let lb = u32_bytes(m.2.len() as u32);
        assert forall|t: int| 0 <= t < 4 implies data.subrange(pos + 2, pos + 6)[t] == lb[t] by {
            assert(data[pos + 2 + t] == em[2 + t]);
            assert(em[2 + t] == (seq![m.0, m.1] + lb + m.2)[2 + t]);
        }
        assert(data.subrange(pos + 2, pos + 6) =~= lb);
        assert forall|t: int| 0 <= t < m.2.len() implies data.subrange(pos + 6, pos + 6 + m.2.len())[t]
            == m.2[t] by {
            assert(data[pos + 6 + t] == em[6 + t]);
            assert(em[6 + t] == (seq![m.0, m.1] + lb + m.2)[6 + t]);
        }
        assert(data.subrange(pos + 6, pos + 6 + m.2.len()) =~= m.2);
        assert(data[pos + 0] == em[0]);
        assert(data[pos + 1] == em[1]);
        assert(em[0] == (seq![m.0, m.1] + lb + m.2)[0]);
        assert(em[1] == (seq![m.0, m.1] + lb + m.2)[1]);
        assert(data[pos] == m.0);
        assert(data[pos + 1] == m.1);
        assert(spec_from_code(ms[j].0) is Some);
        crate::wire::lemma_from_code_inverse(m.0);
        let st2 = spec_step(data, cfg, st)->Ok_0;
        assert(built_state_ok(ms, k as int, st2));
    }
}

/// Framing a built stream gives back exactly the messages that went in: same
/// type codes, flags and payloads, in order, with nothing skipped, and the
/// whole stream consumed.
pub proof fn lemma_build_parse_roundtrip(version: u8, flags: u8, ms: Seq<(u8, u8, Seq<u8>)>, cfg: FrameConfig)
    requires
        1 <= version <= VERSION,
        fits_config(ms, cfg),
        all_known(ms),
    ensures
        spec_parse_all(spec_build(version, flags, ms), cfg) matches Ok(st) && st.skipped == 0
            && st.msgs.len() == ms.len() && st.pos == spec_build(version, flags, ms).len() && (forall|i: int|
            0 <= i < ms.len() ==> spec_code(#[trigger] st.msgs[i].ty) == ms[i].0 && st.msgs[i].flags
                == ms[i].1 && st.msgs[i].payload == ms[i].2),
{
    let data = spec_build(version, flags, ms);
    lemma_be16_roundtrip(ms.len() as u16);
    assert(data.take(4) =~= MAGIC@);
    assert(data.subrange(6, 8) =~= u16_bytes(ms.len() as u16));
    assert(spec_header(data, cfg) == Ok::<nat, crate::error::Kind>(ms.len()));
    lemma_run_built(version, flags, ms, cfg, ms.len());
    assert(ms.take(ms.len() as int) =~= ms);
}

} // verus!
