//! Stream framing: split a byte buffer into a sequence of [`Message`]s.
//!
//! The parser is strict about the stream header (magic + version) so that
//! random bytes are rejected in the first few bytes. Once the header
//! validates, each message is length-checked against the remaining buffer.

use vstd::prelude::*;

use crate::error::{Error, Kind};
use crate::parser::message::{Message, MessageSpec};
use crate::util::{be16, be32, read_be16, read_be32};
use crate::wire::{
    spec_from_code, MsgType, MAGIC, MAX_MSG_COUNT, MAX_MSG_LEN, MSG_HEADER_LEN, STREAM_HEADER_LEN,
    VERSION,
};

verus! {

/// Configuration knobs for the framer. Defaults match the protocol maxima.
#[derive(Debug, Clone, Copy)]
pub struct FrameConfig {
    pub max_msg_len: usize,
    pub max_msg_count: usize,
    /// If true, an unknown message type aborts the whole stream; if false
    /// (the default) the unknown message is skipped and counted.
    pub strict_types: bool,
}

impl Default for FrameConfig {
    fn default() -> (c: FrameConfig)
        ensures
            c.max_msg_len == MAX_MSG_LEN,
            c.max_msg_count == MAX_MSG_COUNT,
            !c.strict_types,
    {
        FrameConfig { max_msg_len: MAX_MSG_LEN, max_msg_count: MAX_MSG_COUNT, strict_types: false }
    }
}

/// Where the framer stands after some number of messages: the messages kept so
/// far, the offset of the next message header, and how many unknown-type
/// messages were skipped.
pub struct ParseState {
    pub msgs: Seq<MessageSpec>,
    pub pos: int,
    pub skipped: nat,
}

/// Whether `data` starts with `prefix`.
pub open spec fn starts_with(data: Seq<u8>, prefix: Seq<u8>) -> bool {
    data.len() >= prefix.len() && data.take(prefix.len() as int) == prefix
}

/// The stream header check: the declared message count, or the error kind.
pub open spec fn spec_header(data: Seq<u8>, cfg: FrameConfig) -> Result<nat, Kind> {
    if data.len() < STREAM_HEADER_LEN {
        Err(Kind::Malformed)
    } else if !starts_with(data, MAGIC@) {
        Err(Kind::Malformed)
    } else if data[4] == 0 || data[4] > VERSION {
        Err(Kind::Malformed)
    } else if be16(data.subrange(6, 8)) > cfg.max_msg_count {
        Err(Kind::Limit)
    } else {
        Ok(be16(data.subrange(6, 8)) as nat)
    }
}

/// Frame one message at `st.pos`. An error carries the skip count reached.
pub open spec fn spec_step(data: Seq<u8>, cfg: FrameConfig, st: ParseState) -> Result<ParseState, (Kind, nat)> {
    let pos = st.pos;
    if pos + MSG_HEADER_LEN > data.len() {
        Err((Kind::Malformed, st.skipped))
    } else {
        let len = be32(data.subrange(pos + 2, pos + 6));
        let p = pos + MSG_HEADER_LEN;
        if len > cfg.max_msg_len {
            Err((Kind::Limit, st.skipped))
        } else if p + len > data.len() {
            Err((Kind::Malformed, st.skipped))
        } else {
            match spec_from_code(data[pos]) {
                Some(t) => Ok(ParseState {
                    msgs: st.msgs.push(
                        MessageSpec { ty: t, flags: data[pos + 1], payload: data.subrange(p, p + len), offset: p },
                    ),
                    pos: p + len,
                    skipped: st.skipped,
                }),
                None => if cfg.strict_types {
                    Err((Kind::Malformed, st.skipped))
                } else {
                    Ok(ParseState { msgs: st.msgs, pos: p + len, skipped: st.skipped + 1 })
                },
            }
        }
    }
}

/// The state after framing `n` messages from the start of the message area.
pub open spec fn spec_run(data: Seq<u8>, cfg: FrameConfig, n: nat) -> Result<ParseState, (Kind, nat)>
    decreases n,
{
    if n == 0 {
        Ok(ParseState { msgs: Seq::empty(), pos: STREAM_HEADER_LEN as int, skipped: 0 })
    } else {
        match spec_run(data, cfg, (n - 1) as nat) {
            Ok(st) => spec_step(data, cfg, st),
            Err(e) => Err(e),
        }
    }
}

/// Framing a whole stream: the header, then as many messages as it declares.
pub open spec fn spec_parse_all(data: Seq<u8>, cfg: FrameConfig) -> Result<ParseState, (Kind, nat)> {
    match spec_header(data, cfg) {
        Err(k) => Err((k, 0)),
        Ok(count) => spec_run(data, cfg, count),
    }
}

/// `a + b`, saturating at `usize::MAX`.
pub open spec fn sat_add(a: int, b: int) -> int {
    if a + b > usize::MAX {
        usize::MAX as int
    } else {
        a + b
    }
}

proof fn lemma_run_err_sticks(data: Seq<u8>, cfg: FrameConfig, a: nat, b: nat)
    requires
        a <= b,
        spec_run(data, cfg, a) is Err,
    ensures
        spec_run(data, cfg, b) == spec_run(data, cfg, a),
    decreases b - a,
{
    if a < b {
        lemma_run_err_sticks(data, cfg, a, (b - 1) as nat);
    }
}

proof fn lemma_run_pos(data: Seq<u8>, cfg: FrameConfig, n: nat)
    ensures
        spec_run(data, cfg, n) matches Ok(st) ==> STREAM_HEADER_LEN <= st.pos <= data.len() || (n == 0
            && st.pos == STREAM_HEADER_LEN),
    decreases n,
{
    if n > 0 {
        lemma_run_pos(data, cfg, (n - 1) as nat);
    }
}

#[derive(Debug, Clone, Copy)]
pub struct FrameParser {
    cfg: FrameConfig,
    skipped_unknown: usize,
}

impl Default for FrameParser {
    fn default() -> (p: FrameParser)
        ensures
            p.config() == FrameConfig::spec_default(),
            p.spec_skipped() == 0,
    {
        FrameParser::new()
    }
}

impl FrameConfig {
    pub open spec fn spec_default() -> FrameConfig {
        FrameConfig { max_msg_len: MAX_MSG_LEN, max_msg_count: MAX_MSG_COUNT, strict_types: false }
    }
}

/// Whether the first bytes of `data` equal `prefix`.
pub fn has_prefix(data: &[u8], prefix: &[u8]) -> (b: bool)
    ensures
        b == starts_with(data@, prefix@),
{
    if data.len() < prefix.len() {
        return false;
    }
    let mut i: usize = 0;
    while i < prefix.len()
        invariant
            i <= prefix@.len() <= data@.len(),
            forall|j: int| 0 <= j < i ==> data@[j] == prefix@[j],
        decreases prefix@.len() - i,
    {
        if data[i] != prefix[i] {
            assert(data@.take(prefix@.len() as int)[i as int] != prefix@[i as int]);
            return false;
        }
        i = i + 1;
    }
    assert(data@.take(prefix@.len() as int) =~= prefix@);
    true
}

impl FrameParser {
    pub closed spec fn config(&self) -> FrameConfig {
        self.cfg
    }

    pub closed spec fn spec_skipped(&self) -> usize {
        self.skipped_unknown
    }

    pub fn new() -> (p: FrameParser)
        ensures
            p.config() == FrameConfig::spec_default(),
            p.spec_skipped() == 0,
    {
        FrameParser { cfg: FrameConfig::default(), skipped_unknown: 0 }
    }

    pub fn with_config(cfg: FrameConfig) -> (p: FrameParser)
        ensures
            p.config() == cfg,
            p.spec_skipped() == 0,
    {
        FrameParser { cfg, skipped_unknown: 0 }
    }

    /// How many unknown-type messages this parser has skipped so far.
    pub fn skipped_unknown(&self) -> (n: usize)
        ensures
            n == self.spec_skipped(),
    {
        self.skipped_unknown
    }

    /// Validate the stream header and return the declared message count and
    /// the offset at which the first message begins.
    fn parse_header(&self, data: &[u8]) -> (res: Result<(usize, usize), Error>)
        ensures
            match res {
                Ok((count, pos)) => spec_header(data@, self.cfg) == Ok::<nat, Kind>(count as nat) && pos
                    == STREAM_HEADER_LEN,
                Err(e) => spec_header(data@, self.cfg) == Err::<nat, Kind>(e.kind),
            },
    {
        if data.len() < STREAM_HEADER_LEN {
            return Err(Error::malformed("stream shorter than header"));
        }
        if !has_prefix(data, MAGIC.as_slice()) {
            return Err(Error::malformed("bad magic"));
        }
        let version = data[4];
        if version == 0 || version > VERSION {
            return Err(Error::malformed("unsupported version").with_context(version as u64));
        }
        let count = read_be16(data[6], data[7]) as usize;
        assert(data@.subrange(6, 8) =~= seq![data@[6], data@[7]]);
        if count > self.cfg.max_msg_count {
            return Err(Error::limit("message count too high").with_context(count as u64));
        }
        Ok((count, STREAM_HEADER_LEN))
    }

    /// Read the stream flags byte, or 0 if the stream is shorter than a header.
    pub fn stream_flags(data: &[u8]) -> (f: u8)
        ensures
            f == if data@.len() >= STREAM_HEADER_LEN { data@[5] } else { 0u8 },
    {
        if data.len() >= STREAM_HEADER_LEN {
            data[5]
        } else {
            0
        }
    }

    /// Parse every message in `data` into a vector of borrowed views.
    pub fn parse_all<'a>(&mut self, data: &'a [u8]) -> (res: Result<Vec<Message<'a>>, Error>)
        ensures
            final(self).config() == old(self).config(),
            match res {
                Ok(msgs) => spec_parse_all(data@, old(self).config()) matches Ok(st) && msgs@.map_values(
                    |m: Message<'a>| m@,
                ) == st.msgs && final(self).spec_skipped() == sat_add(
                    old(self).spec_skipped() as int,
                    st.skipped as int,
                ),
                Err(e) => spec_parse_all(data@, old(self).config()) matches Err((k, sk)) && e.kind == k
                    && final(self).spec_skipped() == sat_add(old(self).spec_skipped() as int, sk as int),
            },
    {
        let (count, mut pos) = self.parse_header(data)?;
        let mut out: Vec<Message<'a>> = Vec::new();
        let ghost cfg = self.cfg;
        let ghost start = self.skipped_unknown;
        let ghost mut st = ParseState { msgs: Seq::empty(), pos: STREAM_HEADER_LEN as int, skipped: 0 };
        let mut i: usize = 0;
        assert(out@.map_values(|m: Message<'a>| m@) =~= st.msgs);
        while i < count
            invariant
                i <= count,
                self.cfg == cfg,
                cfg == old(self).cfg,
                start == old(self).skipped_unknown,
                spec_header(data@, cfg) == Ok::<nat, Kind>(count as nat),
                spec_run(data@, cfg, i as nat) == Ok::<ParseState, (Kind, nat)>(st),
                st.pos == pos,
                pos <= data@.len(),
                out@.map_values(|m: Message<'a>| m@) == st.msgs,
                self.skipped_unknown == sat_add(start as int, st.skipped as int),
            decreases count - i,
        {
            if data.len() - pos < MSG_HEADER_LEN {
                proof { lemma_run_err_sticks(data@, cfg, (i + 1) as nat, count as nat); }
                return Err(Error::malformed("truncated message header").with_context(pos as u64));
            }
            let ty_byte = data[pos];
            let flags = data[pos + 1];
            let len = read_be32(data[pos + 2], data[pos + 3], data[pos + 4], data[pos + 5]) as usize;
            assert(data@.subrange(pos + 2, pos + 6) =~= seq![data@[pos + 2], data@[pos + 3], data@[pos + 4], data@[pos + 5]]);
            let p = pos + MSG_HEADER_LEN;
            if len > self.cfg.max_msg_len {
                proof { lemma_run_err_sticks(data@, cfg, (i + 1) as nat, count as nat); }
                return Err(Error::limit("message too long").with_context(len as u64));
            }
            if len > data.len() - p {
                proof { lemma_run_err_sticks(data@, cfg, (i + 1) as nat, count as nat); }
                return Err(Error::malformed("message runs past stream").with_context(len as u64));
            }
            let payload = &data[p..p + len];
            match MsgType::from_u8(ty_byte) {
                Some(ty) => {
                    let m = Message::new(ty, flags, payload, p);
                    out.push(m);
                    proof {
                        st = ParseState {
                            msgs: st.msgs.push(
                                MessageSpec { ty: ty, flags: flags, payload: data@.subrange(p as int, p + len), offset: p as int },
                            ),
                            pos: p + len,
                            skipped: st.skipped,
                        };
                        assert(out@.map_values(|m: Message<'a>| m@) =~= st.msgs);
                    }
                },
                None => {
                    if self.cfg.strict_types {
                        proof { lemma_run_err_sticks(data@, cfg, (i + 1) as nat, count as nat); }
                        return Err(Error::malformed("unknown message type").with_context(ty_byte as u64));
                    }
                    self.skipped_unknown = self.skipped_unknown.saturating_add(1);
                    proof {
                        st = ParseState { msgs: st.msgs, pos: p + len, skipped: st.skipped + 1 };
                    }
                },
            }
            pos = p + len;
            i = i + 1;
        }
        Ok(out)
    }
}

} // verus!
