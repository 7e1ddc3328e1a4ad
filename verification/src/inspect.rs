//! Human-readable inspection of a CVWP stream.
//!
//! Dumps a stream's structure without running it through a full session,
//! which helps when debugging a capture. The output is a structural view; it
//! does not validate protocol state.

use vstd::prelude::*;

use crate::error::Error;
use crate::parser::frame::{spec_parse_all, FrameConfig, FrameParser};
use crate::parser::message::MessageSpec;
use crate::text::{
    chars_of, dec_digits, dec_str, idec_str, prefixed_hex, push_aligned, push_chars, push_dec, push_i64,
    push_prefixed_hex, push_str, spec_align,
};
use crate::util::{be16, be32, hex_preview, i32_of, spec_hex_preview, ByteReader};
use crate::wire::{spec_name, MsgType};

verus! {

/// A one-line description of a message.
#[derive(Debug, Clone)]
pub struct MsgLine {
    pub index: usize,
    pub ty: MsgType,
    pub flags: u8,
    pub len: usize,
    pub detail: String,
}

/// The short, type-specific description of a payload: the leading fields that
/// identify the message, `truncated` when the payload is too short for them,
/// and a hex preview for the types without such fields.
pub open spec fn spec_describe(ty: MsgType, p: Seq<u8>) -> Seq<char> {
    match ty {
        MsgType::SessionOpen => if p.len() >= 8 {
            "session="@ + prefixed_hex(be32(p) as nat, 8) + " features="@ + prefixed_hex(be32(p.skip(4)) as nat, 8)
        } else {
            "truncated"@
        },
        MsgType::SchemaDef | MsgType::SchemaUpdate => if p.len() >= 4 {
            "schema="@ + dec_str(be16(p) as nat) + " fields="@ + dec_str(be16(p.skip(2)) as nat)
        } else {
            "truncated"@
        },
        MsgType::TemplateDef => if p.len() >= 6 {
            "template="@ + dec_str(be16(p) as nat) + " schema="@ + dec_str(be16(p.skip(2)) as nat) + " fields="@
                + dec_str(be16(p.skip(4)) as nat)
        } else {
            "truncated"@
        },
        MsgType::DataRecord => if p.len() >= 6 {
            "template="@ + dec_str(be16(p) as nat) + " flow="@ + prefixed_hex(be32(p.skip(2)) as nat, 8)
        } else {
            "truncated"@
        },
        MsgType::Fragment => if p.len() >= 10 {
            "flow="@ + prefixed_hex(be32(p) as nat, 8) + " offset="@ + idec_str(i32_of(be32(p.skip(4))))
                + " len="@ + dec_str(be16(p.skip(8)) as nat)
        } else {
            "truncated"@
        },
        MsgType::FlowOpen | MsgType::FlowTimeout => if p.len() >= 4 {
            "flow="@ + prefixed_hex(be32(p) as nat, 8)
        } else {
            "truncated"@
        },
        MsgType::ModuleLoad | MsgType::ModuleReload => if p.len() >= 4 {
            "module="@ + dec_str(be32(p) as nat)
        } else {
            "truncated"@
        },
        _ => spec_hex_preview(p, 12),
    }
}

/// Whether `l` is the inspection line of message `m` at position `i`.
pub open spec fn describes(l: MsgLine, i: int, m: MessageSpec) -> bool {
    &&& l.index == i
    &&& l.ty == m.ty
    &&& l.flags == m.flags
    &&& l.len == m.payload.len()
    &&& l.detail@ == spec_describe(m.ty, m.payload)
}

/// Inspect a stream, returning a line per message. The stream is framed with
/// the default parser configuration; a framing error is returned as is.
pub fn inspect_stream(data: &[u8]) -> (res: Result<Vec<MsgLine>, Error>)
    ensures
        match res {
            Ok(lines) => spec_parse_all(data@, FrameConfig::spec_default()) matches Ok(st) && lines@.len()
                == st.msgs.len() && forall|i: int|
                0 <= i < lines@.len() ==> describes(#[trigger] lines@[i], i, st.msgs[i]),
            Err(e) => spec_parse_all(data@, FrameConfig::spec_default()) matches Err((k, sk)) && e.kind == k,
        },
{
    let mut parser = FrameParser::new();
    let messages = parser.parse_all(data)?;
    let ghost st = spec_parse_all(data@, FrameConfig::spec_default())->Ok_0;
    let mut out: Vec<MsgLine> = Vec::new();
    let mut i: usize = 0;
    while i < messages.len()
        invariant
            i <= messages@.len(),
            spec_parse_all(data@, FrameConfig::spec_default()) == Ok::<_, (crate::error::Kind, nat)>(st),
            messages@.map_values(|m: crate::parser::message::Message| m@) == st.msgs,
            out@.len() == i,
            forall|k: int| 0 <= k < i ==> describes(#[trigger] out@[k], k, st.msgs[k]),
        decreases messages@.len() - i,
    {
        let m = messages[i];
        assert(st.msgs[i as int] == m@);
        let detail = describe(m.ty, m.payload);
        out.push(MsgLine { index: i, ty: m.ty, flags: m.flags, len: m.payload.len(), detail });
        i = i + 1;
    }
    Ok(out)
}

fn text(t: &str) -> (s: String)
    ensures
        s@ == t@,
{
    let mut s = String::new();
    push_str(&mut s, t);
    s
}

/// The type-specific description of a payload.
fn describe(ty: MsgType, payload: &[u8]) -> (s: String)
    ensures
        s@ == spec_describe(ty, payload@),
{
    let mut r = ByteReader::new(payload);
    match ty {
        MsgType::SessionOpen => {
            let a = r.u32();
            let b = r.u32();
            match (a, b) {
                (Ok(sid), Ok(feat)) => {
                    let mut s = text("session=");
                    push_prefixed_hex(&mut s, sid as u64, 8);
                    push_str(&mut s, " features=");
                    push_prefixed_hex(&mut s, feat as u64, 8);
                    s
                },
                _ => text("truncated"),
            }
        },
        MsgType::SchemaDef | MsgType::SchemaUpdate => {
            let a = r.u16();
            let b = r.u16();
            match (a, b) {
                (Ok(id), Ok(fc)) => {
                    let mut s = text("schema=");
                    push_dec(&mut s, id as u64);
                    push_str(&mut s, " fields=");
                    push_dec(&mut s, fc as u64);
                    s
                },
                _ => text("truncated"),
            }
        },
        MsgType::TemplateDef => {
            let a = r.u16();
            let b = r.u16();
            let c = r.u16();
            match (a, b, c) {
                (Ok(tid), Ok(sid), Ok(fc)) => {
                    let mut s = text("template=");
                    push_dec(&mut s, tid as u64);
                    push_str(&mut s, " schema=");
                    push_dec(&mut s, sid as u64);
                    push_str(&mut s, " fields=");
                    push_dec(&mut s, fc as u64);
                    s
                },
                _ => text("truncated"),
            }
        },
        MsgType::DataRecord => {
            let a = r.u16();
            let b = r.u32();
            match (a, b) {
                (Ok(tid), Ok(flow)) => {
                    let mut s = text("template=");
                    push_dec(&mut s, tid as u64);
                    push_str(&mut s, " flow=");
                    push_prefixed_hex(&mut s, flow as u64, 8);
                    s
                },
                _ => text("truncated"),
            }
        },
        MsgType::Fragment => {
            let a = r.u32();
            let b = r.i32();
            let c = r.u16();
            match (a, b, c) {
                (Ok(flow), Ok(off), Ok(len)) => {
                    let mut s = text("flow=");
                    push_prefixed_hex(&mut s, flow as u64, 8);
                    push_str(&mut s, " offset=");
                    push_i64(&mut s, off as i64);
                    push_str(&mut s, " len=");
                    push_dec(&mut s, len as u64);
                    s
                },
                _ => text("truncated"),
            }
        },
        MsgType::FlowOpen | MsgType::FlowTimeout => match r.u32() {
            Ok(f) => {
                let mut s = text("flow=");
                push_prefixed_hex(&mut s, f as u64, 8);
                s
            },
            Err(_) => text("truncated"),
        },
        MsgType::ModuleLoad | MsgType::ModuleReload => match r.u32() {
            Ok(m) => {
                let mut s = text("module=");
                push_dec(&mut s, m as u64);
                s
            },
            Err(_) => text("truncated"),
        },
        _ => hex_preview(payload, 12),
    }
}

/// One rendered inspection line.
pub open spec fn line_text(l: MsgLine) -> Seq<char> {
    "["@ + spec_align(dec_str(l.index as nat), 3, ' ', true) + "] "@ + spec_align(spec_name(l.ty)@, 16, ' ', false)
        + " flags="@ + prefixed_hex(l.flags as nat, 2) + " len="@ + spec_align(dec_str(l.len as nat), 5, ' ', false)
        + " "@ + l.detail@ + "\n"@
}

/// Every line rendered, in order.
pub open spec fn lines_text(ls: Seq<MsgLine>) -> Seq<char>
    decreases ls.len(),
{
    if ls.len() == 0 {
        Seq::empty()
    } else {
        lines_text(ls.drop_last()) + line_text(ls.last())
    }
}

fn push_line(out: &mut String, l: &MsgLine)
    ensures
        final(out)@ == old(out)@ + line_text(*l),
{
    let ghost o = out@;
    push_str(out, "[");
    push_aligned(out, dec_digits(l.index as u64).as_slice(), 3, ' ', true);
    push_str(out, "] ");
    push_aligned(out, chars_of(l.ty.name()).as_slice(), 16, ' ', false);
    push_str(out, " flags=");
    push_prefixed_hex(out, l.flags as u64, 2);
    push_str(out, " len=");
    push_aligned(out, dec_digits(l.len as u64).as_slice(), 5, ' ', false);
    push_str(out, " ");
    push_chars(out, chars_of(l.detail.as_str()).as_slice());
    push_str(out, "\n");
    assert(out@ =~= o + line_text(*l));
}

/// Render inspection lines as a multi-line string.
pub fn render(lines: &[MsgLine]) -> (s: String)
    ensures
        s@ == lines_text(lines@),
{
    let mut s = String::new();
    let mut i: usize = 0;
    while i < lines.len()
        invariant
            i <= lines@.len(),
            s@ == lines_text(lines@.take(i as int)),
        decreases lines@.len() - i,
    {
        push_line(&mut s, &lines[i]);
        proof {
            assert(lines@.take(i + 1).drop_last() =~= lines@.take(i as int));
            assert(lines@.take(i + 1).last() == lines@[i as int]);
        }
        i = i + 1;
    }
    assert(lines@.take(lines@.len() as int) =~= lines@);
    s
}

} // verus!
