//! Payload decoding helpers shared by the session handlers.
//!
//! These translate raw message payloads into the structured values the
//! subsystems consume. They are deliberately small and side-effect free so the
//! handlers in [`super`] read as a sequence of "decode, then act" steps.

use vstd::prelude::*;

use crate::error::{Error, Kind};
use crate::flow::FlowKey;
use crate::schema::field::{type_of_code, wire_width, FieldSpec, FieldType};
use crate::util::{be16, be32, be64, ByteReader};

verus! {

/// A decoded data-record header — the fixed portion every `DATA_RECORD`
/// carries before its template-specific field bytes.
#[derive(Debug, Clone, Copy)]
pub struct DataHeader {
    pub template_id: u16,
    pub key: FlowKey,
    pub octets: u64,
    pub packets: u64,
}

/// Length of the fixed data-record header.
pub open spec fn data_header_len() -> int {
    35
}

/// The header at the front of `b` (which holds at least 35 bytes): template
/// id, flow id, source, destination, ports, protocol, octets, packets.
pub open spec fn spec_data_header(b: Seq<u8>) -> DataHeader {
    DataHeader {
        template_id: be16(b) as u16,
        key: FlowKey {
            flow_id: be32(b.skip(2)) as u32,
            src: be32(b.skip(6)) as u32,
            dst: be32(b.skip(10)) as u32,
            sport: be16(b.skip(14)) as u16,
            dport: be16(b.skip(16)) as u16,
            proto: b[18],
        },
        octets: be64(b.skip(19)) as u64,
        packets: be64(b.skip(27)) as u64,
    }
}

/// The fixed `DATA_RECORD` layout, byte by byte and big-endian: template id
/// (bytes 0-1), flow id (2-5), source (6-9), destination (10-13), source port
/// (14-15), destination port (16-17), protocol (18), octets (19-26) and
/// packets (27-34).
pub proof fn lemma_data_header_layout(b: Seq<u8>)
    requires
        b.len() >= 35,
    ensures
        spec_data_header(b).template_id == b[0] * 256 + b[1],
        spec_data_header(b).key.flow_id == b[2] * 16777216 + b[3] * 65536 + b[4] * 256 + b[5],
        spec_data_header(b).key.src == b[6] * 16777216 + b[7] * 65536 + b[8] * 256 + b[9],
        spec_data_header(b).key.dst == b[10] * 16777216 + b[11] * 65536 + b[12] * 256 + b[13],
        spec_data_header(b).key.sport == b[14] * 256 + b[15],
        spec_data_header(b).key.dport == b[16] * 256 + b[17],
        spec_data_header(b).key.proto == b[18],
        spec_data_header(b).octets == (b[19] * 16777216 + b[20] * 65536 + b[21] * 256 + b[22]) * 4294967296 + (
        b[23] * 16777216 + b[24] * 65536 + b[25] * 256 + b[26]),
        spec_data_header(b).packets == (b[27] * 16777216 + b[28] * 65536 + b[29] * 256 + b[30]) * 4294967296 + (
        b[31] * 16777216 + b[32] * 65536 + b[33] * 256 + b[34]),
{
    let (s2, s6, s10, s14, s16, s19, s27) = (b.skip(2), b.skip(6), b.skip(10), b.skip(14), b.skip(16), b.skip(19), b.skip(27));
    assert(s2[0] == b[2] && s2[1] == b[3] && s2[2] == b[4] && s2[3] == b[5]);
    assert(s6[0] == b[6] && s6[1] == b[7] && s6[2] == b[8] && s6[3] == b[9]);
    assert(s10[0] == b[10] && s10[1] == b[11] && s10[2] == b[12] && s10[3] == b[13]);
    assert(s14[0] == b[14] && s14[1] == b[15]);
    assert(s16[0] == b[16] && s16[1] == b[17]);
    let (o1, o2) = (s19.take(4), s19.skip(4));
    assert(o1[0] == b[19] && o1[1] == b[20] && o1[2] == b[21] && o1[3] == b[22]);
    assert(o2[0] == b[23] && o2[1] == b[24] && o2[2] == b[25] && o2[3] == b[26]);
    let (p1, p2) = (s27.take(4), s27.skip(4));
    assert(p1[0] == b[27] && p1[1] == b[28] && p1[2] == b[29] && p1[3] == b[30]);
    assert(p2[0] == b[31] && p2[1] == b[32] && p2[2] == b[33] && p2[3] == b[34]);
}

/// A field as it appears in a definition block: id, type code and width.
pub open spec fn spec_field_entry(b: Seq<u8>) -> Option<(u16, FieldType, u16)> {
    if b.len() < 5 {
        None
    } else {
        match type_of_code(b[2]) {
            Some(ty) => Some((be16(b) as u16, ty, be16(b.skip(3)) as u16)),
            None => None,
        }
    }
}

/// `n` field entries of 5 bytes each from the front of `b`.
pub open spec fn spec_field_entries(b: Seq<u8>, n: nat) -> Option<Seq<(u16, FieldType, u16)>>
    decreases n,
{
    if n == 0 {
        Some(Seq::empty())
    } else {
        match spec_field_entry(b) {
            None => None,
            Some(f) => match spec_field_entries(b.skip(5), (n - 1) as nat) {
                None => None,
                Some(fs) => Some(seq![f] + fs),
            },
        }
    }
}

pub open spec fn entry_of(f: FieldSpec) -> (u16, FieldType, u16) {
    (f.id, f.ty, f.width)
}

/// Parse a `[field_count: u16][field...]` block, where each field is
/// `[id: u16][type: u8][width: u16]`. The count must be between 1 and 4096.
pub fn parse_fields(r: &mut ByteReader) -> (res: Result<Vec<FieldSpec>, Error>)
    ensures
        res is Ok ==> 1 <= res->Ok_0@.len() <= 4096,
        old(r)@.len() < 2 ==> res is Err && res->Err_0.kind == Kind::Malformed,
        old(r)@.len() >= 2 && be16(old(r)@) == 0 ==> res is Err && res->Err_0.kind == Kind::Malformed,
        old(r)@.len() >= 2 && be16(old(r)@) > 4096 ==> res is Err && res->Err_0.kind == Kind::Limit
            && res->Err_0.context == Some(be16(old(r)@) as u64),
        old(r)@.len() >= 2 && 1 <= be16(old(r)@) <= 4096 ==> match spec_field_entries(
            old(r)@.skip(2),
            be16(old(r)@) as nat,
        ) {
            None => res is Err && res->Err_0.kind == Kind::Malformed,
            Some(es) => res is Ok && res->Ok_0@.map_values(|f: FieldSpec| entry_of(f)) == es
                && (forall|i: int| 0 <= i < res->Ok_0@.len() ==> (#[trigger] res->Ok_0@[i]).name@ == Seq::<char>::empty())
                && final(r)@ == old(r)@.skip(2 + 5 * (es.len() as int)),
        },
{
    let ghost b = r@;
    let count = r.u16()?;
    if count == 0 {
        return Err(Error::malformed("record with zero fields"));
    }
    if count > 4096 {
        return Err(Error::limit("field count too high").with_context(count as u64));
    }
    let ghost b2 = r@;
    let mut fields: Vec<FieldSpec> = Vec::new();
    let mut i: u16 = 0;
    while i < count
        invariant
            i <= count,
            1 <= count <= 4096,
            b == old(r)@,
            b.len() >= 2,
            be16(b) == count,
            5 * i <= b2.len(),
            b2 == b.skip(2),
            fields@.len() == i,
            r@ == b2.skip(5 * i),
            forall|j: int| 0 <= j < fields@.len() ==> (#[trigger] fields@[j]).name@ == Seq::<char>::empty(),
            spec_field_entries(b2, count as nat) == match spec_field_entries(r@, (count - i) as nat) {
                Some(rest) => Some(fields@.map_values(|f: FieldSpec| entry_of(f)) + rest),
                None => None::<Seq<(u16, FieldType, u16)>>,
            },
        decreases count - i,
    {
        let ghost rb = r@;
        let id = match r.u16() {
            Ok(v) => v,
            Err(e) => {
                proof {
                    assert(spec_field_entries(rb, (count - i) as nat) is None);
                }
                return Err(e);
            },
        };
        let code = match r.u8() {
            Ok(v) => v,
            Err(e) => {
                proof {
                    assert(spec_field_entries(rb, (count - i) as nat) is None);
                }
                return Err(e);
            },
        };
        let ty = match FieldType::from_code(code) {
            Ok(t) => t,
            Err(e) => {
                proof {
                    assert(rb.skip(2)[0] == rb[2]);
                    assert(spec_field_entry(rb) is None);
                    assert(spec_field_entries(rb, (count - i) as nat) is None);
                }
                return Err(e);
            },
        };
        let width = match r.u16() {
            Ok(v) => v,
            Err(e) => {
                proof {
                    assert(spec_field_entries(rb, (count - i) as nat) is None);
                }
                return Err(e);
            },
        };
        let ghost before = fields@.map_values(|f: FieldSpec| entry_of(f));
        let f = FieldSpec::new(id, ty, width);
        fields.push(f);
        proof {
            assert(rb.skip(2)[0] == rb[2]);
            assert(be16(rb.skip(3)) == width) by {
                assert(rb.skip(3)[0] == rb[3] && rb.skip(3)[1] == rb[4]);
            }
            assert(spec_field_entry(rb) == Some((id, ty, width)));
            assert(r@ =~= rb.skip(5));
            assert(b2.skip(5 * (i + 1)) =~= rb.skip(5));
            assert(fields@.map_values(|f: FieldSpec| entry_of(f)) =~= before.push((id, ty, width)));
            match spec_field_entries(rb.skip(5), (count - i - 1) as nat) {
                Some(rest) => {
                    assert(before + (seq![(id, ty, width)] + rest) =~= before.push((id, ty, width)) + rest);
                },
                None => {},
            }
        }
        i = i + 1;
    }
    proof {
        assert(fields@.map_values(|f: FieldSpec| entry_of(f)) + Seq::<(u16, FieldType, u16)>::empty()
            =~= fields@.map_values(|f: FieldSpec| entry_of(f)));
        assert(b.skip(2).skip(5 * count) =~= b.skip(2 + 5 * count));
    }
    Ok(fields)
}

/// Parse the fixed header of a `DATA_RECORD`.
pub fn parse_data_header(r: &mut ByteReader) -> (res: Result<DataHeader, Error>)
    ensures
        old(r)@.len() < data_header_len() ==> res is Err && res->Err_0.kind == Kind::Malformed,
        old(r)@.len() >= data_header_len() ==> res is Ok && res->Ok_0 == spec_data_header(old(r)@) && final(r)@
            == old(r)@.skip(data_header_len()),
        old(r)@.len() >= data_header_len() ==> res->Ok_0.template_id == old(r)@[0] * 256 + old(r)@[1]
            && res->Ok_0.key.sport == old(r)@[14] * 256 + old(r)@[15] && res->Ok_0.key.dport == old(r)@[16] * 256
            + old(r)@[17] && res->Ok_0.key.proto == old(r)@[18],
{
    let ghost b = r@;
    let template_id = r.u16()?;
    let flow_id = r.u32()?;
    let src = r.u32()?;
    let dst = r.u32()?;
    let sport = r.u16()?;
    let dport = r.u16()?;
    let proto = r.u8()?;
    let octets = r.u64()?;
    let packets = r.u64()?;
    let key = FlowKey::new(src, dst, flow_id, sport, dport, proto);
    proof {
        assert(b.skip(2).skip(4) =~= b.skip(6));
        assert(b.skip(6).skip(4) =~= b.skip(10));
        assert(b.skip(10).skip(4) =~= b.skip(14));
        assert(b.skip(14).skip(2) =~= b.skip(16));
        assert(b.skip(16).skip(2) =~= b.skip(18));
        assert(b.skip(18).skip(1) =~= b.skip(19));
        assert(b.skip(19).skip(8) =~= b.skip(27));
        assert(b.skip(27).skip(8) =~= b.skip(35));
        assert(b.skip(18)[0] == b[18]);
    }
    proof {
        lemma_data_header_layout(b);
    }
    Ok(DataHeader { template_id, key, octets, packets })
}

/// Total wire width of the fixed-width fields (variable fields count 0).
pub open spec fn fixed_width_sum(fs: Seq<FieldSpec>) -> int
    decreases fs.len(),
{
    if fs.len() == 0 {
        0
    } else {
        fixed_width_sum(fs.drop_last()) + match wire_width(fs.last()) {
            Some(w) => w as int,
            None => 0,
        }
    }
}

proof fn lemma_fixed_width_mono(fs: Seq<FieldSpec>, i: int)
    requires
        0 <= i <= fs.len(),
    ensures
        0 <= fixed_width_sum(fs.take(i)) <= fixed_width_sum(fs),
    decreases fs.len() - i,
{
    if i < fs.len() {
        lemma_fixed_width_mono(fs, i + 1);
        assert(fs.take(i + 1).drop_last() =~= fs.take(i));
        assert(fs.take(i + 1).last() == fs[i]);
        lemma_fixed_width_nonneg(fs.take(i));
    } else {
        assert(fs.take(i) =~= fs);
        lemma_fixed_width_nonneg(fs);
    }
}

proof fn lemma_fixed_width_nonneg(fs: Seq<FieldSpec>)
    ensures
        fixed_width_sum(fs) >= 0,
    decreases fs.len(),
{
    if fs.len() > 0 {
        lemma_fixed_width_nonneg(fs.drop_last());
    }
}

/// The total fixed width of a field list.
pub fn fixed_width_of(fields: &[FieldSpec]) -> (n: usize)
    requires
        fixed_width_sum(fields@) <= usize::MAX,
    ensures
        n == fixed_width_sum(fields@),
{
    let mut n: usize = 0;
    let mut i: usize = 0;
    while i < fields.len()
        invariant
            i <= fields@.len(),
            fixed_width_sum(fields@) <= usize::MAX,
            n == fixed_width_sum(fields@.take(i as int)),
        decreases fields@.len() - i,
    {
        proof {
            lemma_fixed_width_mono(fields@, i + 1);
            assert(fields@.take(i + 1).drop_last() =~= fields@.take(i as int));
        }
        match fields[i].wire_fixed_width() {
            Some(w) => {
                n = n + w;
            },
            None => {},
        }
        i = i + 1;
    }
    assert(fields@.take(fields@.len() as int) =~= fields@);
    n
}

} // verus!
