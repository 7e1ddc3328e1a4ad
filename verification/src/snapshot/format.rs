//! On-disk snapshot format for flow-table state.
//!
//! A snapshot lets the broker persist accumulated flow state and reload it after
//! a restart. The format is self-describing and CRC-protected:
//!
//! ```text
//! magic    : 4 bytes = "CVSS"
//! version  : 1 byte
//! flags    : 1 byte
//! count    : 4 bytes (big-endian) number of flow records
//! records  : count * FLOW_RECORD_LEN bytes
//! crc32    : 4 bytes over everything above
//! ```

use vstd::prelude::*;

use crate::error::{Error, Kind};
use crate::flow::{FlowKey, FlowRecord, FlowState};
use crate::util::{
    be16, be32, be64, crc32, lemma_be16_roundtrip, lemma_be32_roundtrip, lemma_be64_roundtrip, spec_crc32,
    u16_bytes, u32_bytes, u64_bytes, ByteReader, ByteWriter,
};

verus! {

pub const SNAP_MAGIC: [u8; 4] = [0x43, 0x56, 0x53, 0x53];

pub const SNAP_VERSION: u8 = 1;

/// Serialised size of one flow record in a snapshot.
pub const FLOW_RECORD_LEN: usize = 63;

pub open spec fn snap_magic() -> Seq<u8> {
    seq![0x43u8, 0x56, 0x53, 0x53]
}

/// The key part of a record: addresses, flow id, ports, protocol.
pub open spec fn key_bytes(r: FlowRecord) -> Seq<u8> {
    u32_bytes(r.key.src) + u32_bytes(r.key.dst) + u32_bytes(r.key.flow_id) + u16_bytes(r.key.sport) + u16_bytes(
        r.key.dport,
    ) + seq![r.key.proto]
}

/// The counter part of a record.
pub open spec fn counter_bytes(r: FlowRecord) -> Seq<u8> {
    u64_bytes(r.octets) + u64_bytes(r.packets) + u64_bytes(r.records) + u64_bytes(r.first_ms) + u64_bytes(
        r.last_ms,
    )
}

/// The template binding of a record.
pub open spec fn template_bytes(r: FlowRecord) -> Seq<u8> {
    u16_bytes(r.template_id) + u32_bytes(r.template_gen)
}

/// One record's bytes.
#[verifier::opaque]
pub open spec fn enc_record(r: FlowRecord) -> Seq<u8> {
    key_bytes(r) + counter_bytes(r) + template_bytes(r)
}

pub open spec fn enc_records(rs: Seq<FlowRecord>) -> Seq<u8>
    decreases rs.len(),
{
    if rs.len() == 0 {
        Seq::empty()
    } else {
        enc_records(rs.drop_last()) + enc_record(rs.last())
    }
}

/// Everything the checksum covers.
pub open spec fn snap_body(rs: Seq<FlowRecord>) -> Seq<u8> {
    snap_magic() + seq![1u8, 0u8] + u32_bytes(rs.len() as u32) + enc_records(rs)
}

/// A snapshot of `rs`: the body followed by its CRC-32.
pub open spec fn spec_encode(rs: Seq<FlowRecord>) -> Seq<u8> {
    snap_body(rs) + u32_bytes(spec_crc32(snap_body(rs)))
}

/// The record stored in the 63 bytes at the front of `b`. What the format does
/// not carry (deadline, bound field count, state, layout flag) comes back as
/// in a fresh record.
pub open spec fn dec_record(b: Seq<u8>) -> FlowRecord {
    FlowRecord {
        key: FlowKey {
            src: be32(b) as u32,
            dst: be32(b.skip(4)) as u32,
            flow_id: be32(b.skip(8)) as u32,
            sport: be16(b.skip(12)) as u16,
            dport: be16(b.skip(14)) as u16,
            proto: b[16],
        },
        octets: be64(b.skip(17)) as u64,
        packets: be64(b.skip(25)) as u64,
        records: be64(b.skip(33)) as u64,
        first_ms: be64(b.skip(41)) as u64,
        last_ms: be64(b.skip(49)) as u64,
        expire_at: 0,
        template_id: be16(b.skip(57)) as u16,
        template_gen: be32(b.skip(59)) as u32,
        bound_field_count: 0,
        state: FlowState::New,
        layout_changed: false,
    }
}

/// A record as it survives a snapshot round trip.
pub open spec fn persisted(r: FlowRecord) -> FlowRecord {
    FlowRecord { expire_at: 0, bound_field_count: 0, state: FlowState::New, layout_changed: false, ..r }
}

/// The declared record count.
pub open spec fn snap_count(d: Seq<u8>) -> int {
    be32(d.skip(6))
}

/// Whether `d` is a well-formed snapshot: long enough, right magic and
/// version, matching checksum, and room for every declared record.
pub open spec fn snap_ok(d: Seq<u8>) -> bool {
    &&& d.len() >= 14
    &&& d.take(4) == snap_magic()
    &&& d[4] == 1
    &&& be32(d.skip(d.len() - 4)) == spec_crc32(d.take(d.len() - 4))
    &&& snap_count(d) * 63 <= d.len() - 14
}

/// The records a well-formed snapshot holds, in order.
pub open spec fn spec_decode(d: Seq<u8>) -> Seq<FlowRecord> {
    Seq::new(snap_count(d) as nat, |i: int| dec_record(d.skip(10 + 63 * i)))
}

proof fn lemma_enc_records_len(rs: Seq<FlowRecord>)
    ensures
        enc_records(rs).len() == 63 * rs.len(),
    decreases rs.len(),
{
    if rs.len() > 0 {
        lemma_enc_records_len(rs.drop_last());
        lemma_enc_record_len(rs.last());
    }
}

/// Serialise a set of flow records into a snapshot buffer.
pub fn encode(records: &[FlowRecord]) -> (out: Vec<u8>)
    ensures
        out@ == spec_encode(records@),
{
    let mut w = ByteWriter::new();
    w.bytes(SNAP_MAGIC.as_slice());
    w.u8(SNAP_VERSION);
    w.u8(0);
    w.u32(records.len() as u32);
    let ghost head = w@;
    assert(head =~= snap_magic() + seq![1u8, 0u8] + u32_bytes(records@.len() as u32));
    let mut i: usize = 0;
    while i < records.len()
        invariant
            i <= records@.len(),
            w@ == head + enc_records(records@.take(i as int)),
        decreases records@.len() - i,
    {
        let r = records[i];
        let ghost before = w@;
        w.u32(r.key.src);
        w.u32(r.key.dst);
        w.u32(r.key.flow_id);
        w.u16(r.key.sport);
        w.u16(r.key.dport);
        w.u8(r.key.proto);
        w.u64(r.octets);
        w.u64(r.packets);
        w.u64(r.records);
        w.u64(r.first_ms);
        w.u64(r.last_ms);
        w.u16(r.template_id);
        w.u32(r.template_gen);
        proof {
            reveal(enc_record);
            assert(w@ =~= before + enc_record(r));
            assert(records@.take(i + 1).drop_last() =~= records@.take(i as int));
            assert(records@.take(i + 1).last() == r);
        }
        i = i + 1;
    }
    assert(records@.take(records@.len() as int) =~= records@);
    let crc = crc32(w.as_slice());
    w.u32(crc);
    w.into_vec()
}

proof fn lemma_dec_record_prefix(a: Seq<u8>, b: Seq<u8>)
    requires
        a.len() >= 63,
        b.len() >= 63,
        a.take(63) == b.take(63),
    ensures
        dec_record(a) == dec_record(b),
{
    assert forall|k: int| 0 <= k < 63 implies #[trigger] a[k] == b[k] by {
        assert(a[k] == a.take(63)[k]);
        assert(b[k] == b.take(63)[k]);
    }
    assert forall|o: int, k: int| 0 <= o && 0 <= k && o + k < 63 implies #[trigger] a.skip(o)[k] == b.skip(o)[k] by {
        assert(a[o + k] == b[o + k]);
    }
    assert(a.skip(17).take(4) =~= b.skip(17).take(4));
    assert(a.skip(17).skip(4) =~= a.skip(21) && b.skip(17).skip(4) =~= b.skip(21));
    assert(a.skip(25).take(4) =~= b.skip(25).take(4));
    assert(a.skip(25).skip(4) =~= a.skip(29) && b.skip(25).skip(4) =~= b.skip(29));
    assert(a.skip(33).take(4) =~= b.skip(33).take(4));
    assert(a.skip(33).skip(4) =~= a.skip(37) && b.skip(33).skip(4) =~= b.skip(37));
    assert(a.skip(41).take(4) =~= b.skip(41).take(4));
    assert(a.skip(41).skip(4) =~= a.skip(45) && b.skip(41).skip(4) =~= b.skip(45));
    assert(a.skip(49).take(4) =~= b.skip(49).take(4));
    assert(a.skip(49).skip(4) =~= a.skip(53) && b.skip(49).skip(4) =~= b.skip(53));
}

/// The bytes left after `i` records are record `i` of the snapshot.
proof fn lemma_record_slot(d: Seq<u8>, b10: Seq<u8>, i: int, count: int)
    requires
        0 <= i < count,
        count * 63 <= b10.len(),
        d.len() >= 14,
        b10 == d.take(d.len() - 4).skip(10),
    ensures
        b10.skip(63 * i).len() >= 63,
        d.skip(10 + 63 * i).len() >= 63,
        b10.skip(63 * i).take(63) == d.skip(10 + 63 * i).take(63),
        b10.skip(63 * i).skip(63) == b10.skip(63 * (i + 1)),
{
    assert(63 * i + 63 <= b10.len()) by (nonlinear_arith)
        requires
            i < count,
            count * 63 <= b10.len(),
    ;
    let rb = b10.skip(63 * i);
    let x = d.skip(10 + 63 * i);
    assert forall|k: int| 0 <= k < 63 implies #[trigger] rb.take(63)[k] == x.take(63)[k] by {
        assert(rb[k] == b10[63 * i + k]);
        assert(b10[63 * i + k] == d[10 + 63 * i + k]);
    }
    assert(rb.take(63) =~= x.take(63));
    assert(rb.skip(63) =~= b10.skip(63 * (i + 1)));
}

/// Read one 63-byte record.
fn read_record(r: &mut ByteReader) -> (rec: FlowRecord)
    requires
        old(r)@.len() >= 63,
    ensures
        rec == dec_record(old(r)@),
        final(r)@ == old(r)@.skip(63),
{
    let ghost rb = r@;
    let src = r.u32().unwrap();
    let dst = r.u32().unwrap();
    let flow_id = r.u32().unwrap();
    let sport = r.u16().unwrap();
    let dport = r.u16().unwrap();
    let proto = r.u8().unwrap();
    let octets = r.u64().unwrap();
    let packets = r.u64().unwrap();
    let records = r.u64().unwrap();
    let first_ms = r.u64().unwrap();
    let last_ms = r.u64().unwrap();
    let template_id = r.u16().unwrap();
    let template_gen = r.u32().unwrap();
    let key = FlowKey::new(src, dst, flow_id, sport, dport, proto);
    let mut rec = FlowRecord::new(key, 0);
    rec.octets = octets;
    rec.packets = packets;
    rec.records = records;
    rec.first_ms = first_ms;
    rec.last_ms = last_ms;
    rec.template_id = template_id;
    rec.template_gen = template_gen;
    proof {
        assert(rb.skip(4).skip(4) =~= rb.skip(8));
        assert(rb.skip(8).skip(4) =~= rb.skip(12));
        assert(rb.skip(12).skip(2) =~= rb.skip(14));
        assert(rb.skip(14).skip(2) =~= rb.skip(16));
        assert(rb.skip(16).skip(1) =~= rb.skip(17));
        assert(rb.skip(17).skip(8) =~= rb.skip(25));
        assert(rb.skip(25).skip(8) =~= rb.skip(33));
        assert(rb.skip(33).skip(8) =~= rb.skip(41));
        assert(rb.skip(41).skip(8) =~= rb.skip(49));
        assert(rb.skip(49).skip(8) =~= rb.skip(57));
        assert(rb.skip(57).skip(2) =~= rb.skip(59));
        assert(rb.skip(59).skip(4) =~= rb.skip(63));
        assert(rb.skip(16)[0] == rb[16]);
    }
    rec
}

/// Parse a snapshot buffer back into flow records, verifying the CRC. Every
/// failure is `Malformed`.
pub fn decode(data: &[u8]) -> (res: Result<Vec<FlowRecord>, Error>)
    ensures
        match res {
            Ok(v) => snap_ok(data@) && v@ == spec_decode(data@),
            Err(e) => !snap_ok(data@) && e.kind == Kind::Malformed,
        },
{
    let ghost d = data@;
    if data.len() < 14 {
        return Err(Error::malformed("snapshot too short"));
    }
    if data[0] != SNAP_MAGIC[0] || data[1] != SNAP_MAGIC[1] || data[2] != SNAP_MAGIC[2] || data[3] != SNAP_MAGIC[3] {
        proof {
            if d.take(4) == snap_magic() {
                assert(d.take(4)[0] == d[0] && d.take(4)[1] == d[1] && d.take(4)[2] == d[2] && d.take(4)[3] == d[3]);
            }
        }
        return Err(Error::malformed("bad snapshot magic"));
    }
    assert(d.take(4) =~= snap_magic());
    let version = data[4];
    if version != SNAP_VERSION {
        return Err(Error::malformed("unsupported snapshot version").with_context(version as u64));
    }
    let body_len = data.len() - 4;
    let stored_crc = crate::util::read_be32(data[body_len], data[body_len + 1], data[body_len + 2], data[body_len + 3]);
    let body = &data[0..body_len];
    proof {
        let t = d.skip(d.len() - 4);
        assert(t[0] == data@[body_len as int] && t[1] == data@[body_len + 1] && t[2] == data@[body_len + 2] && t[3]
            == data@[body_len + 3]);
        assert(body@ =~= d.take(d.len() - 4));
    }
    if crc32(body) != stored_crc {
        return Err(Error::malformed("snapshot crc mismatch"));
    }
    let mut r = ByteReader::new(body);
    r.skip(6)?;
    let count = r.u32()?;
    proof {
        assert(r@ =~= d.take(d.len() - 4).skip(10));
        assert(be32(d.skip(6)) == count) by {
            assert(d.skip(6)[0] == d[6] && d.skip(6)[1] == d[7] && d.skip(6)[2] == d[8] && d.skip(6)[3] == d[9]);
            assert(d.take(d.len() - 4).skip(6)[0] == d[6]);
        }
    }
    if (count as u64) * 63 > r.remaining() as u64 {
        return Err(Error::malformed("snapshot record count exceeds body"));
    }
    let ghost b10 = r@;
    let mut out: Vec<FlowRecord> = Vec::new();
    let mut i: u32 = 0;
    while i < count
        invariant
            i <= count,
            count == snap_count(d),
            count * 63 <= b10.len(),
            b10 == d.take(d.len() - 4).skip(10),
            d.len() >= 14,
            r@ == b10.skip(63 * i),
            out@ == Seq::new(i as nat, |k: int| dec_record(d.skip(10 + 63 * k))),
        decreases count - i,
    {
        let ghost rb = r@;
        proof {
            lemma_record_slot(d, b10, i as int, count as int);
        }
        let rec = read_record(&mut r);
        proof {
            lemma_dec_record_prefix(rb, d.skip(10 + 63 * i));
        }
        out.push(rec);
        i = i + 1;
        assert(out@ =~= Seq::new(i as nat, |k: int| dec_record(d.skip(10 + 63 * k))));
    }
    Ok(out)
}

proof fn lemma_enc_record_len(r: FlowRecord)
    ensures
        enc_record(r).len() == 63,
{
    reveal(enc_record);
    lemma_key_bytes(r);
    lemma_counter_bytes(r);
    lemma_template_bytes(r);
}

proof fn lemma_be16_at(c: Seq<u8>, o: int, v: u16)
    requires
        0 <= o,
        o + 2 <= c.len(),
        c.subrange(o, o + 2) == u16_bytes(v),
    ensures
        be16(c.skip(o)) == v,
{
    lemma_be16_roundtrip(v);
    assert(c.skip(o)[0] == c.subrange(o, o + 2)[0] && c.skip(o)[1] == c.subrange(o, o + 2)[1]);
}

proof fn lemma_be32_at(c: Seq<u8>, o: int, v: u32)
    requires
        0 <= o,
        o + 4 <= c.len(),
        c.subrange(o, o + 4) == u32_bytes(v),
    ensures
        be32(c.skip(o)) == v,
{
    lemma_be32_roundtrip(v);
    let x = c.skip(o);
    let y = c.subrange(o, o + 4);
    assert(x[0] == y[0] && x[1] == y[1] && x[2] == y[2] && x[3] == y[3]);
}

proof fn lemma_be64_at(c: Seq<u8>, o: int, v: u64)
    requires
        0 <= o,
        o + 8 <= c.len(),
        c.subrange(o, o + 8) == u64_bytes(v),
    ensures
        be64(c.skip(o)) == v,
{
    lemma_be64_roundtrip(v);
    let x = c.skip(o);
    let y = c.subrange(o, o + 8);
    assert(x.take(4) =~= y.take(4));
    assert(x.skip(4)[0] == y.skip(4)[0] && x.skip(4)[1] == y.skip(4)[1]);
    assert(x.skip(4)[2] == y.skip(4)[2] && x.skip(4)[3] == y.skip(4)[3]);
    assert(be32(x.skip(4)) == be32(y.skip(4)));
}

proof fn lemma_key_bytes(r: FlowRecord)
    ensures
        key_bytes(r).len() == 17,
        be32(key_bytes(r)) == r.key.src,
        be32(key_bytes(r).skip(4)) == r.key.dst,
        be32(key_bytes(r).skip(8)) == r.key.flow_id,
        be16(key_bytes(r).skip(12)) == r.key.sport,
        be16(key_bytes(r).skip(14)) == r.key.dport,
        key_bytes(r)[16] == r.key.proto,
{
    let e = key_bytes(r);
    lemma_be32_roundtrip(r.key.src);
    lemma_be16_roundtrip(r.key.sport);
    assert(e.subrange(0, 4) =~= u32_bytes(r.key.src));
    assert(e.subrange(4, 8) =~= u32_bytes(r.key.dst));
    assert(e.subrange(8, 12) =~= u32_bytes(r.key.flow_id));
    assert(e.subrange(12, 14) =~= u16_bytes(r.key.sport));
    assert(e.subrange(14, 16) =~= u16_bytes(r.key.dport));
    lemma_be32_at(e, 0, r.key.src);
    lemma_be32_at(e, 4, r.key.dst);
    lemma_be32_at(e, 8, r.key.flow_id);
    lemma_be16_at(e, 12, r.key.sport);
    lemma_be16_at(e, 14, r.key.dport);
    assert(e.skip(0) =~= e);
}

proof fn lemma_counter_bytes(r: FlowRecord)
    ensures
        counter_bytes(r).len() == 40,
        be64(counter_bytes(r)) == r.octets,
        be64(counter_bytes(r).skip(8)) == r.packets,
        be64(counter_bytes(r).skip(16)) == r.records,
        be64(counter_bytes(r).skip(24)) == r.first_ms,
        be64(counter_bytes(r).skip(32)) == r.last_ms,
{
    let e = counter_bytes(r);
    lemma_be64_roundtrip(r.octets);
    assert(e.subrange(0, 8) =~= u64_bytes(r.octets));
    assert(e.subrange(8, 16) =~= u64_bytes(r.packets));
    assert(e.subrange(16, 24) =~= u64_bytes(r.records));
    assert(e.subrange(24, 32) =~= u64_bytes(r.first_ms));
    assert(e.subrange(32, 40) =~= u64_bytes(r.last_ms));
    lemma_be64_at(e, 0, r.octets);
    lemma_be64_at(e, 8, r.packets);
    lemma_be64_at(e, 16, r.records);
    lemma_be64_at(e, 24, r.first_ms);
    lemma_be64_at(e, 32, r.last_ms);
    assert(e.skip(0) =~= e);
}

proof fn lemma_template_bytes(r: FlowRecord)
    ensures
        template_bytes(r).len() == 6,
        be16(template_bytes(r)) == r.template_id,
        be32(template_bytes(r).skip(2)) == r.template_gen,
{
    let e = template_bytes(r);
    lemma_be16_roundtrip(r.template_id);
    lemma_be32_roundtrip(r.template_gen);
    assert(e.subrange(0, 2) =~= u16_bytes(r.template_id));
    assert(e.subrange(2, 6) =~= u32_bytes(r.template_gen));
    lemma_be16_at(e, 0, r.template_id);
    lemma_be32_at(e, 2, r.template_gen);
    assert(e.skip(0) =~= e);
}

proof fn lemma_dec_enc_record(r: FlowRecord)
    ensures
        dec_record(enc_record(r)) == persisted(r),
{
    reveal(enc_record);
    let k = key_bytes(r);
    let c = counter_bytes(r);
    let t = template_bytes(r);
    let e = enc_record(r);
    lemma_key_bytes(r);
    lemma_counter_bytes(r);
    lemma_template_bytes(r);
    assert forall|o: int| 0 <= o <= 16 implies #[trigger] e.skip(o).take(4) == k.skip(o).take(4) || o > 13 by {
        if o <= 13 {
            assert(e.skip(o).take(4) =~= k.skip(o).take(4));
        }
    }
    assert(e.take(4) =~= k.take(4));
    assert(e.skip(4).take(4) =~= k.skip(4).take(4));
    assert(e.skip(8).take(4) =~= k.skip(8).take(4));
    assert(e.skip(12).take(2) =~= k.skip(12).take(2));
    assert(e.skip(14).take(2) =~= k.skip(14).take(2));
    assert(e[16] == k[16]);
    assert(be32(e) == be32(k)) by {
        assert(e[0] == k[0] && e[1] == k[1] && e[2] == k[2] && e[3] == k[3]);
    }
    assert(be32(e.skip(4)) == be32(k.skip(4))) by {
        assert(e.skip(4)[0] == k.skip(4)[0] && e.skip(4)[1] == k.skip(4)[1]);
        assert(e.skip(4)[2] == k.skip(4)[2] && e.skip(4)[3] == k.skip(4)[3]);
    }
    assert(be32(e.skip(8)) == be32(k.skip(8))) by {
        assert(e.skip(8)[0] == k.skip(8)[0] && e.skip(8)[1] == k.skip(8)[1]);
        assert(e.skip(8)[2] == k.skip(8)[2] && e.skip(8)[3] == k.skip(8)[3]);
    }
    assert(be16(e.skip(12)) == be16(k.skip(12))) by {
        assert(e.skip(12)[0] == k.skip(12)[0] && e.skip(12)[1] == k.skip(12)[1]);
    }
    assert(be16(e.skip(14)) == be16(k.skip(14))) by {
        assert(e.skip(14)[0] == k.skip(14)[0] && e.skip(14)[1] == k.skip(14)[1]);
    }
    assert(e.skip(17).take(40) =~= c);
    assert(e.skip(57) =~= t);
    lemma_be_prefix_of(e.skip(17), c, 0);
    lemma_be_prefix_of(e.skip(17), c, 8);
    lemma_be_prefix_of(e.skip(17), c, 16);
    lemma_be_prefix_of(e.skip(17), c, 24);
    lemma_be_prefix_of(e.skip(17), c, 32);
    assert(e.skip(17).skip(8) =~= e.skip(25));
    assert(e.skip(17).skip(16) =~= e.skip(33));
    assert(e.skip(17).skip(24) =~= e.skip(41));
    assert(e.skip(17).skip(32) =~= e.skip(49));
    assert(c.skip(0) =~= c);
    assert(e.skip(17).skip(0) =~= e.skip(17));
    assert(t.skip(2) =~= e.skip(59));
}

/// A 64-bit value at offset `o` of `x` is the one at the same offset of `c`
/// when `c` is the start of `x`.
proof fn lemma_be_prefix_of(x: Seq<u8>, c: Seq<u8>, o: int)
    requires
        0 <= o,
        o + 8 <= c.len(),
        c.len() <= x.len(),
        x.take(c.len() as int) == c,
    ensures
        be64(x.skip(o)) == be64(c.skip(o)),
{
    assert forall|k: int| 0 <= k < 8 implies #[trigger] x.skip(o)[k] == c.skip(o)[k] by {
        assert(x.take(c.len() as int)[o + k] == x[o + k]);
    }
    assert(x.skip(o).take(4) =~= c.skip(o).take(4));
    assert(x.skip(o).skip(4)[0] == c.skip(o).skip(4)[0] && x.skip(o).skip(4)[1] == c.skip(o).skip(4)[1]);
    assert(x.skip(o).skip(4)[2] == c.skip(o).skip(4)[2] && x.skip(o).skip(4)[3] == c.skip(o).skip(4)[3]);
}

/// Big-endian values only look at their own bytes.
proof fn lemma_enc_records_slot(rs: Seq<FlowRecord>, i: int)
    requires
        0 <= i < rs.len(),
    ensures
        enc_records(rs).len() == 63 * rs.len(),
        enc_records(rs).subrange(63 * i, 63 * i + 63) == enc_record(rs[i]),
    decreases rs.len(),
{
    lemma_enc_records_len(rs);
    let d = rs.drop_last();
    lemma_enc_records_len(d);
    lemma_enc_record_len(rs.last());
    if i < rs.len() - 1 {
        lemma_enc_records_slot(d, i);
        assert(enc_records(rs).subrange(63 * i, 63 * i + 63) =~= enc_records(d).subrange(63 * i, 63 * i + 63));
    } else {
        assert(enc_records(rs).subrange(63 * i, 63 * i + 63) =~= enc_record(rs.last()));
    }
}

proof fn lemma_snap_shape(rs: Seq<FlowRecord>)
    requires
        rs.len() <= u32::MAX,
    ensures
        snap_body(rs).len() == 10 + 63 * rs.len(),
        spec_encode(rs).len() == 14 + 63 * rs.len(),
        spec_encode(rs).take(spec_encode(rs).len() - 4) == snap_body(rs),
        be32(spec_encode(rs).skip(spec_encode(rs).len() - 4)) == spec_crc32(snap_body(rs)),
        spec_encode(rs).take(4) == snap_magic(),
        spec_encode(rs)[4] == 1,
        snap_count(spec_encode(rs)) == rs.len(),
        forall|i: int| 0 <= i < spec_encode(rs).len() - 4 ==> #[trigger] spec_encode(rs)[i] == snap_body(rs)[i],
{
    let body = snap_body(rs);
    let d = spec_encode(rs);
    let n = rs.len() as u32;
    let h = snap_magic() + seq![1u8, 0u8] + u32_bytes(n);
    lemma_enc_records_len(rs);
    lemma_be32_roundtrip(n);
    lemma_be32_roundtrip(spec_crc32(body));
    assert(h.len() == 10);
    assert(body =~= h + enc_records(rs));
    assert(d.take(d.len() - 4) =~= body);
    assert(d.skip(d.len() - 4) =~= u32_bytes(spec_crc32(body)));
    assert(d.take(4) =~= snap_magic());
    assert(d.skip(6).take(4) =~= u32_bytes(n)) by {
        assert(d.skip(6).take(4) =~= h.subrange(6, 10));
    }
    assert(d.skip(6)[0] == d.skip(6).take(4)[0] && d.skip(6)[1] == d.skip(6).take(4)[1]);
    assert(d.skip(6)[2] == d.skip(6).take(4)[2] && d.skip(6)[3] == d.skip(6).take(4)[3]);
}

#[verifier::rlimit(30)]
proof fn lemma_snap_record_at(rs: Seq<FlowRecord>, i: int)
    requires
        rs.len() <= u32::MAX,
        0 <= i < rs.len(),
    ensures
        dec_record(spec_encode(rs).skip(10 + 63 * i)) == persisted(rs[i]),
{
    let d = spec_encode(rs);
    let body = snap_body(rs);
    lemma_snap_shape(rs);
    lemma_enc_records_slot(rs, i);
    lemma_enc_record_len(rs[i]);
    let n = rs.len() as u32;
    let h = snap_magic() + seq![1u8, 0u8] + u32_bytes(n);
    lemma_be32_roundtrip(n);
    assert(body =~= h + enc_records(rs));
    let x = d.skip(10 + 63 * i);
    assert(10 + 63 * i + 63 <= d.len() - 4) by (nonlinear_arith)
        requires
            i < rs.len(),
            d.len() == 14 + 63 * rs.len(),
    ;
    assert forall|k: int| 0 <= k < 63 implies #[trigger] x.take(63)[k] == enc_record(rs[i])[k] by {
        assert(x[k] == d[10 + 63 * i + k]);
        assert(d[10 + 63 * i + k] == body[10 + 63 * i + k]);
        assert(body[10 + 63 * i + k] == enc_records(rs)[63 * i + k]);
        assert(enc_records(rs).subrange(63 * i, 63 * i + 63)[k] == enc_records(rs)[63 * i + k]);
    }
    assert(x.take(63) =~= enc_record(rs[i]));
    assert(enc_record(rs[i]).take(63) =~= enc_record(rs[i]));
    lemma_dec_record_prefix(x, enc_record(rs[i]));
    lemma_dec_enc_record(rs[i]);
}

/// Decoding a snapshot gives back the records it was made from, in order,
/// with what the format does not carry (deadline, bound field count, state,
/// layout flag) reset as in a fresh record; the snapshot passes every check.
pub proof fn lemma_snapshot_roundtrip(rs: Seq<FlowRecord>)
    requires
        rs.len() <= u32::MAX,
    ensures
        snap_ok(spec_encode(rs)),
        spec_decode(spec_encode(rs)) == rs.map_values(|r: FlowRecord| persisted(r)),
{
    let d = spec_encode(rs);
    lemma_snap_shape(rs);
    assert forall|i: int| 0 <= i < rs.len() implies #[trigger] dec_record(d.skip(10 + 63 * i)) == persisted(rs[i]) by {
        lemma_snap_record_at(rs, i);
    }
    assert(spec_decode(d) =~= rs.map_values(|r: FlowRecord| persisted(r)));
}

} // verus!
