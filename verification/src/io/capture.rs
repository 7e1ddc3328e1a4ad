//! A simple capture-file format for recording CVWP streams for replay.
//!
//! ```text
//! header:
//!   magic     : 4 bytes = "CVCP"
//!   version   : 1 byte
//!   reserved  : 3 bytes
//! record (repeated):
//!   timestamp : 8 bytes (big-endian, ms)
//!   length    : 4 bytes (big-endian)
//!   stream    : length bytes (a full CVWP stream)
//! ```

use vstd::prelude::*;

use crate::error::{Error, Kind};
use crate::util::{
    be32, be64, copy_bytes, lemma_be32_roundtrip, lemma_be64_roundtrip, u32_bytes, u64_bytes, ByteReader,
    ByteWriter,
};

verus! {

pub const CAP_MAGIC: [u8; 4] = [0x43, 0x56, 0x43, 0x50];

pub const CAP_VERSION: u8 = 1;

pub open spec fn cap_header() -> Seq<u8> {
    seq![0x43u8, 0x56, 0x43, 0x50, 1, 0, 0, 0]
}

/// A single captured stream with its arrival timestamp.
#[derive(Debug, Clone)]
pub struct CaptureRecord {
    pub timestamp_ms: u64,
    pub stream: Vec<u8>,
}

/// A record as the contracts see it: timestamp and stream bytes.
pub open spec fn rec_view(r: CaptureRecord) -> (u64, Seq<u8>) {
    (r.timestamp_ms, r.stream@)
}

pub open spec fn enc_rec(r: (u64, Seq<u8>)) -> Seq<u8> {
    u64_bytes(r.0) + u32_bytes(r.1.len() as u32) + r.1
}

pub open spec fn enc_recs(rs: Seq<(u64, Seq<u8>)>) -> Seq<u8>
    decreases rs.len(),
{
    if rs.len() == 0 {
        Seq::empty()
    } else {
        enc_rec(rs[0]) + enc_recs(rs.drop_first())
    }
}

/// A capture file holding `rs` (lengths are written as 32-bit values).
pub open spec fn spec_write(rs: Seq<(u64, Seq<u8>)>) -> Seq<u8> {
    cap_header() + enc_recs(rs)
}

proof fn lemma_enc_recs_push(rs: Seq<(u64, Seq<u8>)>, r: (u64, Seq<u8>))
    ensures
        enc_recs(rs.push(r)) == enc_recs(rs) + enc_rec(r),
    decreases rs.len(),
{
    if rs.len() == 0 {
        assert(rs.push(r).drop_first() =~= Seq::<(u64, Seq<u8>)>::empty());
        assert(rs.push(r)[0] == r);
        assert(enc_recs(Seq::<(u64, Seq<u8>)>::empty()) == Seq::<u8>::empty());
        assert(enc_recs(rs) == Seq::<u8>::empty());
        assert(enc_recs(rs.push(r)) =~= enc_rec(r));
    } else {
        assert(rs.push(r).drop_first() =~= rs.drop_first().push(r));
        lemma_enc_recs_push(rs.drop_first(), r);
        assert(rs.push(r)[0] == rs[0]);
        assert(enc_recs(rs.push(r)) =~= enc_recs(rs) + enc_rec(r));
    }
}

/// Write a capture file from a set of records.
pub fn write(records: &[CaptureRecord]) -> (out: Vec<u8>)
    ensures
        out@ == spec_write(records@.map_values(|r: CaptureRecord| rec_view(r))),
{
    let ghost rs = records@.map_values(|r: CaptureRecord| rec_view(r));
    let mut w = ByteWriter::new();
    w.bytes(CAP_MAGIC.as_slice());
    w.u8(CAP_VERSION);
    let zeros = [0u8, 0u8, 0u8];
    w.bytes(zeros.as_slice());
    assert(w@ =~= cap_header());
    let mut i: usize = 0;
    while i < records.len()
        invariant
            i <= records@.len(),
            rs == records@.map_values(|r: CaptureRecord| rec_view(r)),
            w@ == cap_header() + enc_recs(rs.take(i as int)),
        decreases records@.len() - i,
    {
        let r = &records[i];
        let ghost before = w@;
        w.u64(r.timestamp_ms);
        w.u32(r.stream.len() as u32);
        w.bytes(r.stream.as_slice());
        proof {
            assert(rs[i as int] == rec_view(*r));
            assert(w@ =~= before + enc_rec(rs[i as int]));
            lemma_enc_recs_push(rs.take(i as int), rs[i as int]);
            assert(rs.take(i + 1) =~= rs.take(i as int).push(rs[i as int]));
        }
        i = i + 1;
    }
    assert(rs.take(rs.len() as int) =~= rs);
    w.into_vec()
}

/// What reading one record from the unread bytes `b` gives: `Ok(None)` at
/// the end, the record, or the error kind (`Limit` for a stream longer than
/// `max`); with the bytes left.
pub open spec fn spec_next_cap(b: Seq<u8>, max: int) -> (Result<Option<(u64, Seq<u8>)>, Kind>, Seq<u8>) {
    if b.len() == 0 {
        (Ok(None), b)
    } else if b.len() < 12 {
        (Err(Kind::Malformed), b)
    } else if be32(b.skip(8)) > max {
        (Err(Kind::Limit), b)
    } else if be32(b.skip(8)) > b.len() - 12 {
        (Err(Kind::Malformed), b)
    } else {
        (Ok(Some((be64(b) as u64, b.subrange(12, 12 + be32(b.skip(8)))))), b.skip(12 + be32(b.skip(8))))
    }
}

/// Every record up to the end, or the first error.
pub open spec fn spec_read_all(b: Seq<u8>, max: int) -> Result<Seq<(u64, Seq<u8>)>, Kind>
    decreases b.len(),
{
    if b.len() == 0 {
        Ok(Seq::empty())
    } else {
        match spec_next_cap(b, max) {
            (Err(k), _) => Err(k),
            (Ok(None), _) => Ok(Seq::empty()),
            (Ok(Some(r)), rest) => if rest.len() < b.len() {
                match spec_read_all(rest, max) {
                    Ok(rs) => Ok(seq![r] + rs),
                    Err(k) => Err(k),
                }
            } else {
                Err(Kind::Malformed)
            },
        }
    }
}

/// Whether `data` starts a capture file: long enough, right magic and version.
pub open spec fn cap_header_ok(data: Seq<u8>) -> bool {
    data.len() >= 8 && data.take(4) == cap_header().take(4) && data[4] == 1
}

/// An iterator-style reader over a capture file.
pub struct CaptureReader<'a> {
    r: ByteReader<'a>,
    max_stream: usize,
}

impl<'a> CaptureReader<'a> {
    /// The bytes not yet read.
    pub closed spec fn rest(&self) -> Seq<u8> {
        self.r@
    }

    pub closed spec fn spec_max_stream(&self) -> usize {
        self.max_stream
    }

    /// Check the header; the reader starts after it, accepting streams of up
    /// to 8 MiB.
    pub fn open(data: &'a [u8]) -> (res: Result<CaptureReader<'a>, Error>)
        ensures
            match res {
                Ok(c) => cap_header_ok(data@) && c.rest() == data@.skip(8) && c.spec_max_stream() == 8388608,
                Err(e) => !cap_header_ok(data@) && e.kind == Kind::Malformed,
            },
    {
        if data.len() < 8 {
            return Err(Error::malformed("capture file too short"));
        }
        if data[0] != CAP_MAGIC[0] || data[1] != CAP_MAGIC[1] || data[2] != CAP_MAGIC[2] || data[3] != CAP_MAGIC[3] {
            proof {
                if data@.take(4) == cap_header().take(4) {
                    assert(data@.take(4)[0] == data@[0] && data@.take(4)[1] == data@[1]);
                    assert(data@.take(4)[2] == data@[2] && data@.take(4)[3] == data@[3]);
                }
            }
            return Err(Error::malformed("bad capture magic"));
        }
        assert(data@.take(4) =~= cap_header().take(4));
        if data[4] != CAP_VERSION {
            return Err(Error::malformed("unsupported capture version"));
        }
        let mut r = ByteReader::new(data);
        let _ = r.skip(8);
        Ok(CaptureReader { r, max_stream: 8388608 })
    }

    /// Read the next record, or `None` at end of file.
    pub fn next_record(&mut self) -> (res: Result<Option<CaptureRecord>, Error>)
        ensures
            final(self).spec_max_stream() == old(self).spec_max_stream(),
            ({
                let (want, after) = spec_next_cap(old(self).rest(), old(self).spec_max_stream() as int);
                match want {
                    Ok(None) => res matches Ok(None) && final(self).rest() == after,
                    Ok(Some(v)) => res is Ok && res->Ok_0 is Some && rec_view(res->Ok_0->Some_0) == v
                        && final(self).rest() == after,
                    Err(k) => res is Err && res->Err_0.kind == k,
                }
            }),
    {
        let ghost b = self.r@;
        if self.r.is_empty() {
            return Ok(None);
        }
        if self.r.remaining() < 12 {
            return Err(Error::malformed("truncated capture record"));
        }
        let timestamp_ms = self.r.u64().unwrap();
        let len = self.r.u32().unwrap();
        proof {
            assert(be32(b.skip(8)) == len) by {
                assert(b.skip(8)[0] == b[8] && b.skip(8)[1] == b[9] && b.skip(8)[2] == b[10] && b.skip(8)[3] == b[11]);
            }
        }
        if len as usize > self.max_stream {
            return Err(Error::limit("captured stream too large").with_context(len as u64));
        }
        let s = self.r.take(len as usize)?;
        let stream = copy_bytes(s);
        proof {
            assert(s@ =~= b.subrange(12, 12 + len as int));
            assert(self.r@ =~= b.skip(12 + len as int));
        }
        Ok(Some(CaptureRecord { timestamp_ms, stream }))
    }

    /// Collect all records into a vector.
    pub fn read_all(self) -> (res: Result<Vec<CaptureRecord>, Error>)
        ensures
            match spec_read_all(self.rest(), self.spec_max_stream() as int) {
                Ok(rs) => res is Ok && res->Ok_0@.map_values(|r: CaptureRecord| rec_view(r)) == rs,
                Err(k) => res is Err && res->Err_0.kind == k,
            },
    {
        let ghost b0 = self.rest();
        let ghost max = self.spec_max_stream() as int;
        let mut me = self;
        let mut out: Vec<CaptureRecord> = Vec::new();
        loop
            invariant
                me.spec_max_stream() == max,
                b0 == self.rest(),
                max == self.spec_max_stream() as int,
                spec_read_all(b0, max) == match spec_read_all(me.rest(), max) {
                    Ok(rs) => Ok(out@.map_values(|r: CaptureRecord| rec_view(r)) + rs),
                    Err(k) => Err::<Seq<(u64, Seq<u8>)>, Kind>(k),
                },
            decreases me.rest().len(),
        {
            let ghost b = me.rest();
            let ghost before = out@.map_values(|r: CaptureRecord| rec_view(r));
            match me.next_record() {
                Ok(Some(rec)) => {
                    proof {
                        lemma_next_shrinks(b, max);
                        match spec_read_all(me.rest(), max) {
                            Ok(rs) => {
                                assert(before + (seq![rec_view(rec)] + rs) =~= before.push(rec_view(rec)) + rs);
                            },
                            Err(_) => {},
                        }
                    }
                    out.push(rec);
                    assert(out@.map_values(|r: CaptureRecord| rec_view(r)) =~= before.push(rec_view(rec)));
                },
                Ok(None) => {
                    proof {
                        assert(b.len() == 0);
                        assert(spec_read_all(b, max) == Ok::<Seq<(u64, Seq<u8>)>, Kind>(Seq::empty()));
                        assert(before + Seq::<(u64, Seq<u8>)>::empty() =~= before);
                    }
                    return Ok(out);
                },
                Err(e) => {
                    proof {
                        assert(b.len() > 0);
                        assert(spec_read_all(b, max) == Err::<Seq<(u64, Seq<u8>)>, Kind>(e.kind));
                    }
                    return Err(e);
                },
            }
        }
    }
}

proof fn lemma_next_shrinks(b: Seq<u8>, max: int)
    requires
        spec_next_cap(b, max).0 matches Ok(Some(_)),
    ensures
        spec_next_cap(b, max).1.len() < b.len(),
{
}

/// Reading a capture file written from some records gives them back, in
/// order, as long as every stream fits the reader's 8 MiB limit.
pub proof fn lemma_capture_roundtrip(rs: Seq<(u64, Seq<u8>)>)
    requires
        forall|i: int| 0 <= i < rs.len() ==> (#[trigger] rs[i]).1.len() <= 8388608,
    ensures
        cap_header_ok(spec_write(rs)),
        spec_read_all(spec_write(rs).skip(8), 8388608) == Ok::<Seq<(u64, Seq<u8>)>, Kind>(rs),
{
    let d = spec_write(rs);
    assert(d.take(4) =~= cap_header().take(4));
    assert(d.skip(8) =~= enc_recs(rs));
    lemma_read_enc(rs);
}

proof fn lemma_next_enc(r: (u64, Seq<u8>), t: Seq<u8>)
    requires
        r.1.len() <= 8388608,
    ensures
        spec_next_cap(enc_rec(r) + t, 8388608) == (
            Ok::<Option<(u64, Seq<u8>)>, Kind>(Some(r)),
            t,
        ),
{
    let b = enc_rec(r) + t;
    let n = r.1.len() as u32;
    lemma_be64_roundtrip(r.0);
    lemma_be32_roundtrip(n);
    let u = u64_bytes(r.0);
    let w = u32_bytes(n);
    assert(b.take(4) =~= u.take(4));
    assert(b.skip(4).take(4) =~= u.skip(4).take(4));
    assert(b.skip(4)[0] == u.skip(4)[0] && b.skip(4)[1] == u.skip(4)[1]);
    assert(b.skip(4)[2] == u.skip(4)[2] && b.skip(4)[3] == u.skip(4)[3]);
    assert(u.skip(4)[0] == u.skip(4).take(4)[0]);
    assert(be32(b.skip(4)) == be32(u.skip(4)));
    assert(be32(b.take(4)) == be32(u.take(4))) by {
        assert(b.take(4)[0] == u.take(4)[0] && b.take(4)[1] == u.take(4)[1]);
        assert(b.take(4)[2] == u.take(4)[2] && b.take(4)[3] == u.take(4)[3]);
    }
    assert(be64(b) == r.0);
    assert(b.skip(8)[0] == w[0] && b.skip(8)[1] == w[1] && b.skip(8)[2] == w[2] && b.skip(8)[3] == w[3]);
    assert(be32(b.skip(8)) == r.1.len());
    assert(b.subrange(12, 12 + r.1.len() as int) =~= r.1);
    assert(b.skip(12 + r.1.len() as int) =~= t);
}

proof fn lemma_read_enc(rs: Seq<(u64, Seq<u8>)>)
    requires
        forall|i: int| 0 <= i < rs.len() ==> (#[trigger] rs[i]).1.len() <= 8388608,
    ensures
        spec_read_all(enc_recs(rs), 8388608) == Ok::<Seq<(u64, Seq<u8>)>, Kind>(rs),
    decreases rs.len(),
{
    if rs.len() == 0 {
        assert(enc_recs(rs) =~= Seq::<u8>::empty());
        assert(rs =~= Seq::<(u64, Seq<u8>)>::empty());
    } else {
        let r = rs[0];
        let tail = rs.drop_first();
        assert forall|i: int| 0 <= i < tail.len() implies (#[trigger] tail[i]).1.len() <= 8388608 by {
            assert(tail[i] == rs[i + 1]);
        }
        lemma_read_enc(tail);
        lemma_next_enc(r, enc_recs(tail));
        let b = enc_recs(rs);
        assert(b == enc_rec(r) + enc_recs(tail));
        assert(b.len() > 0);
        assert(seq![r] + tail =~= rs);
    }
}

} // verus!
