//! Byte-level reading and writing, checksums, hashing and text helpers shared
//! by every codec in the crate.

use vstd::prelude::*;

use crate::error::{Error, Kind};
use crate::text::{hex2, push_hex2, push_str};

verus! {

// ---------------------------------------------------------------------------
// Big-endian integer encodings
// ---------------------------------------------------------------------------

/// The value of two big-endian bytes.
pub open spec fn be16(s: Seq<u8>) -> int {
    s[0] * 256 + s[1]
}

/// The value of four big-endian bytes.
pub open spec fn be32(s: Seq<u8>) -> int {
    s[0] * 16777216 + s[1] * 65536 + s[2] * 256 + s[3]
}

/// The value of eight big-endian bytes.
pub open spec fn be64(s: Seq<u8>) -> int {
    be32(s.take(4)) * 4294967296 + be32(s.skip(4))
}

/// Two's-complement reinterpretation of a 32-bit pattern.
pub open spec fn i32_of(u: int) -> int {
    if u < 0x8000_0000 {
        u
    } else {
        u - 0x1_0000_0000
    }
}

/// The 32-bit pattern of a signed value.
pub open spec fn u32_pattern(i: i32) -> u32 {
    if i >= 0 {
        i as u32
    } else {
        (i + 0x1_0000_0000) as u32
    }
}

pub open spec fn u16_bytes(v: u16) -> Seq<u8> {
    seq![(v / 256) as u8, (v % 256) as u8]
}

pub open spec fn u32_bytes(v: u32) -> Seq<u8> {
    seq![(v / 16777216) as u8, ((v / 65536) % 256) as u8, ((v / 256) % 256) as u8, (v % 256) as u8]
}

pub open spec fn u64_bytes(v: u64) -> Seq<u8> {
    u32_bytes((v / 4294967296) as u32) + u32_bytes((v % 4294967296) as u32)
}

pub open spec fn i32_bytes(v: i32) -> Seq<u8> {
    u32_bytes(u32_pattern(v))
}

pub proof fn lemma_be16_roundtrip(v: u16)
    ensures
        u16_bytes(v).len() == 2,
        be16(u16_bytes(v)) == v,
{
}

pub proof fn lemma_be32_roundtrip(v: u32)
    ensures
        u32_bytes(v).len() == 4,
        be32(u32_bytes(v)) == v,
{
}

pub proof fn lemma_be64_roundtrip(v: u64)
    ensures
        u64_bytes(v).len() == 8,
        be64(u64_bytes(v)) == v,
{
    let hi = (v / 4294967296) as u32;
    let lo = (v % 4294967296) as u32;
    lemma_be32_roundtrip(hi);
    lemma_be32_roundtrip(lo);
    assert(u64_bytes(v).take(4) =~= u32_bytes(hi));
    assert(u64_bytes(v).skip(4) =~= u32_bytes(lo));
}

pub proof fn lemma_i32_roundtrip(v: i32)
    ensures
        i32_bytes(v).len() == 4,
        i32_of(be32(i32_bytes(v))) == v,
{
    lemma_be32_roundtrip(u32_pattern(v));
}

/// Decode four big-endian bytes.
pub fn read_be32(b0: u8, b1: u8, b2: u8, b3: u8) -> (v: u32)
    ensures
        v == be32(seq![b0, b1, b2, b3]),
{
    (b0 as u32) * 16777216 + (b1 as u32) * 65536 + (b2 as u32) * 256 + (b3 as u32)
}

/// Decode two big-endian bytes.
pub fn read_be16(b0: u8, b1: u8) -> (v: u16)
    ensures
        v == be16(seq![b0, b1]),
{
    (b0 as u16) * 256 + (b1 as u16)
}

// ---------------------------------------------------------------------------
// ByteReader
// ---------------------------------------------------------------------------

/// A forward-only big-endian reader over a borrowed byte slice. Its view is the
/// sequence of bytes not yet consumed.
pub struct ByteReader<'a> {
    data: &'a [u8],
    pos: usize,
}

impl<'a> View for ByteReader<'a> {
    type V = Seq<u8>;

    closed spec fn view(&self) -> Seq<u8> {
        self.data@.subrange(self.pos as int, self.data@.len() as int)
    }
}

/// `new` is `old` with its first `n` bytes consumed, and `old` had at least `n`.
pub open spec fn consumed(old: Seq<u8>, new: Seq<u8>, n: int) -> bool {
    &&& old.len() >= n
    &&& new == old.skip(n)
}

impl<'a> ByteReader<'a> {
    #[verifier::type_invariant]
    closed spec fn inv(self) -> bool {
        self.pos <= self.data@.len()
    }

    pub fn new(data: &'a [u8]) -> (r: ByteReader<'a>)
        ensures
            r@ == data@,
    {
        let r = ByteReader { data, pos: 0 };
        assert(r@ =~= data@);
        r
    }

    /// Bytes not yet consumed.
    pub fn remaining(&self) -> (n: usize)
        ensures
            n == self@.len(),
    {
        proof { use_type_invariant(self); }
        self.data.len() - self.pos
    }

    pub fn is_empty(&self) -> (b: bool)
        ensures
            b == (self@.len() == 0),
    {
        proof { use_type_invariant(self); }
        self.pos == self.data.len()
    }

    /// Consume `n` bytes and return them as a slice of the input.
    pub fn take(&mut self, n: usize) -> (res: Result<&'a [u8], Error>)
        ensures
            match res {
                Ok(s) => consumed(old(self)@, final(self)@, n as int) && s@ == old(self)@.take(n as int),
                Err(e) => old(self)@.len() < n && e.kind == Kind::Malformed && final(self)@ == old(self)@,
            },
    {
        proof { use_type_invariant(&*self); }
        if n > self.data.len() - self.pos {
            return Err(Error::malformed("truncated input"));
        }
        let start = self.pos;
        let s = &self.data[start..start + n];
        self.pos = start + n;
        assert(s@ =~= old(self)@.take(n as int));
        assert(self@ =~= old(self)@.skip(n as int));
        Ok(s)
    }

    /// Consume `n` bytes without returning them.
    pub fn skip(&mut self, n: usize) -> (res: Result<(), Error>)
        ensures
            match res {
                Ok(_) => consumed(old(self)@, final(self)@, n as int),
                Err(e) => old(self)@.len() < n && e.kind == Kind::Malformed && final(self)@ == old(self)@,
            },
    {
        match self.take(n) {
            Ok(_) => Ok(()),
            Err(e) => Err(e),
        }
    }

    /// Consume and return everything that is left.
    pub fn rest(&mut self) -> (s: &'a [u8])
        ensures
            s@ == old(self)@,
            final(self)@.len() == 0,
    {
        proof { use_type_invariant(&*self); }
        let start = self.pos;
        let end = self.data.len();
        let s = &self.data[start..end];
        self.pos = end;
        assert(self@ =~= Seq::<u8>::empty());
        s
    }

    pub fn u8(&mut self) -> (res: Result<u8, Error>)
        ensures
            match res {
                Ok(v) => consumed(old(self)@, final(self)@, 1) && v == old(self)@[0],
                Err(e) => old(self)@.len() < 1 && e.kind == Kind::Malformed && final(self)@ == old(self)@,
            },
    {
        let s = self.take(1)?;
        Ok(s[0])
    }

    pub fn u16(&mut self) -> (res: Result<u16, Error>)
        ensures
            match res {
                Ok(v) => consumed(old(self)@, final(self)@, 2) && v == be16(old(self)@),
                Err(e) => old(self)@.len() < 2 && e.kind == Kind::Malformed && final(self)@ == old(self)@,
            },
    {
        let s = self.take(2)?;
        Ok(read_be16(s[0], s[1]))
    }

    pub fn u32(&mut self) -> (res: Result<u32, Error>)
        ensures
            match res {
                Ok(v) => consumed(old(self)@, final(self)@, 4) && v == be32(old(self)@),
                Err(e) => old(self)@.len() < 4 && e.kind == Kind::Malformed && final(self)@ == old(self)@,
            },
    {
        let s = self.take(4)?;
        Ok(read_be32(s[0], s[1], s[2], s[3]))
    }

    pub fn i32(&mut self) -> (res: Result<i32, Error>)
        ensures
            match res {
                Ok(v) => consumed(old(self)@, final(self)@, 4) && v == i32_of(be32(old(self)@)),
                Err(e) => old(self)@.len() < 4 && e.kind == Kind::Malformed && final(self)@ == old(self)@,
            },
    {
        let u = self.u32()?;
        if u < 0x8000_0000 {
            Ok(u as i32)
        } else {
            let low = (u - 0x8000_0000) as i32;
            Ok(low - 0x7fff_ffff - 1)
        }
    }

    pub fn u64(&mut self) -> (res: Result<u64, Error>)
        ensures
            match res {
                Ok(v) => consumed(old(self)@, final(self)@, 8) && v == be64(old(self)@),
                Err(e) => old(self)@.len() < 8 && e.kind == Kind::Malformed && final(self)@ == old(self)@,
            },
    {
        let s = self.take(8)?;
        let hi = read_be32(s[0], s[1], s[2], s[3]);
        let lo = read_be32(s[4], s[5], s[6], s[7]);
        proof {
            assert(s@.take(4) =~= seq![s@[0], s@[1], s@[2], s@[3]]);
            assert(s@.skip(4) =~= seq![s@[4], s@[5], s@[6], s@[7]]);
            assert(old(self)@.take(4) =~= s@.take(4));
            assert(old(self)@.skip(4).take(4) =~= s@.skip(4));
        }
        Ok((hi as u64) * 4294967296 + (lo as u64))
    }
}

// ---------------------------------------------------------------------------
// ByteWriter
// ---------------------------------------------------------------------------

/// An append-only big-endian writer. Its view is the bytes written so far.
pub struct ByteWriter {
    buf: Vec<u8>,
}

impl View for ByteWriter {
    type V = Seq<u8>;

    closed spec fn view(&self) -> Seq<u8> {
        self.buf@
    }
}

impl ByteWriter {
    pub fn new() -> (w: ByteWriter)
        ensures
            w@ == Seq::<u8>::empty(),
    {
        ByteWriter { buf: Vec::new() }
    }

    pub fn len(&self) -> (n: usize)
        ensures
            n == self@.len(),
    {
        self.buf.len()
    }

    pub fn u8(&mut self, v: u8)
        ensures
            final(self)@ == old(self)@.push(v),
    {
        self.buf.push(v);
    }

    pub fn bytes(&mut self, data: &[u8])
        ensures
            final(self)@ == old(self)@ + data@,
    {
        let ghost start = self.buf@;
        let mut i: usize = 0;
        while i < data.len()
            invariant
                i <= data@.len(),
                self.buf@ == start + data@.take(i as int),
            decreases data@.len() - i,
        {
            self.buf.push(data[i]);
            i = i + 1;
            assert(data@.take(i as int) =~= data@.take((i - 1) as int).push(data@[i - 1]));
        }
        assert(data@.take(data@.len() as int) =~= data@);
    }

    pub fn u16(&mut self, v: u16)
        ensures
            final(self)@ == old(self)@ + u16_bytes(v),
    {
        self.buf.push((v / 256) as u8);
        self.buf.push((v % 256) as u8);
        assert(self.buf@ =~= old(self)@ + u16_bytes(v));
    }

    pub fn u32(&mut self, v: u32)
        ensures
            final(self)@ == old(self)@ + u32_bytes(v),
    {
        self.buf.push((v / 16777216) as u8);
        self.buf.push(((v / 65536) % 256) as u8);
        self.buf.push(((v / 256) % 256) as u8);
        self.buf.push((v % 256) as u8);
        assert(self.buf@ =~= old(self)@ + u32_bytes(v));
    }

    pub fn i32(&mut self, v: i32)
        ensures
            final(self)@ == old(self)@ + i32_bytes(v),
    {
        let u: u32 = if v >= 0 {
            v as u32
        } else {
            ((v + 0x7fff_ffff + 1) as u32) + 0x8000_0000
        };
        assert(u == u32_pattern(v));
        self.u32(u);
    }

    pub fn u64(&mut self, v: u64)
        ensures
            final(self)@ == old(self)@ + u64_bytes(v),
    {
        self.u32((v / 4294967296) as u32);
        self.u32((v % 4294967296) as u32);
        assert(self.buf@ =~= old(self)@ + u64_bytes(v));
    }

    pub fn as_slice(&self) -> (s: &[u8])
        ensures
            s@ == self@,
    {
        self.buf.as_slice()
    }

    pub fn into_vec(self) -> (v: Vec<u8>)
        ensures
            v@ == self@,
    {
        self.buf
    }
}

// ---------------------------------------------------------------------------
// Checksums and hashing
// ---------------------------------------------------------------------------

/// One bit step of the reflected CRC-32 (IEEE 802.3) register.
/// An owned copy of a byte slice.
pub fn copy_bytes(data: &[u8]) -> (v: Vec<u8>)
    ensures
        v@ == data@,
{
    let mut v: Vec<u8> = Vec::new();
    let mut i: usize = 0;
    while i < data.len()
        invariant
            i <= data@.len(),
            v@ == data@.take(i as int),
        decreases data@.len() - i,
    {
        v.push(data[i]);
        i = i + 1;
        assert(v@ =~= data@.take(i as int));
    }
    assert(data@.take(data@.len() as int) =~= data@);
    v
}

pub open spec fn crc_bit(c: u32) -> u32 {
    if c & 1u32 == 1u32 {
        (c >> 1u32) ^ 0xEDB8_8320u32
    } else {
        c >> 1u32
    }
}

/// Eight bit steps.
pub open spec fn crc_bits(c: u32, n: nat) -> u32
    decreases n,
{
    if n == 0 {
        c
    } else {
        crc_bits(crc_bit(c), (n - 1) as nat)
    }
}

/// Fold one byte into the CRC register.
pub open spec fn crc_byte(c: u32, b: u8) -> u32 {
    crc_bits(c ^ (b as u32), 8)
}

/// The CRC register after folding in all of `s`, starting from `init`.
pub open spec fn crc_reg(init: u32, s: Seq<u8>) -> u32
    decreases s.len(),
{
    if s.len() == 0 {
        init
    } else {
        crc_byte(crc_reg(init, s.drop_last()), s.last())
    }
}

/// CRC-32 (IEEE) of a byte sequence.
pub open spec fn spec_crc32(s: Seq<u8>) -> u32 {
    !crc_reg(0xFFFF_FFFFu32, s)
}

fn crc_bit_exec(c: u32) -> (r: u32)
    ensures
        r == crc_bit(c),
{
    if c & 1 == 1 {
        (c >> 1) ^ 0xEDB8_8320
    } else {
        c >> 1
    }
}

/// CRC-32 (IEEE 802.3, reflected, polynomial 0xEDB88320).
pub fn crc32(data: &[u8]) -> (c: u32)
    ensures
        c == spec_crc32(data@),
{
    let mut reg: u32 = 0xFFFF_FFFF;
    let mut i: usize = 0;
    while i < data.len()
        invariant
            i <= data@.len(),
            reg == crc_reg(0xFFFF_FFFFu32, data@.take(i as int)),
        decreases data@.len() - i,
    {
        let mut c = reg ^ (data[i] as u32);
        let mut k: usize = 0;
        while k < 8
            invariant
                k <= 8,
                crc_bits(c, (8 - k) as nat) == crc_byte(reg, data@[i as int]),
            decreases 8 - k,
        {
            c = crc_bit_exec(c);
            k = k + 1;
        }
        proof {
            assert(data@.take(i + 1).drop_last() =~= data@.take(i as int));
        }
        reg = c;
        i = i + 1;
    }
    assert(data@.take(data@.len() as int) =~= data@);
    !reg
}

pub open spec fn fnv_step(h: u64, b: u8) -> u64 {
    vstd::wrapping::u64_specs::wrapping_mul(h ^ (b as u64), 0x100_0000_01b3u64)
}

pub open spec fn fnv_fold(s: Seq<u8>) -> u64
    decreases s.len(),
{
    if s.len() == 0 {
        0xcbf2_9ce4_8422_2325u64
    } else {
        fnv_step(fnv_fold(s.drop_last()), s.last())
    }
}

/// 64-bit FNV-1a hash.
pub fn fnv1a(data: &[u8]) -> (h: u64)
    ensures
        h == fnv_fold(data@),
{
    let mut h: u64 = 0xcbf2_9ce4_8422_2325;
    let mut i: usize = 0;
    while i < data.len()
        invariant
            i <= data@.len(),
            h == fnv_fold(data@.take(i as int)),
        decreases data@.len() - i,
    {
        proof {
            assert(data@.take(i + 1).drop_last() =~= data@.take(i as int));
        }
        h = (h ^ (data[i] as u64)).wrapping_mul(0x100_0000_01b3);
        i = i + 1;
    }
    assert(data@.take(data@.len() as int) =~= data@);
    h
}

// ---------------------------------------------------------------------------
// Logical clock
// ---------------------------------------------------------------------------

/// A monotonic logical clock.
pub struct LogicalClock {
    now: u64,
}

impl LogicalClock {
    pub fn new(start: u64) -> (c: LogicalClock)
        ensures
            c.spec_now() == start,
    {
        LogicalClock { now: start }
    }

    pub closed spec fn spec_now(&self) -> u64 {
        self.now
    }

    pub fn now(&self) -> (t: u64)
        ensures
            t == self.spec_now(),
    {
        self.now
    }

    /// Advance by `n` ticks, saturating at `u64::MAX`.
    pub fn advance(&mut self, n: u64)
        ensures
            final(self).spec_now() == if old(self).spec_now() + n > u64::MAX {
                u64::MAX as int
            } else {
                old(self).spec_now() + n
            },
    {
        self.now = self.now.saturating_add(n);
    }
}


// ---------------------------------------------------------------------------
// Hex preview
// ---------------------------------------------------------------------------

/// The bytes of `s` as two-digit lowercase hex, separated by single spaces.
pub open spec fn hex_words(s: Seq<u8>) -> Seq<char>
    decreases s.len(),
{
    if s.len() == 0 {
        Seq::empty()
    } else if s.len() == 1 {
        hex2(s[0])
    } else {
        hex_words(s.drop_last()) + " "@ + hex2(s.last())
    }
}

/// A short hex view of `data`: its first `max` bytes as hex words, then
/// ` ...` when bytes were left out.
pub open spec fn spec_hex_preview(data: Seq<u8>, max: nat) -> Seq<char> {
    if data.len() > max {
        hex_words(data.take(max as int)) + " ..."@
    } else {
        hex_words(data)
    }
}

/// Render the first `max` bytes of `data` as space-separated hex, marking a
/// cut with ` ...`.
pub fn hex_preview(data: &[u8], max: usize) -> (s: String)
    ensures
        s@ == spec_hex_preview(data@, max as nat),
{
    let n = if data.len() > max { max } else { data.len() };
    let mut s = String::new();
    let mut i: usize = 0;
    while i < n
        invariant
            i <= n,
            n <= data@.len(),
            s@ == hex_words(data@.take(i as int)),
        decreases n - i,
    {
        if i > 0 {
            push_str(&mut s, " ");
        }
        push_hex2(&mut s, data[i]);
        proof {
            let t = data@.take(i + 1);
            assert(t.drop_last() =~= data@.take(i as int));
            assert(t.last() == data@[i as int]);
        }
        i = i + 1;
    }
    if data.len() > max {
        push_str(&mut s, " ...");
    } else {
        assert(data@.take(n as int) =~= data@);
    }
    s
}

} // verus!
