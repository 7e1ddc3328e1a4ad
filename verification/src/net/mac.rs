//! MAC (EUI-48) address helpers.

use vstd::prelude::*;

use crate::error::{Error, Kind};
use crate::text::{chars_of, hex2, parse_hex_u8, push_char, push_hex2, spec_hex_u8, spec_split, spec_trim, split_chars, trim, views};

verus! {

/// Up to six bytes as lowercase hex pairs joined by `:`.
pub open spec fn spec_fmt_mac(b: Seq<u8>) -> Seq<char>
    decreases b.len(),
{
    if b.len() == 0 {
        Seq::empty()
    } else if b.len() > 6 {
        spec_fmt_mac(b.take(6))
    } else if b.len() == 1 {
        hex2(b[0])
    } else {
        spec_fmt_mac(b.drop_last()) + seq![':'] + hex2(b.last())
    }
}

/// Format (the first six of) `bytes` as `aa:bb:cc:dd:ee:ff`.
pub fn fmt_mac(bytes: &[u8]) -> (s: String)
    ensures
        s@ == spec_fmt_mac(bytes@),
{
    let n: usize = if bytes.len() < 6 { bytes.len() } else { 6 };
    let ghost b = bytes@.take(n as int);
    assert(spec_fmt_mac(bytes@) == spec_fmt_mac(b)) by {
        if bytes@.len() <= 6 {
            assert(b =~= bytes@);
        }
    }
    let mut s = String::new();
    let mut i: usize = 0;
    while i < n
        invariant
            i <= n <= 6,
            n <= bytes@.len(),
            b == bytes@.take(n as int),
            s@ == spec_fmt_mac(b.take(i as int)),
        decreases n - i,
    {
        if i > 0 {
            push_char(&mut s, ':');
        }
        push_hex2(&mut s, bytes[i]);
        proof {
            assert(b.take(i + 1).drop_last() =~= b.take(i as int));
            if i == 0 {
                assert(b.take(0) =~= Seq::<u8>::empty());
            }
        }
        i = i + 1;
    }
    assert(b.take(n as int) =~= b);
    s
}

/// The bytes a MAC text denotes: exactly six pieces separated by `:` or `-`,
/// each (after trimming whitespace) a hex byte.
pub open spec fn spec_parse_mac(s: Seq<char>) -> Option<Seq<u8>> {
    let parts = spec_split(s, seq![':', '-']);
    if parts.len() == 6 && (forall|i: int| 0 <= i < 6 ==> (#[trigger] spec_hex_u8(spec_trim(parts[i]))) is Some) {
        Some(Seq::new(6, |i: int| spec_hex_u8(spec_trim(parts[i]))->0))
    } else {
        None
    }
}

/// Parse `aa:bb:cc:dd:ee:ff` (or `-` separated) into 6 bytes.
pub fn parse_mac(s: &str) -> (r: Result<[u8; 6], Error>)
    ensures
        match r {
            Ok(m) => spec_parse_mac(s@) == Some(m@),
            Err(e) => spec_parse_mac(s@) is None && e.kind == Kind::Malformed,
        },
{
    let cs = chars_of(s);
    let seps = [':', '-'];
    assert(seps@ =~= seq![':', '-']);
    let parts = split_chars(cs.as_slice(), seps.as_slice());
    let ghost ps = spec_split(s@, seq![':', '-']);
    if parts.len() != 6 {
        return Err(Error::malformed("mac: need six octets"));
    }
    let mut out: Vec<u8> = Vec::new();
    let mut i: usize = 0;
    while i < 6
        invariant
            i <= 6,
            parts@.len() == 6,
            views(parts@) == ps,
            ps == spec_split(s@, seq![':', '-']),
            out@.len() == i,
            forall|j: int| 0 <= j < i ==> spec_hex_u8(spec_trim(ps[j])) == Some(#[trigger] out@[j]),
        decreases 6 - i,
    {
        assert(views(parts@)[i as int] == parts@[i as int]@);
        let t = trim(parts[i].as_slice());
        match parse_hex_u8(t.as_slice()) {
            Some(v) => {
                let ghost before = out@;
                out.push(v);
                assert forall|j: int| 0 <= j < i + 1 implies spec_hex_u8(spec_trim(ps[j])) == Some(
                    #[trigger] out@[j],
                ) by {
                    if j < i {
                        assert(out@[j] == before[j]);
                    }
                }
            },
            None => {
                assert(spec_hex_u8(spec_trim(ps[i as int])) is None);
                return Err(Error::malformed("mac: bad octet"));
            },
        }
        i = i + 1;
    }
    let m = [out[0], out[1], out[2], out[3], out[4], out[5]];
    proof {
        assert(forall|j: int| 0 <= j < 6 ==> (#[trigger] spec_hex_u8(spec_trim(ps[j]))) is Some);
        assert(m@ =~= Seq::new(6, |j: int| spec_hex_u8(spec_trim(ps[j]))->0));
    }
    Ok(m)
}

/// Whether the address is locally administered (U/L bit set).
pub fn is_local(bytes: &[u8]) -> (b: bool)
    ensures
        b == (bytes@.len() > 0 && bytes@[0] & 2 != 0),
{
    bytes.len() > 0 && (bytes[0] & 0x02) != 0
}

/// Whether the address is a group/multicast address (I/G bit set).
pub fn is_multicast(bytes: &[u8]) -> (b: bool)
    ensures
        b == (bytes@.len() > 0 && bytes@[0] & 1 != 0),
{
    bytes.len() > 0 && (bytes[0] & 0x01) != 0
}

} // verus!
