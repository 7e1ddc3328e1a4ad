//! IPv4 / IPv6 address helpers: dotted-quad and compressed-hex text forms.

use vstd::prelude::*;

use crate::error::{Error, Kind};
use crate::text::{
    chars_of, dec_str, hex_str, parse_dec, push_char, push_dec, push_hex, spec_dec, spec_split,
    split_chars, views, find_sep, lemma_find_sep, lemma_dec_roundtrip,
};

verus! {

/// Octet `k` (0 = most significant) of a big-endian IPv4 address.
pub open spec fn octet(addr: u32, k: int) -> int {
    if k == 0 {
        addr as int / 16777216
    } else if k == 1 {
        (addr as int / 65536) % 256
    } else if k == 2 {
        (addr as int / 256) % 256
    } else {
        addr as int % 256
    }
}

/// Dotted-quad text of an address.
pub open spec fn spec_fmt_ipv4(addr: u32) -> Seq<char> {
    dec_str(octet(addr, 0) as nat) + seq!['.'] + dec_str(octet(addr, 1) as nat) + seq!['.'] + dec_str(
        octet(addr, 2) as nat,
    ) + seq!['.'] + dec_str(octet(addr, 3) as nat)
}

/// Format a big-endian IPv4 address in dotted-quad notation.
pub fn fmt_ipv4(addr: u32) -> (s: String)
    ensures
        s@ == spec_fmt_ipv4(addr),
{
    let mut s = String::new();
    push_dec(&mut s, (addr / 16777216) as u64);
    push_char(&mut s, '.');
    push_dec(&mut s, ((addr / 65536) % 256) as u64);
    push_char(&mut s, '.');
    push_dec(&mut s, ((addr / 256) % 256) as u64);
    push_char(&mut s, '.');
    push_dec(&mut s, (addr % 256) as u64);
    assert(s@ =~= spec_fmt_ipv4(addr));
    s
}

/// The octet value of a dotted-quad piece, if it is a valid one.
pub open spec fn octet_of(part: Seq<char>) -> Option<int> {
    match spec_dec(part) {
        Some(v) => if v <= 255 { Some(v) } else { None },
        None => None,
    }
}

/// The address a dotted-quad text denotes: exactly four pieces separated by
/// `.`, each a decimal number (optionally `+`-signed) of at most 255.
pub open spec fn spec_parse_ipv4(s: Seq<char>) -> Option<u32> {
    let parts = spec_split(s, seq!['.']);
    if parts.len() == 4 && octet_of(parts[0]) is Some && octet_of(parts[1]) is Some && octet_of(parts[2]) is Some
        && octet_of(parts[3]) is Some {
        Some(
            (octet_of(parts[0])->0 * 16777216 + octet_of(parts[1])->0 * 65536 + octet_of(parts[2])->0 * 256
                + octet_of(parts[3])->0) as u32,
        )
    } else {
        None
    }
}

/// Parse dotted-quad characters.
pub fn parse_ipv4_chars(cs: &[char]) -> (r: Result<u32, Error>)
    ensures
        match r {
            Ok(a) => spec_parse_ipv4(cs@) == Some(a),
            Err(e) => spec_parse_ipv4(cs@) is None && e.kind == Kind::Malformed,
        },
{
    let dot = ['.'];
    assert(dot@ =~= seq!['.']);
    let parts = split_chars(cs, dot.as_slice());
    let ghost ps = spec_split(cs@, seq!['.']);
    if parts.len() != 4 {
        return Err(Error::malformed("ipv4: need four octets"));
    }
    let mut vals: Vec<u64> = Vec::new();
    let mut i: usize = 0;
    while i < 4
        invariant
            i <= 4,
            parts@.len() == 4,
            views(parts@) == ps,
            ps == spec_split(cs@, seq!['.']),
            vals@.len() == i,
            forall|j: int| 0 <= j < i ==> octet_of(ps[j]) == Some(#[trigger] vals@[j] as int),
        decreases 4 - i,
    {
        assert(views(parts@)[i as int] == parts@[i as int]@);
        match parse_dec(parts[i].as_slice(), 255) {
            Some(v) => {
                let ghost old_vals = vals@;
                vals.push(v);
                assert(octet_of(ps[i as int]) == Some(v as int));
                assert forall|j: int| 0 <= j < i + 1 implies octet_of(ps[j]) == Some(#[trigger] vals@[j] as int) by {
                    if j < i {
                        assert(vals@[j] == old_vals[j]);
                    }
                }
            },
            None => {
                return Err(Error::malformed("ipv4: bad octet"));
            },
        }
        i = i + 1;
    }
    let a = (vals[0] as u32) * 16777216 + (vals[1] as u32) * 65536 + (vals[2] as u32) * 256 + (vals[3] as u32);
    assert(octet_of(ps[0]) == Some(vals@[0] as int));
    assert(octet_of(ps[1]) == Some(vals@[1] as int));
    assert(octet_of(ps[2]) == Some(vals@[2] as int));
    assert(octet_of(ps[3]) == Some(vals@[3] as int));
    Ok(a)
}

/// Parse a dotted-quad IPv4 address into a big-endian `u32`.
pub fn parse_ipv4(s: &str) -> (r: Result<u32, Error>)
    ensures
        match r {
            Ok(a) => spec_parse_ipv4(s@) == Some(a),
            Err(e) => spec_parse_ipv4(s@) is None && e.kind == Kind::Malformed,
        },
{
    let cs = chars_of(s);
    parse_ipv4_chars(cs.as_slice())
}

/// Splitting `x + [sep] + rest` where `x` holds no separator yields `x`
/// followed by the pieces of `rest`.
pub proof fn lemma_split_cons(x: Seq<char>, sep: char, rest: Seq<char>)
    requires
        forall|i: int| 0 <= i < x.len() ==> x[i] != sep,
    ensures
        spec_split(x + seq![sep] + rest, seq![sep]) == seq![x] + spec_split(rest, seq![sep]),
{
    let s = x + seq![sep] + rest;
    lemma_find_sep(s, seq![sep], 0);
    let k = find_sep(s, seq![sep], 0);
    if k < x.len() {
        assert(s[k] == x[k]);
        assert(seq![sep].contains(s[k]));
        assert(seq![sep][0] == sep);
    }
    assert(s[x.len() as int] == sep);
    assert(seq![sep].contains(s[x.len() as int]));
    assert(k == x.len());
    assert(s.take(k) =~= x);
    assert(s.skip(k + 1) =~= rest);
}

/// Splitting text with no separator yields it whole.
pub proof fn lemma_split_none(x: Seq<char>, sep: char)
    requires
        forall|i: int| 0 <= i < x.len() ==> x[i] != sep,
    ensures
        spec_split(x, seq![sep]) == seq![x],
{
    lemma_find_sep(x, seq![sep], 0);
    let k = find_sep(x, seq![sep], 0);
    if k < x.len() {
        assert(seq![sep].contains(x[k]));
        assert(seq![sep][0] == sep);
    }
}

pub proof fn lemma_dec_no_sep(n: nat, sep: char)
    requires
        !('0' <= sep <= '9'),
    ensures
        forall|i: int| 0 <= i < dec_str(n).len() ==> dec_str(n)[i] != sep,
{
    lemma_dec_roundtrip(n);
}

/// Formatting an address and parsing the text gives the address back.
pub proof fn lemma_ipv4_roundtrip(addr: u32)
    ensures
        spec_parse_ipv4(spec_fmt_ipv4(addr)) == Some(addr),
{
    let d0 = dec_str(octet(addr, 0) as nat);
    let d1 = dec_str(octet(addr, 1) as nat);
    let d2 = dec_str(octet(addr, 2) as nat);
    let d3 = dec_str(octet(addr, 3) as nat);
    lemma_dec_no_sep(octet(addr, 0) as nat, '.');
    lemma_dec_no_sep(octet(addr, 1) as nat, '.');
    lemma_dec_no_sep(octet(addr, 2) as nat, '.');
    lemma_dec_no_sep(octet(addr, 3) as nat, '.');
    lemma_dec_roundtrip(octet(addr, 0) as nat);
    lemma_dec_roundtrip(octet(addr, 1) as nat);
    lemma_dec_roundtrip(octet(addr, 2) as nat);
    lemma_dec_roundtrip(octet(addr, 3) as nat);
    let s = spec_fmt_ipv4(addr);
    assert(s =~= d0 + seq!['.'] + (d1 + seq!['.'] + (d2 + seq!['.'] + d3)));
    lemma_split_cons(d0, '.', d1 + seq!['.'] + (d2 + seq!['.'] + d3));
    lemma_split_cons(d1, '.', d2 + seq!['.'] + d3);
    lemma_split_cons(d2, '.', d3);
    lemma_split_none(d3, '.');
    let parts = spec_split(s, seq!['.']);
    assert(parts =~= seq![d0, d1, d2, d3]);
}

/// The 16-bit groups of an IPv6 address.
pub open spec fn group(b: Seq<u8>, i: int) -> int {
    b[2 * i] * 256 + b[2 * i + 1]
}

/// Length of the run of zero groups starting at `i`.
pub open spec fn zero_run(g: Seq<u16>, i: int) -> int
    decreases 8 - i,
{
    if 0 <= i < 8 && i < g.len() && g[i] == 0 {
        1 + zero_run(g, i + 1)
    } else {
        0
    }
}

/// The first longest zero run at or after `i`: its start and length.
pub open spec fn best_run(g: Seq<u16>, i: int) -> (int, int)
    decreases 8 - i,
{
    if i >= 8 || i < 0 {
        (0, 0)
    } else {
        let rest = best_run(g, i + 1);
        if zero_run(g, i) >= rest.1 {
            (i, zero_run(g, i))
        } else {
            rest
        }
    }
}

/// Groups in lowercase hex joined by `:`.
pub open spec fn join_hex(g: Seq<u16>) -> Seq<char>
    decreases g.len(),
{
    if g.len() == 0 {
        Seq::empty()
    } else if g.len() == 1 {
        hex_str(g[0] as nat)
    } else {
        join_hex(g.drop_last()) + seq![':'] + hex_str(g.last() as nat)
    }
}

/// RFC 5952-style text: the first longest run of two or more zero groups is
/// replaced by `::`.
pub open spec fn spec_fmt_ipv6(g: Seq<u16>) -> Seq<char> {
    let (bs, bl) = best_run(g, 0);
    if bl < 2 {
        join_hex(g)
    } else {
        join_hex(g.take(bs)) + seq![':', ':'] + join_hex(g.skip(bs + bl))
    }
}

fn push_join_hex(s: &mut String, g: &[u16], a: usize, b: usize)
    requires
        a <= b <= g@.len(),
    ensures
        final(s)@ == old(s)@ + join_hex(g@.subrange(a as int, b as int)),
{
    let mut i = a;
    while i < b
        invariant
            a <= i <= b <= g@.len(),
            s@ == old(s)@ + join_hex(g@.subrange(a as int, i as int)),
        decreases b - i,
    {
        if i > a {
            push_char(s, ':');
        }
        push_hex(s, g[i] as u64);
        proof {
            let t = g@.subrange(a as int, i + 1);
            assert(t.drop_last() =~= g@.subrange(a as int, i as int));
            if i == a {
                assert(g@.subrange(a as int, i as int) =~= Seq::<u16>::empty());
            }
        }
        i = i + 1;
    }
}

/// Format 16 bytes as an IPv6 address with `::` zero-run compression.
pub fn fmt_ipv6(bytes: &[u8; 16]) -> (s: String)
    ensures
        exists|g: Seq<u16>|
            g.len() == 8 && (forall|i: int| 0 <= i < 8 ==> #[trigger] g[i] == group(bytes@, i)) && s@
                == spec_fmt_ipv6(g),
{
    let mut groups: Vec<u16> = Vec::new();
    let mut i: usize = 0;
    while i < 8
        invariant
            i <= 8,
            groups@.len() == i,
            forall|j: int| 0 <= j < i ==> #[trigger] groups@[j] == group(bytes@, j),
        decreases 8 - i,
    {
        groups.push((bytes[2 * i] as u16) * 256 + (bytes[2 * i + 1] as u16));
        i = i + 1;
    }
    let ghost g = groups@;
    let mut best_start: usize = 0;
    let mut best_len: usize = 0;
    let mut k: usize = 8;
    while k > 0
        invariant
            k <= 8,
            groups@ == g,
            g.len() == 8,
            (best_start as int, best_len as int) == best_run(g, k as int),
            best_len <= 8,
        decreases k,
    {
        k = k - 1;
        let mut run: usize = 0;
        while k + run < 8 && groups[k + run] == 0
            invariant
                k + run <= 8,
                groups@ == g,
                g.len() == 8,
                zero_run(g, k as int) == run + zero_run(g, (k + run) as int),
            decreases 8 - run,
        {
            run = run + 1;
        }
        if run >= best_len {
            best_start = k;
            best_len = run;
        }
    }
    let mut s = String::new();
    if best_len < 2 {
        push_join_hex(&mut s, groups.as_slice(), 0, 8);
        assert(g.subrange(0, 8) =~= g);
    } else {
        proof { lemma_best_run_in_range(g, 0); }
        push_join_hex(&mut s, groups.as_slice(), 0, best_start);
        push_char(&mut s, ':');
        push_char(&mut s, ':');
        push_join_hex(&mut s, groups.as_slice(), best_start + best_len, 8);
        assert(g.subrange(0, best_start as int) =~= g.take(best_start as int));
        assert(g.subrange((best_start + best_len) as int, 8) =~= g.skip((best_start + best_len) as int));
    }
    assert(s@ =~= spec_fmt_ipv6(g));
    s
}

proof fn lemma_zero_run_bound(g: Seq<u16>, i: int)
    requires
        0 <= i <= 8,
    ensures
        0 <= zero_run(g, i) <= 8 - i,
    decreases 8 - i,
{
    if i < 8 {
        lemma_zero_run_bound(g, i + 1);
    }
}

proof fn lemma_best_run_in_range(g: Seq<u16>, i: int)
    requires
        0 <= i <= 8,
    ensures
        best_run(g, i).0 >= 0,
        best_run(g, i).1 >= 0,
        best_run(g, i).0 + best_run(g, i).1 <= 8,
    decreases 8 - i,
{
    if i < 8 {
        lemma_best_run_in_range(g, i + 1);
        lemma_zero_run_bound(g, i);
    }
}

/// The well-known transport protocol numbers we name in output.
pub open spec fn spec_proto_name(proto: u8) -> &'static str {
    if proto == 1 {
        "icmp"
    } else if proto == 6 {
        "tcp"
    } else if proto == 17 {
        "udp"
    } else if proto == 47 {
        "gre"
    } else if proto == 50 {
        "esp"
    } else if proto == 58 {
        "icm6"
    } else if proto == 132 {
        "sctp"
    } else {
        "?"
    }
}

pub fn proto_name(proto: u8) -> (s: &'static str)
    ensures
        s == spec_proto_name(proto),
{
    match proto {
        1 => "icmp",
        6 => "tcp",
        17 => "udp",
        47 => "gre",
        50 => "esp",
        58 => "icm6",
        132 => "sctp",
        _ => "?",
    }
}

} // verus!
