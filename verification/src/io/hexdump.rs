//! Classic `hexdump -C`-style rendering for debugging wire data.

use vstd::prelude::*;

use crate::text::{hex2, hex_str, push_char, push_hex, push_hex2, push_str};

verus! {

/// Lowercase hex of `n`, zero-padded to at least eight digits.
pub open spec fn hex8(n: nat) -> Seq<char> {
    let h = hex_str(n);
    if h.len() >= 8 { h } else { Seq::new((8 - h.len()) as nat, |i: int| '0') + h }
}

/// Column `i` of the hex area for a row holding `chunk`: an extra space
/// before column 8, then the byte and a space, or three spaces past the end.
pub open spec fn hex_cell(chunk: Seq<u8>, i: int) -> Seq<char> {
    (if i == 8 { seq![' '] } else { Seq::<char>::empty() }) + if i < chunk.len() {
        hex2(chunk[i]) + seq![' ']
    } else {
        seq![' ', ' ', ' ']
    }
}

pub open spec fn hex_cells(chunk: Seq<u8>, n: int) -> Seq<char>
    decreases n,
{
    if n <= 0 {
        Seq::empty()
    } else {
        hex_cells(chunk, n - 1) + hex_cell(chunk, n - 1)
    }
}

/// A byte as shown in the text column: printable ASCII as itself, anything
/// else as a dot.
pub open spec fn shown(b: u8) -> char {
    if 0x20 <= b < 0x7f { b as char } else { '.' }
}

/// One rendered row for `chunk` at offset `off`.
pub open spec fn dump_row(chunk: Seq<u8>, off: nat) -> Seq<char> {
    hex8(off) + seq![' ', ' '] + hex_cells(chunk, 16) + seq![' ', '|'] + chunk.map_values(|b: u8| shown(b))
        + seq!['|', '\n']
}

/// Row `k` of `data`: its next (up to) 16 bytes.
pub open spec fn chunk_at(data: Seq<u8>, k: int) -> Seq<u8> {
    data.subrange(16 * k, if 16 * k + 16 <= data.len() { 16 * k + 16 } else { data.len() as int })
}

pub open spec fn spec_row_count(len: nat) -> nat {
    ((len + 15) / 16) as nat
}

/// The first `rows` rows of the dump of `data` with offsets from `base`.
pub open spec fn dump_rows(data: Seq<u8>, base: nat, rows: int) -> Seq<char>
    decreases rows,
{
    if rows <= 0 {
        Seq::empty()
    } else {
        dump_rows(data, base, rows - 1) + dump_row(chunk_at(data, rows - 1), (base + 16 * (rows - 1)) as nat)
    }
}

/// The whole dump.
pub open spec fn spec_dump(data: Seq<u8>, base: nat) -> Seq<char> {
    dump_rows(data, base, spec_row_count(data.len()) as int)
}

/// Render `data` as offset / hex / ASCII columns, 16 bytes per row.
pub fn dump(data: &[u8]) -> (s: String)
    ensures
        s@ == spec_dump(data@, 0),
{
    let n = data.len();
    assert(0 + data@.len() <= usize::MAX);
    dump_from(data, 0)
}

proof fn lemma_hex_len_step(v: nat)
    requires
        v >= 16,
    ensures
        hex_str(v).len() == hex_str(v / 16).len() + 1,
{
}

fn push_hex8(s: &mut String, v: u64)
    ensures
        final(s)@ == old(s)@ + hex8(v as nat),
{
    let mut digits: usize = 1;
    let mut d = v;
    proof {
        lemma_hex_len_u64(v);
    }
    while d >= 16
        invariant
            1 <= digits,
            hex_str(v as nat).len() <= 16,
            digits + hex_str(d as nat).len() - 1 == hex_str(v as nat).len(),
            hex_str(d as nat).len() >= 1,
        decreases d,
    {
        proof {
            lemma_hex_len_step(d as nat);
            lemma_hex_len_ge(d as nat);
        }
        d = d / 16;
        digits = digits + 1;
    }
    let ghost h = hex_str(v as nat);
    proof {
        assert(hex_str(d as nat).len() == 1);
    }
    let ghost s0 = s@;
    let mut k: usize = digits;
    while k < 8
        invariant
            digits <= k <= 8 || (k == digits && digits > 8),
            s@ == s0 + Seq::new((k - digits) as nat, |i: int| '0'),
        decreases 8 - k,
    {
        push_char(s, '0');
        k = k + 1;
        assert(s@ =~= s0 + Seq::new((k - digits) as nat, |i: int| '0'));
    }
    push_hex(s, v);
    proof {
        if h.len() >= 8 {
            assert(Seq::new((k - digits) as nat, |i: int| '0') =~= Seq::<char>::empty());
            assert(s@ =~= s0 + h);
        } else {
            assert(s@ =~= s0 + (Seq::new((8 - h.len()) as nat, |i: int| '0') + h));
        }
    }
}

pub open spec fn pow16(k: nat) -> nat
    decreases k,
{
    if k == 0 { 1 } else { 16 * pow16((k - 1) as nat) }
}

proof fn lemma_hex_len_pow(v: nat, k: nat)
    requires
        k >= 1,
        v < pow16(k),
    ensures
        hex_str(v).len() <= k,
    decreases k,
{
    if v >= 16 {
        assert(k >= 2) by {
            if k == 1 {
                assert(pow16(1) == 16 * pow16(0));
            }
        }
        assert(v / 16 < pow16((k - 1) as nat)) by {
            assert(pow16(k) == 16 * pow16((k - 1) as nat));
        }
        lemma_hex_len_pow(v / 16, (k - 1) as nat);
    }
}

proof fn lemma_hex_len_u64(v: u64)
    ensures
        hex_str(v as nat).len() <= 16,
{
    reveal_with_fuel(pow16, 17);
    assert(pow16(16) == 0x1_0000_0000_0000_0000);
    lemma_hex_len_pow(v as nat, 16);
}

proof fn lemma_hex_len_ge(v: nat)
    ensures
        hex_str(v).len() >= 1,
        v >= 16 ==> hex_str(v).len() >= 2,
    decreases v,
{
    if v >= 16 {
        lemma_hex_len_ge(v / 16);
    }
}

fn shown_exec(b: u8) -> (c: char)
    ensures
        c == shown(b),
{
    if 0x20 <= b && b < 0x7f {
        b as char
    } else {
        '.'
    }
}

/// Append the row for `chunk` (at most 16 bytes) at offset `off`.
fn push_row(out: &mut String, chunk: &[u8], off: u64)
    requires
        chunk@.len() <= 16,
    ensures
        final(out)@ == old(out)@ + dump_row(chunk@, off as nat),
{
    let ghost c = chunk@;
    push_hex8(out, off);
    push_str(out, "  ");
    let ghost after_off = out@;
    let mut i: usize = 0;
    while i < 16
        invariant
            i <= 16,
            chunk@ == c,
            out@ == after_off + hex_cells(c, i as int),
        decreases 16 - i,
    {
        let ghost b4 = out@;
        if i == 8 {
            push_char(out, ' ');
        }
        if i < chunk.len() {
            push_hex2(out, chunk[i]);
            push_char(out, ' ');
        } else {
            push_str(out, "   ");
        }
        proof {
            reveal_strlit("   ");
            assert(out@ =~= b4 + hex_cell(c, i as int));
        }
        i = i + 1;
    }
    push_str(out, " |");
    let ghost after_hex = out@;
    let mut j: usize = 0;
    while j < chunk.len()
        invariant
            j <= chunk@.len(),
            chunk@ == c,
            out@ == after_hex + c.take(j as int).map_values(|b: u8| shown(b)),
        decreases chunk@.len() - j,
    {
        push_char(out, shown_exec(chunk[j]));
        j = j + 1;
        assert(c.take(j as int).map_values(|b: u8| shown(b)) =~= c.take(j - 1).map_values(|b: u8| shown(b)).push(
            shown(c[j - 1]),
        ));
    }
    push_str(out, "|\n");
    proof {
        reveal_strlit("  ");
        reveal_strlit(" |");
        reveal_strlit("|\n");
        assert(c.take(c.len() as int) =~= c);
        assert(out@ =~= old(out)@ + dump_row(c, off as nat));
    }
}

/// Like [`dump`] but labels offsets starting at `base`.
pub fn dump_from(data: &[u8], base: usize) -> (s: String)
    requires
        data@.len() == 0 || base + 16 * ((data@.len() - 1) / 16) <= usize::MAX,
    ensures
        s@ == spec_dump(data@, base as nat),
{
    let mut out = String::new();
    let n = data.len();
    let rows = n / 16 + if n % 16 != 0 { 1 } else { 0 };
    assert(rows == spec_row_count(n as nat));
    let mut row: usize = 0;
    while row < rows
        invariant
            row <= rows,
            rows == spec_row_count(n as nat),
            n == data@.len(),
            n == 0 || base + 16 * ((n - 1) / 16) <= usize::MAX,
            out@ == dump_rows(data@, base as nat, row as int),
        decreases rows - row,
    {
        proof {
            assert(row * 16 <= 16 * ((n - 1) / 16)) by (nonlinear_arith)
                requires
                    row < rows,
                    rows == n / 16 + (if n % 16 != 0 { 1int } else { 0int }),
                    n > 0,
            ;
        }
        let start = row * 16;
        let end = if n - start >= 16 { start + 16 } else { n };
        let chunk = &data[start..end];
        let ghost c = chunk@;
        assert(c == chunk_at(data@, row as int));
        let off = (base + start) as u64;
        push_row(&mut out, chunk, off);
        row = row + 1;
    }
    out
}

/// Number of rows [`dump`] would produce.
pub fn row_count(len: usize) -> (n: usize)
    ensures
        n == spec_row_count(len as nat),
{
    len / 16 + if len % 16 != 0 { 1 } else { 0 }
}

} // verus!
