//! Human-readable report rendering: a query result as an aligned plain-text
//! table.

use vstd::prelude::*;

use crate::flow::FlowRecord;
use crate::net::addr::{fmt_ipv4, spec_fmt_ipv4};
use crate::query::agg::{spec_agg, spec_label};
use crate::query::ResultSet;
use crate::text::{chars_of, dec_digits, dec_str, push_char, push_chars, push_dec, push_str};

verus! {

/// `s` cut or space-filled to `width` characters, filled on the left when
/// right-aligned.
pub open spec fn spec_pad(s: Seq<char>, width: nat, right: bool) -> Seq<char> {
    if s.len() >= width {
        s.take(width as int)
    } else if right {
        Seq::new((width - s.len()) as nat, |i: int| ' ') + s
    } else {
        s + Seq::new((width - s.len()) as nat, |i: int| ' ')
    }
}

fn push_pad(out: &mut String, s: &[char], width: usize, right: bool)
    ensures
        final(out)@ == old(out)@ + spec_pad(s@, width as nat, right),
{
    if s.len() >= width {
        push_chars(out, &s[0..width]);
        assert(s@.subrange(0, width as int) =~= s@.take(width as int));
        return;
    }
    let fill = width - s.len();
    let ghost o = out@;
    if right {
        push_spaces(out, fill);
        push_chars(out, s);
        assert(out@ =~= o + spec_pad(s@, width as nat, right));
    } else {
        push_chars(out, s);
        push_spaces(out, fill);
        assert(out@ =~= o + spec_pad(s@, width as nat, right));
    }
}

fn push_spaces(out: &mut String, n: usize)
    ensures
        final(out)@ == old(out)@ + Seq::new(n as nat, |i: int| ' '),
{
    let mut i: usize = 0;
    while i < n
        invariant
            i <= n,
            out@ == old(out)@ + Seq::new(i as nat, |k: int| ' '),
        decreases n - i,
    {
        push_char(out, ' ');
        i = i + 1;
        assert(out@ =~= old(out)@ + Seq::new(i as nat, |k: int| ' '));
    }
}

fn push_dashes(out: &mut String, n: usize)
    ensures
        final(out)@ == old(out)@ + Seq::new(n as nat, |i: int| '-'),
{
    let mut i: usize = 0;
    while i < n
        invariant
            i <= n,
            out@ == old(out)@ + Seq::new(i as nat, |k: int| '-'),
        decreases n - i,
    {
        push_char(out, '-');
        i = i + 1;
        assert(out@ =~= old(out)@ + Seq::new(i as nat, |k: int| '-'));
    }
}

pub open spec fn dashes(n: nat) -> Seq<char> {
    Seq::new(n, |i: int| '-')
}

/// The two header lines: column titles, then dashes under each column.
pub open spec fn header_text() -> Seq<char> {
    spec_pad("flow"@, 10, true) + "  "@ + spec_pad("src"@, 15, false) + "  "@ + spec_pad("dst"@, 15, false) + "  "@
        + spec_pad("octets"@, 12, true) + "  "@ + spec_pad("packets"@, 10, true) + "  "@ + spec_pad(
        "records"@,
        8,
        true,
    ) + "\n"@ + dashes(10) + "  "@ + dashes(15) + "  "@ + dashes(15) + "  "@ + dashes(12) + "  "@ + dashes(10)
        + "  "@ + dashes(8) + "\n"@
}

/// One table row.
pub open spec fn row_text(r: FlowRecord) -> Seq<char> {
    spec_pad(dec_str(r.key.flow_id as nat), 10, true) + "  "@ + spec_pad(spec_fmt_ipv4(r.key.src), 15, false) + "  "@
        + spec_pad(spec_fmt_ipv4(r.key.dst), 15, false) + "  "@ + spec_pad(dec_str(r.octets as nat), 12, true)
        + "  "@ + spec_pad(dec_str(r.packets as nat), 10, true) + "  "@ + spec_pad(dec_str(r.records as nat), 8, true)
        + "\n"@
}

pub open spec fn rows_text(rs: Seq<FlowRecord>) -> Seq<char>
    decreases rs.len(),
{
    if rs.len() == 0 {
        Seq::empty()
    } else {
        rows_text(rs.drop_last()) + row_text(rs.last())
    }
}

/// The table: header, one line per row, a blank line, the counts line, then
/// one line per aggregate.
pub open spec fn spec_render_flows(rs: ResultSet) -> Seq<char> {
    header_text() + rows_text(rs.rows@) + "\n"@ + dec_str(rs.rows@.len()) + " flow(s) shown of "@ + dec_str(
        rs.total_matched as nat,
    ) + " matched ("@ + dec_str(rs.scanned as nat) + " scanned)\n"@ + aggs_text(rs.aggregates@)
}

pub open spec fn aggs_text(aggs: Seq<crate::query::Aggregate>) -> Seq<char>
    decreases aggs.len(),
{
    if aggs.len() == 0 {
        Seq::empty()
    } else {
        aggs_text(aggs.drop_last()) + "  "@ + spec_label(aggs.last().spec_kind())@ + " = "@ + dec_str(
            spec_agg(aggs.last().spec_kind(), aggs.last().spec_observed()) as nat,
        ) + "\n"@
    }
}

fn push_header(out: &mut String)
    ensures
        final(out)@ == old(out)@ + header_text(),
{
    let ghost o = out@;
    push_pad(out, chars_of("flow").as_slice(), 10, true);
    push_str(out, "  ");
    push_pad(out, chars_of("src").as_slice(), 15, false);
    push_str(out, "  ");
    push_pad(out, chars_of("dst").as_slice(), 15, false);
    push_str(out, "  ");
    push_pad(out, chars_of("octets").as_slice(), 12, true);
    push_str(out, "  ");
    push_pad(out, chars_of("packets").as_slice(), 10, true);
    push_str(out, "  ");
    push_pad(out, chars_of("records").as_slice(), 8, true);
    push_str(out, "\n");
    push_dashes(out, 10);
    push_str(out, "  ");
    push_dashes(out, 15);
    push_str(out, "  ");
    push_dashes(out, 15);
    push_str(out, "  ");
    push_dashes(out, 12);
    push_str(out, "  ");
    push_dashes(out, 10);
    push_str(out, "  ");
    push_dashes(out, 8);
    push_str(out, "\n");
    assert(out@ =~= o + header_text());
}

fn push_row(out: &mut String, r: &FlowRecord)
    ensures
        final(out)@ == old(out)@ + row_text(*r),
{
    let ghost o = out@;
    push_pad(out, dec_digits(r.key.flow_id as u64).as_slice(), 10, true);
    push_str(out, "  ");
    let src = fmt_ipv4(r.key.src);
    push_pad(out, chars_of(src.as_str()).as_slice(), 15, false);
    push_str(out, "  ");
    let dst = fmt_ipv4(r.key.dst);
    push_pad(out, chars_of(dst.as_str()).as_slice(), 15, false);
    push_str(out, "  ");
    push_pad(out, dec_digits(r.octets).as_slice(), 12, true);
    push_str(out, "  ");
    push_pad(out, dec_digits(r.packets).as_slice(), 10, true);
    push_str(out, "  ");
    push_pad(out, dec_digits(r.records).as_slice(), 8, true);
    push_str(out, "\n");
    assert(out@ =~= o + row_text(*r));
}

/// Render a flow result set as a table.
pub fn render_flows(rs: &ResultSet) -> (s: String)
    requires
        forall|i: int| 0 <= i < rs.aggregates@.len() ==> (#[trigger] rs.aggregates@[i]).wf(),
    ensures
        s@ == spec_render_flows(*rs),
{
    let mut out = String::new();
    push_header(&mut out);
    let mut i: usize = 0;
    while i < rs.rows.len()
        invariant
            i <= rs.rows@.len(),
            out@ == header_text() + rows_text(rs.rows@.take(i as int)),
        decreases rs.rows@.len() - i,
    {
        push_row(&mut out, &rs.rows[i]);
        proof {
            assert(rs.rows@.take(i + 1).drop_last() =~= rs.rows@.take(i as int));
            assert(rs.rows@.take(i + 1).last() == rs.rows@[i as int]);
        }
        i = i + 1;
    }
    assert(rs.rows@.take(rs.rows@.len() as int) =~= rs.rows@);
    push_str(&mut out, "\n");
    push_dec(&mut out, rs.rows.len() as u64);
    push_str(&mut out, " flow(s) shown of ");
    push_dec(&mut out, rs.total_matched as u64);
    push_str(&mut out, " matched (");
    push_dec(&mut out, rs.scanned as u64);
    push_str(&mut out, " scanned)\n");
    let ghost body = out@;
    let mut j: usize = 0;
    while j < rs.aggregates.len()
        invariant
            j <= rs.aggregates@.len(),
            forall|k: int| 0 <= k < rs.aggregates@.len() ==> (#[trigger] rs.aggregates@[k]).wf(),
            out@ == body + aggs_text(rs.aggregates@.take(j as int)),
        decreases rs.aggregates@.len() - j,
    {
        let a = &rs.aggregates[j];
        assert(rs.aggregates@[j as int].wf());
        push_str(&mut out, "  ");
        push_str(&mut out, a.label());
        push_str(&mut out, " = ");
        push_dec(&mut out, a.value());
        push_str(&mut out, "\n");
        proof {
            assert(rs.aggregates@.take(j + 1).drop_last() =~= rs.aggregates@.take(j as int));
            assert(rs.aggregates@.take(j + 1).last() == rs.aggregates@[j as int]);
        }
        j = j + 1;
    }
    assert(rs.aggregates@.take(rs.aggregates@.len() as int) =~= rs.aggregates@);
    assert(out@ =~= spec_render_flows(*rs));
    out
}

} // verus!
