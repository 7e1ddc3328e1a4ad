//! Port-range sets for filter predicates like `port in 1024-2048,8080`.

use vstd::prelude::*;

use crate::error::{Error, Kind};
use crate::text::{chars_of, parse_dec, spec_dec, spec_split, spec_split_once, spec_trim, split_chars, split_once, trim, views};

verus! {

#[derive(Debug, Clone, Copy, PartialEq, Eq, Structural)]
pub struct PortRange {
    pub lo: u16,
    pub hi: u16,
}

pub open spec fn spec_range(lo: u16, hi: u16) -> PortRange {
    if lo <= hi {
        PortRange { lo, hi }
    } else {
        PortRange { lo: hi, hi: lo }
    }
}

pub open spec fn in_range(r: PortRange, p: int) -> bool {
    r.lo <= p <= r.hi
}

impl PortRange {
    pub fn single(p: u16) -> (r: PortRange)
        ensures
            r == (PortRange { lo: p, hi: p }),
    {
        PortRange { lo: p, hi: p }
    }

    /// The range between two ports, in either order.
    pub fn new(lo: u16, hi: u16) -> (r: PortRange)
        ensures
            r == spec_range(lo, hi),
    {
        if lo <= hi {
            PortRange { lo, hi }
        } else {
            PortRange { lo: hi, hi: lo }
        }
    }

    pub fn contains(&self, p: u16) -> (b: bool)
        ensures
            b == in_range(*self, p as int),
    {
        p >= self.lo && p <= self.hi
    }

    pub fn overlaps(&self, other: &PortRange) -> (b: bool)
        ensures
            b == (self.lo <= other.hi && other.lo <= self.hi),
    {
        self.lo <= other.hi && other.lo <= self.hi
    }

    /// Number of ports in the range.
    pub fn width(&self) -> (w: u32)
        requires
            self.lo <= self.hi,
        ensures
            w == self.hi - self.lo + 1,
    {
        (self.hi as u32) - (self.lo as u32) + 1
    }
}

/// Sorted, each range non-empty, and consecutive ranges neither overlapping
/// nor adjacent: the unique canonical form of a set of ports.
pub open spec fn normalized(rs: Seq<PortRange>) -> bool {
    &&& forall|i: int| 0 <= i < rs.len() ==> (#[trigger] rs[i]).lo <= rs[i].hi
    &&& forall|i: int, j: int| 0 <= i < j < rs.len() ==> (#[trigger] rs[i]).hi + 1 < (#[trigger] rs[j]).lo
}

pub open spec fn covers(rs: Seq<PortRange>, p: int) -> bool {
    exists|i: int| 0 <= i < rs.len() && #[trigger] in_range(rs[i], p)
}

pub open spec fn total_width(rs: Seq<PortRange>) -> int
    decreases rs.len(),
{
    if rs.len() == 0 {
        0
    } else {
        total_width(rs.drop_last()) + (rs.last().hi - rs.last().lo + 1)
    }
}

proof fn lemma_total_width_bound(rs: Seq<PortRange>)
    requires
        normalized(rs),
    ensures
        rs.len() == 0 ==> total_width(rs) == 0,
        rs.len() > 0 ==> total_width(rs) <= rs.last().hi + 1,
        total_width(rs) >= 0,
    decreases rs.len(),
{
    if rs.len() > 0 {
        let d = rs.drop_last();
        assert forall|i: int, j: int| 0 <= i < j < d.len() implies (#[trigger] d[i]).hi + 1 < (#[trigger] d[j]).lo by {
            assert(d[i] == rs[i] && d[j] == rs[j]);
        }
        assert forall|i: int| 0 <= i < d.len() implies (#[trigger] d[i]).lo <= d[i].hi by {
            assert(d[i] == rs[i]);
        }
        lemma_total_width_bound(d);
        if d.len() > 0 {
            assert(d.last() == rs[rs.len() - 2]);
        }
    }
}

/// Canonical ranges are the maximal runs of the ports they cover: every port
/// of a range is covered, and the ports just below and just above it are not.
pub proof fn lemma_ranges_are_runs(rs: Seq<PortRange>)
    requires
        normalized(rs),
    ensures
        forall|i: int, p: int| 0 <= i < rs.len() && #[trigger] in_range(rs[i], p) ==> covers(rs, p),
        forall|i: int| 0 <= i < rs.len() ==> !covers(rs, #[trigger] rs[i].lo - 1),
        forall|i: int| 0 <= i < rs.len() ==> !covers(rs, #[trigger] rs[i].hi + 1),
{
    assert forall|i: int| 0 <= i < rs.len() implies !covers(rs, #[trigger] rs[i].lo - 1) by {
        if covers(rs, rs[i].lo - 1) {
            let j = choose|j: int| 0 <= j < rs.len() && #[trigger] in_range(rs[j], rs[i].lo - 1);
            if j < i {
                assert(rs[j].hi + 1 < rs[i].lo);
            } else if j > i {
                assert(rs[i].hi + 1 < rs[j].lo);
            }
        }
    }
    assert forall|i: int| 0 <= i < rs.len() implies !covers(rs, #[trigger] rs[i].hi + 1) by {
        if covers(rs, rs[i].hi + 1) {
            let j = choose|j: int| 0 <= j < rs.len() && #[trigger] in_range(rs[j], rs[i].hi + 1);
            if j < i {
                assert(rs[j].hi + 1 < rs[i].lo);
            } else if j > i {
                assert(rs[i].hi + 1 < rs[j].lo);
            }
        }
    }
}

/// The ports that a list of ranges covers.
pub open spec fn covered_ports(rs: Seq<PortRange>) -> Set<int> {
    Set::new(|p: int| covers(rs, p))
}

/// Over canonical ranges, the summed width is the number of distinct ports
/// covered.
pub proof fn lemma_width_counts_ports(rs: Seq<PortRange>)
    requires
        normalized(rs),
    ensures
        covered_ports(rs).finite(),
        covered_ports(rs).len() == total_width(rs),
    decreases rs.len(),
{
    if rs.len() == 0 {
        assert(covered_ports(rs) =~= Set::<int>::empty());
    } else {
        let d = rs.drop_last();
        let l = rs.last();
        let n = rs.len() - 1;
        assert forall|i: int, j: int| 0 <= i < j < d.len() implies (#[trigger] d[i]).hi + 1 < (#[trigger] d[j]).lo by {
            assert(d[i] == rs[i] && d[j] == rs[j]);
        }
        assert forall|i: int| 0 <= i < d.len() implies (#[trigger] d[i]).lo <= d[i].hi by {
            assert(d[i] == rs[i]);
        }
        lemma_width_counts_ports(d);
        let r = vstd::set_lib::set_int_range(l.lo as int, l.hi + 1);
        vstd::set_lib::lemma_int_range(l.lo as int, l.hi + 1);
        assert forall|p: int| covered_ports(rs).contains(p) <==> (covered_ports(d) + r).contains(p) by {
            if covers(rs, p) {
                let i = choose|i: int| 0 <= i < rs.len() && #[trigger] in_range(rs[i], p);
                if i < n {
                    assert(in_range(d[i], p));
                }
            }
            if covers(d, p) {
                let i = choose|i: int| 0 <= i < d.len() && #[trigger] in_range(d[i], p);
                assert(in_range(rs[i], p));
            }
            if r.contains(p) {
                assert(in_range(rs[n], p));
            }
        }
        assert(covered_ports(rs) =~= covered_ports(d) + r);
        assert forall|p: int| covered_ports(d).contains(p) implies !r.contains(p) by {
            let i = choose|i: int| 0 <= i < d.len() && #[trigger] in_range(d[i], p);
            assert(rs[i].hi + 1 < rs[n].lo);
        }
        vstd::set_lib::lemma_set_disjoint_lens(covered_ports(d), r);
    }
}

#[derive(Debug, Clone)]
pub struct PortSet {
    ranges: Vec<PortRange>,
}

impl PortSet {
    pub closed spec fn wf(&self) -> bool {
        normalized(self.ranges@)
    }

    /// The canonical ranges of the set.
    pub closed spec fn spec_ranges(&self) -> Seq<PortRange> {
        self.ranges@
    }

    pub fn new() -> (s: PortSet)
        ensures
            s.wf(),
            normalized(s.spec_ranges()),
            s.spec_ranges() == Seq::<PortRange>::empty(),
    {
        PortSet { ranges: Vec::new() }
    }

    pub fn is_empty(&self) -> (b: bool)
        ensures
            b == (self.spec_ranges().len() == 0),
    {
        self.ranges.len() == 0
    }

    /// Number of canonical ranges (adjacent and overlapping ranges count once).
    pub fn len(&self) -> (n: usize)
        ensures
            n == self.spec_ranges().len(),
    {
        self.ranges.len()
    }

    /// Add a range; the set stays canonical and covers exactly the ports it
    /// covered before plus those of `r`.
    pub fn add(&mut self, r: PortRange)
        requires
            old(self).wf(),
            r.lo <= r.hi,
        ensures
            final(self).wf(),
            normalized(final(self).spec_ranges()),
            forall|p: int| #[trigger] covers(final(self).spec_ranges(), p) == (covers(old(self).spec_ranges(), p) || in_range(r, p)),
    {
        let ghost rs = self.ranges@;
        let n = self.ranges.len();
        let mut out: Vec<PortRange> = Vec::new();
        let mut i: usize = 0;
        while i < n && (self.ranges[i].hi as u32) + 1 < (r.lo as u32)
            invariant
                i <= n == rs.len(),
                self.ranges@ == rs,
                normalized(rs),
                out@ == rs.take(i as int),
                forall|j: int| 0 <= j < i ==> (#[trigger] rs[j]).hi + 1 < r.lo,
            decreases n - i,
        {
            out.push(self.ranges[i]);
            i = i + 1;
            assert(out@ =~= rs.take(i as int));
        }
        let i1 = i;
        let mut cur = r;
        while i < n && (self.ranges[i].lo as u32) <= (cur.hi as u32) + 1
            invariant
                i1 <= i <= n == rs.len(),
                self.ranges@ == rs,
                normalized(rs),
                out@ == rs.take(i1 as int),
                forall|j: int| 0 <= j < i1 ==> (#[trigger] rs[j]).hi + 1 < r.lo,
                i1 < n ==> rs[i1 as int].hi + 1 >= r.lo,
                cur.lo <= cur.hi,
                cur.lo <= r.lo,
                cur.hi >= r.hi,
                i > i1 ==> cur.lo == (if rs[i1 as int].lo < r.lo { rs[i1 as int].lo } else { r.lo }),
                i == i1 ==> cur == r,
                i > i1 ==> cur.hi >= rs[i - 1].hi,
                forall|p: int| in_range(cur, p) == (in_range(r, p) || exists|j: int| i1 <= j < i && #[trigger] in_range(rs[j], p)),
            decreases n - i,
        {
            let e = self.ranges[i];
            let nlo = if e.lo < cur.lo { e.lo } else { cur.lo };
            let nhi = if e.hi > cur.hi { e.hi } else { cur.hi };
            let ghost old_cur = cur;
            cur = PortRange { lo: nlo, hi: nhi };
            proof {
                assert forall|p: int| in_range(cur, p) == (in_range(r, p) || exists|j: int| i1 <= j < i + 1 && #[trigger] in_range(rs[j], p)) by {
                    if in_range(cur, p) && !in_range(old_cur, p) && !in_range(e, p) {
                        assert(false);
                    }
                    if exists|j: int| i1 <= j < i + 1 && #[trigger] in_range(rs[j], p) {
                        let j = choose|j: int| i1 <= j < i + 1 && #[trigger] in_range(rs[j], p);
                        if j < i {
                            assert(in_range(old_cur, p));
                        }
                    }
                }
                if i > i1 {
                    assert(rs[i - 1].hi + 1 < rs[i as int].lo);
                }
            }
            i = i + 1;
        }
        let ghost i2 = i;
        out.push(cur);
        while i < n
            invariant
                i2 <= i <= n == rs.len(),
                self.ranges@ == rs,
                normalized(rs),
                out@ == rs.take(i1 as int).push(cur) + rs.subrange(i2 as int, i as int),
            decreases n - i,
        {
            out.push(self.ranges[i]);
            i = i + 1;
            assert(out@ =~= rs.take(i1 as int).push(cur) + rs.subrange(i2 as int, i as int));
        }
        proof {
            let o = out@;
            let a = rs.take(i1 as int);
            let c = rs.subrange(i2 as int, n as int);
            assert(o == a.push(cur) + c);
            assert(i2 < n ==> rs[i2 as int].lo > cur.hi + 1);
            assert forall|x: int| 0 <= x < o.len() implies (#[trigger] o[x]).lo <= o[x].hi by {
                if x < i1 {
                    assert(o[x] == rs[x]);
                } else if x > i1 {
                    assert(o[x] == rs[x - i1 - 1 + i2]);
                }
            }
            assert forall|x: int, y: int| 0 <= x < y < o.len() implies (#[trigger] o[x]).hi + 1 < (#[trigger] o[y]).lo by {
                let ox = if x < i1 { x } else if x == i1 { -1 } else { x - i1 - 1 + i2 };
                let oy = if y < i1 { y } else if y == i1 { -1 } else { y - i1 - 1 + i2 };
                if x < i1 && y < i1 {
                    assert(o[x] == rs[ox] && o[y] == rs[oy]);
                } else if x < i1 && y == i1 {
                    assert(o[x] == rs[x]);
                    if i2 > i1 {
                        assert(rs[x].hi + 1 < rs[i1 as int].lo);
                    }
                } else if x < i1 {
                    assert(o[x] == rs[ox] && o[y] == rs[oy]);
                } else if x == i1 {
                    assert(o[y] == rs[oy]);
                    assert(rs[oy].lo >= rs[i2 as int].lo);
                } else {
                    assert(o[x] == rs[ox] && o[y] == rs[oy]);
                }
            }
            assert forall|p: int| #[trigger] covers(o, p) == (covers(rs, p) || in_range(r, p)) by {
                if covers(rs, p) {
                    let j = choose|j: int| 0 <= j < rs.len() && #[trigger] in_range(rs[j], p);
                    if j < i1 {
                        assert(o[j] == rs[j]);
                    } else if j < i2 {
                        assert(in_range(cur, p));
                        assert(o[i1 as int] == cur);
                    } else {
                        assert(o[j - i2 + i1 + 1] == rs[j]);
                    }
                }
                if in_range(r, p) {
                    assert(o[i1 as int] == cur);
                    assert(in_range(o[i1 as int], p));
                }
                if covers(o, p) {
                    let x = choose|x: int| 0 <= x < o.len() && #[trigger] in_range(o[x], p);
                    if x < i1 {
                        assert(o[x] == rs[x]);
                        assert(in_range(rs[x], p));
                    } else if x == i1 {
                        assert(in_range(cur, p));
                    } else {
                        assert(o[x] == rs[x - i1 - 1 + i2]);
                        assert(in_range(rs[x - i1 - 1 + i2], p));
                    }
                }
            }
        }
        self.ranges = out;
    }

    pub fn contains(&self, p: u16) -> (b: bool)
        ensures
            b == covers(self.spec_ranges(), p as int),
    {
        let mut i: usize = 0;
        while i < self.ranges.len()
            invariant
                i <= self.ranges@.len(),
                forall|j: int| 0 <= j < i ==> !#[trigger] in_range(self.ranges@[j], p as int),
            decreases self.ranges@.len() - i,
        {
            if self.ranges[i].contains(p) {
                return true;
            }
            i = i + 1;
        }
        false
    }

    /// Total number of ports covered.
    pub fn cardinality(&self) -> (c: u32)
        requires
            self.wf(),
        ensures
            c == total_width(self.spec_ranges()),
            c == covered_ports(self.spec_ranges()).len(),
    {
        proof {
            lemma_width_counts_ports(self.ranges@);
        }
        let mut sum: u32 = 0;
        let mut i: usize = 0;
        let ghost rs = self.ranges@;
        while i < self.ranges.len()
            invariant
                i <= rs.len(),
                rs == self.ranges@,
                normalized(rs),
                sum == total_width(rs.take(i as int)),
            decreases rs.len() - i,
        {
            proof {
                let t = rs.take(i + 1);
                assert(t.drop_last() =~= rs.take(i as int));
                assert forall|a: int, b: int| 0 <= a < b < t.len() implies (#[trigger] t[a]).hi + 1 < (#[trigger] t[b]).lo by {
                    assert(t[a] == rs[a] && t[b] == rs[b]);
                }
                assert forall|a: int| 0 <= a < t.len() implies (#[trigger] t[a]).lo <= t[a].hi by {
                    assert(t[a] == rs[a]);
                }
                lemma_total_width_bound(t);
            }
            sum = sum + self.ranges[i].width();
            i = i + 1;
        }
        assert(rs.take(rs.len() as int) =~= rs);
        sum
    }

    /// Parse `"80,443,1024-2048"`: comma-separated pieces, blank pieces ignored,
    /// each a port or a `lo-hi` range (whitespace around numbers allowed).
    pub fn parse(s: &str) -> (r: Result<PortSet, Error>)
        ensures
            match r {
                Ok(set) => set.wf() && pieces_ok(spec_split(s@, seq![','])) && forall|p: int| #[trigger] covers(
                    set.spec_ranges(),
                    p,
                ) == pieces_cover(spec_split(s@, seq![',']), p),
                Err(e) => !pieces_ok(spec_split(s@, seq![','])) && e.kind == Kind::Malformed,
            },
    {
        let cs = chars_of(s);
        let comma = [','];
        assert(comma@ =~= seq![',']);
        let parts = split_chars(cs.as_slice(), comma.as_slice());
        let ghost ps = spec_split(s@, seq![',']);
        let mut set = PortSet::new();
        let mut i: usize = 0;
        while i < parts.len()
            invariant
                i <= parts@.len(),
                views(parts@) == ps,
                ps == spec_split(s@, seq![',']),
                set.wf(),
                pieces_ok(ps.take(i as int)),
                forall|p: int| #[trigger] covers(set.spec_ranges(), p) == pieces_cover(ps.take(i as int), p),
            decreases parts@.len() - i,
        {
            assert(views(parts@)[i as int] == parts@[i as int]@);
            let t = trim(parts[i].as_slice());
            proof {
                assert(ps.take(i + 1).drop_last() =~= ps.take(i as int));
                lemma_pieces_push(ps.take(i as int), ps[i as int]);
                assert(ps.take(i + 1) =~= ps.take(i as int).push(ps[i as int]));
            }
            if t.len() > 0 {
                let range = match parse_piece(t.as_slice()) {
                    Some(rg) => rg,
                    None => return Err(Error::malformed("bad port")),
                };
                let ghost before = set.spec_ranges();
                set.add(range);
            }
            i = i + 1;
        }
        assert(ps.take(ps.len() as int) =~= ps);
        Ok(set)
    }
}

/// A port number: decimal, at most 65535.
pub open spec fn spec_port(t: Seq<char>) -> Option<u16> {
    match spec_dec(spec_trim(t)) {
        Some(v) => if v <= 65535 { Some(v as u16) } else { None },
        None => None,
    }
}

/// The range a non-blank trimmed piece denotes: `lo-hi` or a single port.
pub open spec fn piece_range(t: Seq<char>) -> Option<PortRange> {
    match spec_split_once(t, '-') {
        Some((a, b)) => match (spec_port(a), spec_port(b)) {
            (Some(x), Some(y)) => Some(spec_range(x, y)),
            _ => None,
        },
        None => match spec_port(t) {
            Some(x) => Some(PortRange { lo: x, hi: x }),
            None => None,
        },
    }
}

pub open spec fn piece_ok(piece: Seq<char>) -> bool {
    spec_trim(piece).len() == 0 || piece_range(spec_trim(piece)) is Some
}

/// Every comma-separated piece is blank or a valid port / range.
pub open spec fn pieces_ok(ps: Seq<Seq<char>>) -> bool {
    forall|i: int| 0 <= i < ps.len() ==> #[trigger] piece_ok(ps[i])
}

/// Port `p` lies in the range that the piece denotes (a blank piece denotes none).
pub open spec fn piece_covers(piece: Seq<char>, p: int) -> bool {
    spec_trim(piece).len() > 0 && match piece_range(spec_trim(piece)) {
        Some(rg) => in_range(rg, p),
        None => false,
    }
}

/// Port `p` lies in the range of some non-blank piece.
pub open spec fn pieces_cover(ps: Seq<Seq<char>>, p: int) -> bool {
    exists|i: int| 0 <= i < ps.len() && #[trigger] piece_covers(ps[i], p)
}

proof fn lemma_pieces_push(ps: Seq<Seq<char>>, x: Seq<char>)
    ensures
        pieces_ok(ps.push(x)) == (pieces_ok(ps) && piece_ok(x)),
        forall|p: int| #[trigger] pieces_cover(ps.push(x), p) == (pieces_cover(ps, p) || piece_covers(x, p)),
{
    let q = ps.push(x);
    if pieces_ok(q) {
        assert forall|i: int| 0 <= i < ps.len() implies #[trigger] piece_ok(ps[i]) by {
            assert(q[i] == ps[i]);
            assert(piece_ok(q[i]));
        }
        assert(piece_ok(q[ps.len() as int]));
    }
    if pieces_ok(ps) && piece_ok(x) {
        assert forall|i: int| 0 <= i < q.len() implies #[trigger] piece_ok(q[i]) by {
            if i < ps.len() {
                assert(q[i] == ps[i]);
            }
        }
    }
    assert forall|p: int| #[trigger] pieces_cover(q, p) == (pieces_cover(ps, p) || piece_covers(x, p)) by {
        if pieces_cover(ps, p) {
            let i = choose|i: int| 0 <= i < ps.len() && #[trigger] piece_covers(ps[i], p);
            assert(q[i] == ps[i]);
        }
        if piece_covers(x, p) {
            assert(q[ps.len() as int] == x);
        }
        if pieces_cover(q, p) {
            let i = choose|i: int| 0 <= i < q.len() && #[trigger] piece_covers(q[i], p);
            if i < ps.len() {
                assert(q[i] == ps[i]);
            }
        }
    }
}

fn parse_port(t: &[char]) -> (r: Option<u16>)
    ensures
        r == spec_port(t@),
{
    let u = trim(t);
    match parse_dec(u.as_slice(), 65535) {
        Some(v) => Some(v as u16),
        None => None,
    }
}

fn parse_piece(t: &[char]) -> (r: Option<PortRange>)
    ensures
        r == piece_range(t@),
        r matches Some(rg) ==> rg.lo <= rg.hi,
{
    match split_once(t, '-') {
        Some((a, b)) => {
            let x = parse_port(a.as_slice());
            let y = parse_port(b.as_slice());
            match (x, y) {
                (Some(x), Some(y)) => Some(PortRange::new(x, y)),
                _ => None,
            }
        },
        None => match parse_port(t) {
            Some(x) => Some(PortRange::single(x)),
            None => None,
        },
    }
}

} // verus!
