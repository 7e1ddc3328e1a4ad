//! IPv4 CIDR prefixes and membership tests.

use vstd::prelude::*;

use crate::error::{Error, Kind};
use crate::net::addr::{fmt_ipv4, parse_ipv4_chars, spec_fmt_ipv4, spec_parse_ipv4};
use crate::text::{chars_of, dec_str, parse_dec, push_char, push_dec, spec_dec, spec_split_once, spec_trim, split_once, trim};

verus! {

/// The network mask of a prefix length (0 for /0).
pub open spec fn spec_mask(prefix: u8) -> u32 {
    if prefix == 0 {
        0
    } else {
        (0xFFFF_FFFFu32 << ((32 - prefix) as u32)) as u32
    }
}

/// The address and prefix length of `a.b.c.d/len` text: split at the first
/// `/`, both sides trimmed, a dotted quad and a decimal length of at most 32.
pub open spec fn spec_parse_cidr(s: Seq<char>) -> Option<(u32, u8)> {
    match spec_split_once(s, '/') {
        Some((x, y)) => match (spec_parse_ipv4(spec_trim(x)), spec_dec(spec_trim(y))) {
            (Some(a), Some(p)) => if p <= 32 { Some((a, p as u8)) } else { None },
            _ => None,
        },
        None => None,
    }
}

#[derive(Debug, Clone, Copy, PartialEq, Eq, Structural)]
pub struct Cidr4 {
    base: u32,
    prefix: u8,
}

impl Cidr4 {
    pub closed spec fn spec_base(&self) -> u32 {
        self.base
    }

    pub closed spec fn spec_prefix(&self) -> u8 {
        self.prefix
    }

    /// The prefix length is at most 32 and the base has no host bits.
    pub closed spec fn wf(&self) -> bool {
        self.prefix <= 32 && self.base & spec_mask(self.prefix) == self.base
    }

    fn mask(prefix: u8) -> (m: u32)
        requires
            prefix <= 32,
        ensures
            m == spec_mask(prefix),
    {
        if prefix == 0 {
            0
        } else {
            0xFFFF_FFFFu32 << (32 - prefix as u32)
        }
    }

    /// The prefix of length `prefix` containing `addr`.
    pub fn new(addr: u32, prefix: u8) -> (r: Result<Cidr4, Error>)
        ensures
            match r {
                Ok(c) => prefix <= 32 && c.wf() && c.spec_prefix() == prefix && c.spec_base() == addr & spec_mask(prefix),
                Err(e) => prefix > 32 && e.kind == Kind::Malformed,
            },
    {
        if prefix > 32 {
            return Err(Error::malformed("cidr: prefix > 32"));
        }
        let mask = Self::mask(prefix);
        let c = Cidr4 { base: addr & mask, prefix };
        assert((addr & mask) & mask == addr & mask) by (bit_vector);
        Ok(c)
    }

    /// Parse `a.b.c.d/len` (whitespace around either side is ignored).
    pub fn parse(s: &str) -> (r: Result<Cidr4, Error>)
        ensures
            match r {
                Ok(c) => spec_parse_cidr(s@) matches Some((a, p)) && c.wf() && c.spec_prefix() == p && c.spec_base()
                    == a & spec_mask(p),
                Err(e) => spec_parse_cidr(s@) is None && e.kind == Kind::Malformed,
            },
    {
        let cs = chars_of(s);
        let (a, b) = match split_once(cs.as_slice(), '/') {
            Some(p) => p,
            None => return Err(Error::malformed("cidr: missing /")),
        };
        let ta = trim(a.as_slice());
        let addr = parse_ipv4_chars(ta.as_slice())?;
        let tb = trim(b.as_slice());
        let prefix = match parse_dec(tb.as_slice(), 255) {
            Some(p) => p as u8,
            None => return Err(Error::malformed("cidr: bad prefix")),
        };
        Cidr4::new(addr, prefix)
    }

    pub fn contains(&self, addr: u32) -> (b: bool)
        requires
            self.wf(),
        ensures
            b == (addr & spec_mask(self.spec_prefix()) == self.spec_base()),
    {
        let mask = Self::mask(self.prefix);
        (addr & mask) == self.base
    }

    pub fn prefix(&self) -> (p: u8)
        ensures
            p == self.spec_prefix(),
    {
        self.prefix
    }

    pub fn network(&self) -> (n: u32)
        ensures
            n == self.spec_base(),
    {
        self.base
    }

    pub fn broadcast(&self) -> (b: u32)
        requires
            self.wf(),
        ensures
            b == self.spec_base() | !spec_mask(self.spec_prefix()),
    {
        self.base | !Self::mask(self.prefix)
    }

    /// `a.b.c.d/len`.
    pub fn to_string_lossy(&self) -> (s: String)
        ensures
            s@ == spec_fmt_ipv4(self.spec_base()) + seq!['/'] + dec_str(self.spec_prefix() as nat),
    {
        let mut s = fmt_ipv4(self.base);
        push_char(&mut s, '/');
        push_dec(&mut s, self.prefix as u64);
        s
    }
}

/// A prefix contains the address it was built from, its network address and
/// its broadcast address.
pub proof fn lemma_cidr_contains_ends(addr: u32, m: u32)
    ensures
        addr & m == (addr & m),
        ((addr & m) & m) == (addr & m),
        (((addr & m) | !m) & m) == (addr & m),
{
    assert(((addr & m) & m) == (addr & m)) by (bit_vector);
    assert((((addr & m) | !m) & m) == (addr & m)) by (bit_vector);
}

/// A set of prefixes with a longest-prefix-match lookup.
#[derive(Debug)]
pub struct PrefixSet {
    entries: Vec<Cidr4>,
}

/// Index at which a prefix of length `p` goes: after every entry at least as long.
pub open spec fn insert_pos(es: Seq<Cidr4>, p: u8) -> int
    decreases es.len(),
{
    if es.len() == 0 {
        0
    } else if es.last().spec_prefix() >= p {
        es.len() as int
    } else {
        insert_pos(es.drop_last(), p)
    }
}

pub open spec fn sorted_desc(es: Seq<Cidr4>) -> bool {
    forall|i: int, j: int| 0 <= i < j < es.len() ==> (#[trigger] es[i]).spec_prefix() >= (#[trigger] es[j]).spec_prefix()
}

/// The first entry containing `addr`.
pub open spec fn first_match(es: Seq<Cidr4>, addr: u32, from: int) -> Option<int>
    decreases es.len() - from,
{
    if from < 0 || from >= es.len() {
        None
    } else if addr & spec_mask(es[from].spec_prefix()) == es[from].spec_base() {
        Some(from)
    } else {
        first_match(es, addr, from + 1)
    }
}

impl PrefixSet {
    /// Entries are well formed and ordered longest prefix first.
    pub closed spec fn wf(&self) -> bool {
        sorted_desc(self.entries@) && forall|i: int| 0 <= i < self.entries@.len() ==> (#[trigger] self.entries@[i]).wf()
    }

    pub closed spec fn spec_entries(&self) -> Seq<Cidr4> {
        self.entries@
    }

    pub fn new() -> (s: PrefixSet)
        ensures
            s.wf(),
            s.spec_entries() == Seq::<Cidr4>::empty(),
    {
        PrefixSet { entries: Vec::new() }
    }

    /// Add a prefix, after every entry at least as long (so among equal
    /// lengths, earlier insertions come first).
    pub fn insert(&mut self, cidr: Cidr4)
        requires
            old(self).wf(),
            cidr.wf(),
        ensures
            final(self).wf(),
            ({
                let k = insert_pos(old(self).spec_entries(), cidr.spec_prefix());
                final(self).spec_entries() == old(self).spec_entries().insert(k, cidr)
            }),
    {
        let mut k = self.entries.len();
        assert(self.entries@.take(k as int) =~= self.entries@);
        while k > 0 && self.entries[k - 1].prefix < cidr.prefix
            invariant
                k <= self.entries@.len(),
                self.entries@ == old(self).entries@,
                insert_pos(self.entries@, cidr.prefix) == insert_pos(self.entries@.take(k as int), cidr.prefix),
            decreases k,
        {
            assert(self.entries@.take(k as int).drop_last() =~= self.entries@.take(k - 1));
            k = k - 1;
        }
        proof {
            if k > 0 {
                assert(self.entries@.take(k as int).last() == self.entries@[k - 1]);
            }
            assert(insert_pos(self.entries@.take(k as int), cidr.prefix) == k);
        }
        self.entries.insert(k, cidr);
        proof {
            lemma_insert_sorted(old(self).entries@, cidr);
            assert forall|i: int| 0 <= i < self.entries@.len() implies (#[trigger] self.entries@[i]).wf() by {
                if i != k {
                    let oi = if i < k { i } else { i - 1 };
                    assert(self.entries@[i] == old(self).entries@[oi]);
                }
            }
        }
    }

    /// The most specific prefix containing `addr`.
    pub fn matches(&self, addr: u32) -> (r: Option<Cidr4>)
        requires
            self.wf(),
        ensures
            match first_match(self.spec_entries(), addr, 0) {
                Some(i) => r == Some(self.spec_entries()[i]),
                None => r is None,
            },
    {
        let mut i: usize = 0;
        while i < self.entries.len()
            invariant
                i <= self.entries@.len(),
                self.wf(),
                first_match(self.entries@, addr, 0) == first_match(self.entries@, addr, i as int),
            decreases self.entries@.len() - i,
        {
            if self.entries[i].contains(addr) {
                return Some(self.entries[i]);
            }
            i = i + 1;
        }
        None
    }

    pub fn len(&self) -> (n: usize)
        ensures
            n == self.spec_entries().len(),
    {
        self.entries.len()
    }

    pub fn is_empty(&self) -> (b: bool)
        ensures
            b == (self.spec_entries().len() == 0),
    {
        self.entries.len() == 0
    }
}

proof fn lemma_insert_pos(es: Seq<Cidr4>, p: u8)
    requires
        sorted_desc(es),
    ensures
        0 <= insert_pos(es, p) <= es.len(),
        forall|j: int| 0 <= j < insert_pos(es, p) ==> (#[trigger] es[j]).spec_prefix() >= p,
        forall|j: int| insert_pos(es, p) <= j < es.len() ==> (#[trigger] es[j]).spec_prefix() < p,
    decreases es.len(),
{
    if es.len() > 0 {
        let d = es.drop_last();
        assert forall|a: int, b: int| 0 <= a < b < d.len() implies (#[trigger] d[a]).spec_prefix() >= (
        #[trigger] d[b]).spec_prefix() by {
            assert(d[a] == es[a] && d[b] == es[b]);
        }
        lemma_insert_pos(d, p);
        if es.last().spec_prefix() >= p {
            assert forall|j: int| 0 <= j < es.len() implies (#[trigger] es[j]).spec_prefix() >= p by {
                if j < es.len() - 1 {
                    assert(es[j].spec_prefix() >= es[es.len() - 1].spec_prefix());
                }
            }
        } else {
            assert forall|j: int| 0 <= j < insert_pos(es, p) implies (#[trigger] es[j]).spec_prefix() >= p by {
                assert(d[j] == es[j]);
            }
            assert forall|j: int| insert_pos(es, p) <= j < es.len() implies (#[trigger] es[j]).spec_prefix() < p by {
                if j < es.len() - 1 {
                    assert(d[j] == es[j]);
                }
            }
        }
    }
}

proof fn lemma_insert_sorted(o: Seq<Cidr4>, c: Cidr4)
    requires
        sorted_desc(o),
    ensures
        sorted_desc(o.insert(insert_pos(o, c.spec_prefix()), c)),
{
    lemma_insert_pos(o, c.spec_prefix());
    let k = insert_pos(o, c.spec_prefix());
    let n = o.insert(k, c);
    assert forall|i: int, j: int| 0 <= i < j < n.len() implies (#[trigger] n[i]).spec_prefix() >= (
    #[trigger] n[j]).spec_prefix() by {
        let oi = if i < k { i } else { i - 1 };
        let oj = if j < k { j } else { j - 1 };
        if i != k && j != k {
            assert(n[i] == o[oi] && n[j] == o[oj]);
        } else if i == k {
            assert(n[j] == o[oj]);
        } else {
            assert(n[i] == o[oi]);
        }
    }
}

proof fn lemma_first_match_bounds(es: Seq<Cidr4>, addr: u32, from: int)
    requires
        from >= 0,
    ensures
        first_match(es, addr, from) matches Some(i) ==> from <= i < es.len() && addr & spec_mask(es[i].spec_prefix()) == es[i].spec_base(),
        first_match(es, addr, from) matches Some(i) ==> forall|j: int| from <= j < i ==> !(addr & spec_mask(#[trigger] es[j].spec_prefix()) == es[j].spec_base()),
        first_match(es, addr, from) is None ==> forall|j: int| from <= j < es.len() ==> !(addr & spec_mask(#[trigger] es[j].spec_prefix()) == es[j].spec_base()),
    decreases es.len() - from,
{
    if from < es.len() {
        lemma_first_match_bounds(es, addr, from + 1);
    }
}

/// Longest-prefix match: the prefix `matches` returns contains the address and
/// is at least as long as every other prefix in the set that contains it.
pub proof fn lemma_longest_prefix_match(s: PrefixSet, addr: u32)
    requires
        s.wf(),
    ensures
        first_match(s.spec_entries(), addr, 0) matches Some(i) ==> (forall|j: int|
            0 <= j < s.spec_entries().len() && addr & spec_mask(s.spec_entries()[j].spec_prefix())
                == s.spec_entries()[j].spec_base() ==> s.spec_entries()[i].spec_prefix() >= (#[trigger] s.spec_entries()[j]).spec_prefix()),
{
    lemma_first_match_bounds(s.spec_entries(), addr, 0);
}

} // verus!
