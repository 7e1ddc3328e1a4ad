//! A secondary index mapping a scalar field value to the record keys that carry
//! it. Supports point and range lookups for the query layer.

use vstd::prelude::*;

use crate::keyed::{has_key, keyed_map, keys_unique, lemma_index_of_key, lemma_keyed_push, lemma_keyed_remove, lemma_keyed_update};

verus! {

pub open spec fn pair_key(p: (u64, u64)) -> u64 {
    p.0
}

/// The record key of an index pair.
pub open spec fn by_record() -> spec_fn((u64, u64)) -> u64 {
    |p: (u64, u64)| pair_key(p)
}

/// The distinct values that some key of `m` carries.
pub open spec fn value_set(m: Map<u64, u64>) -> Set<u64> {
    Set::new(|v: u64| exists|k: u64| #[trigger] m.dom().contains(k) && m[k] == v)
}

/// `s` is in strictly increasing order.
pub open spec fn strictly_sorted(s: Seq<u64>) -> bool {
    forall|i: int, j: int| 0 <= i < j < s.len() ==> s[i] < s[j]
}

#[derive(Debug)]
pub struct FieldIndex {
    /// `(record key, value)` pairs, no two with the same record key.
    pairs: Vec<(u64, u64)>,
}

impl Default for FieldIndex {
    fn default() -> (idx: FieldIndex)
        ensures
            idx.wf(),
            idx@ == Map::<u64, u64>::empty(),
    {
        FieldIndex::new()
    }
}

impl View for FieldIndex {
    type V = Map<u64, u64>;

    /// The value each indexed record key carries.
    closed spec fn view(&self) -> Map<u64, u64> {
        keyed_map(self.pairs@, by_record()).map_values(|p: (u64, u64)| p.1)
    }
}

/// Position of the pair for record `key`, if any.
fn position(ps: &Vec<(u64, u64)>, key: u64) -> (r: Option<usize>)
    ensures
        match r {
            Some(i) => i < ps@.len() && ps@[i as int].0 == key,
            None => !has_key(ps@, by_record(), key),
        },
{
    let mut i: usize = 0;
    while i < ps.len()
        invariant
            i <= ps@.len(),
            forall|j: int| 0 <= j < i ==> (#[trigger] ps@[j]).0 != key,
        decreases ps@.len() - i,
    {
        if ps[i].0 == key {
            return Some(i);
        }
        i = i + 1;
    }
    assert(!has_key(ps@, by_record(), key)) by {
        if has_key(ps@, by_record(), key) {
            let j = choose|j: int| 0 <= j < ps@.len() && by_record()(#[trigger] ps@[j]) == key;
            assert(ps@[j].0 == key);
        }
    }
    None
}

/// Whether `x` occurs in `v`.
fn contains_value(v: &Vec<u64>, x: u64) -> (b: bool)
    ensures
        b == v@.contains(x),
{
    let mut i: usize = 0;
    while i < v.len()
        invariant
            i <= v@.len(),
            forall|j: int| 0 <= j < i ==> v@[j] != x,
        decreases v@.len() - i,
    {
        if v[i] == x {
            return true;
        }
        i = i + 1;
    }
    false
}

/// Insert `x` into a strictly sorted vector that lacks it, keeping it sorted.
fn insert_sorted(v: &mut Vec<u64>, x: u64)
    requires
        strictly_sorted(old(v)@),
        !old(v)@.contains(x),
    ensures
        strictly_sorted(final(v)@),
        forall|y: u64| final(v)@.contains(y) <==> old(v)@.contains(y) || y == x,
        final(v)@.len() == old(v)@.len() + 1,
{
    let mut p: usize = 0;
    while p < v.len() && v[p] < x
        invariant
            p <= v@.len(),
            v@ == old(v)@,
            forall|j: int| 0 <= j < p ==> v@[j] < x,
        decreases v@.len() - p,
    {
        p = p + 1;
    }
    let ghost s = v@;
    proof {
        if p < s.len() {
            assert(s[p as int] != x);
        }
    }
    v.insert(p, x);
    proof {
        assert(v@ =~= s.take(p as int).push(x) + s.skip(p as int));
        assert forall|i: int, j: int| 0 <= i < j < v@.len() implies v@[i] < v@[j] by {
            if j < p {
                assert(v@[i] == s[i] && v@[j] == s[j]);
            } else if j == p {
                assert(v@[i] == s[i]);
            } else if i < p {
                assert(v@[i] == s[i] && v@[j] == s[j - 1]);
                assert(s[p as int] >= x);
                if p < j - 1 {
                    assert(s[p as int] < s[j - 1]);
                }
            } else if i == p {
                assert(v@[j] == s[j - 1]);
                assert(s[p as int] >= x);
                if p < j - 1 {
                    assert(s[p as int] < s[j - 1]);
                }
            } else {
                assert(v@[i] == s[i - 1] && v@[j] == s[j - 1]);
            }
        }
        assert forall|y: u64| v@.contains(y) <==> s.contains(y) || y == x by {
            if v@.contains(y) {
                let i = choose|i: int| 0 <= i < v@.len() && v@[i] == y;
                if i < p {
                    assert(s[i] == y);
                } else if i > p {
                    assert(s[i - 1] == y);
                }
            }
            if s.contains(y) {
                let i = choose|i: int| 0 <= i < s.len() && s[i] == y;
                if i < p {
                    assert(v@[i] == y);
                } else {
                    assert(v@[i + 1] == y);
                }
            }
            if y == x {
                assert(v@[p as int] == x);
            }
        }
    }
}

impl FieldIndex {
    pub closed spec fn wf(&self) -> bool {
        keys_unique(self.pairs@, by_record())
    }

    /// Each pair is the one its record key maps to.
    proof fn lemma_pair(&self, j: int)
        requires
            self.wf(),
            0 <= j < self.pairs@.len(),
        ensures
            self@.dom().contains(self.pairs@[j].0),
            self@[self.pairs@[j].0] == self.pairs@[j].1,
    {
        lemma_index_of_key(self.pairs@, by_record(), j);
    }

    /// Every indexed key is the record key of some pair, with its value.
    proof fn lemma_key(&self, k: u64) -> (j: int)
        requires
            self.wf(),
            self@.dom().contains(k),
        ensures
            0 <= j < self.pairs@.len(),
            self.pairs@[j].0 == k,
            self.pairs@[j].1 == self@[k],
    {
        let j = choose|j: int| 0 <= j < self.pairs@.len() && by_record()(#[trigger] self.pairs@[j]) == k;
        lemma_index_of_key(self.pairs@, by_record(), j);
        j
    }

    pub fn new() -> (idx: FieldIndex)
        ensures
            idx.wf(),
            idx@ == Map::<u64, u64>::empty(),
    {
        let idx = FieldIndex { pairs: Vec::new() };
        assert(idx@ =~= Map::<u64, u64>::empty());
        idx
    }

    /// How many distinct values are indexed.
    pub fn distinct_values(&self) -> (n: usize)
        requires
            self.wf(),
        ensures
            n == value_set(self@).len(),
    {
        let mut seen: Vec<u64> = Vec::new();
        let mut i: usize = 0;
        while i < self.pairs.len()
            invariant
                self.wf(),
                i <= self.pairs@.len(),
                seen@.no_duplicates(),
                seen@.len() <= i,
                forall|v: u64| seen@.contains(v) <==> exists|j: int| 0 <= j < i && (#[trigger] self.pairs@[j]).1 == v,
            decreases self.pairs@.len() - i,
        {
            let v = self.pairs[i].1;
            if !contains_value(&seen, v) {
                let ghost s0 = seen@;
                seen.push(v);
                proof {
                    assert forall|a: int, b: int| 0 <= a < seen@.len() && 0 <= b < seen@.len() && a != b implies seen@[a] != seen@[b] by {
                        if a < s0.len() && b < s0.len() {
                            assert(seen@[a] == s0[a] && seen@[b] == s0[b]);
                        } else if a < s0.len() {
                            assert(s0.contains(seen@[a]));
                        } else {
                            assert(s0.contains(seen@[b]));
                        }
                    }
                    assert forall|w: u64| seen@.contains(w) <==> exists|j: int| 0 <= j < i + 1 && (#[trigger] self.pairs@[j]).1 == w by {
                        if seen@.contains(w) {
                            let a = choose|a: int| 0 <= a < seen@.len() && seen@[a] == w;
                            if a < s0.len() {
                                assert(s0.contains(w));
                            } else {
                                assert(self.pairs@[i as int].1 == w);
                            }
                        }
                        if exists|j: int| 0 <= j < i + 1 && (#[trigger] self.pairs@[j]).1 == w {
                            let j = choose|j: int| 0 <= j < i + 1 && (#[trigger] self.pairs@[j]).1 == w;
                            if j < i {
                                assert(s0.contains(w));
                                let a = choose|a: int| 0 <= a < s0.len() && s0[a] == w;
                                assert(seen@[a] == w);
                            } else {
                                assert(seen@[s0.len() as int] == w);
                            }
                        }
                    }
                }
            } else {
                proof {
                    assert forall|w: u64| seen@.contains(w) <==> exists|j: int| 0 <= j < i + 1 && (#[trigger] self.pairs@[j]).1 == w by {
                        if exists|j: int| 0 <= j < i + 1 && (#[trigger] self.pairs@[j]).1 == w {
                            let j = choose|j: int| 0 <= j < i + 1 && (#[trigger] self.pairs@[j]).1 == w;
                            if j < i {
                                assert(exists|j: int| 0 <= j < i && (#[trigger] self.pairs@[j]).1 == w);
                            }
                        }
                    }
                }
            }
            i = i + 1;
        }
        proof {
            seen@.unique_seq_to_set();
            assert(seen@.to_set() =~= value_set(self@)) by {
                assert forall|v: u64| seen@.to_set().contains(v) <==> value_set(self@).contains(v) by {
                    if seen@.contains(v) {
                        let j = choose|j: int| 0 <= j < self.pairs@.len() && (#[trigger] self.pairs@[j]).1 == v;
                        self.lemma_pair(j);
                        assert(self@.dom().contains(self.pairs@[j].0));
                    }
                    if value_set(self@).contains(v) {
                        let k = choose|k: u64| #[trigger] self@.dom().contains(k) && self@[k] == v;
                        let j = self.lemma_key(k);
                        assert(self.pairs@[j].1 == v);
                    }
                }
            }
        }
        seen.len()
    }

    /// Index `key` under `value`, replacing any previous value for `key`.
    pub fn insert(&mut self, key: u64, value: u64)
        requires
            old(self).wf(),
        ensures
            final(self).wf(),
            final(self)@ == old(self)@.insert(key, value),
    {
        let ghost s = self.pairs@;
        match position(&self.pairs, key) {
            Some(i) => {
                proof {
                    lemma_keyed_update(s, by_record(), i as int, (key, value));
                }
                self.pairs.set(i, (key, value));
            },
            None => {
                proof {
                    lemma_keyed_push(s, by_record(), (key, value));
                }
                self.pairs.push((key, value));
            },
        }
        assert(self@ =~= old(self)@.insert(key, value));
    }

    /// Drop `key` from the index.
    pub fn remove(&mut self, key: u64)
        requires
            old(self).wf(),
        ensures
            final(self).wf(),
            final(self)@ == old(self)@.remove(key),
    {
        let ghost s = self.pairs@;
        match position(&self.pairs, key) {
            Some(i) => {
                proof {
                    lemma_keyed_remove(s, by_record(), i as int);
                }
                self.pairs.remove(i);
                assert(self@ =~= old(self)@.remove(key));
            },
            None => {
                assert(old(self)@ =~= old(self)@.remove(key));
            },
        }
    }

    /// All keys with exactly `value`, each once, in no particular order.
    pub fn point(&self, value: u64) -> (keys: Vec<u64>)
        requires
            self.wf(),
        ensures
            keys@.no_duplicates(),
            forall|k: u64| keys@.contains(k) <==> self@.dom().contains(k) && self@[k] == value,
    {
        let mut out: Vec<u64> = Vec::new();
        let mut i: usize = 0;
        while i < self.pairs.len()
            invariant
                self.wf(),
                i <= self.pairs@.len(),
                out@.no_duplicates(),
                forall|k: u64| out@.contains(k) <==> exists|j: int| 0 <= j < i && #[trigger] self.pairs@[j] == (k, value),
            decreases self.pairs@.len() - i,
        {
            let p = self.pairs[i];
            if p.1 == value {
                let ghost o = out@;
                proof {
                    assert(!o.contains(p.0)) by {
                        if o.contains(p.0) {
                            let j = choose|j: int| 0 <= j < i && #[trigger] self.pairs@[j] == (p.0, value);
                            assert(by_record()(self.pairs@[j]) == by_record()(self.pairs@[i as int]));
                        }
                    }
                }
                out.push(p.0);
                proof {
                    assert forall|a: int, b: int| 0 <= a < out@.len() && 0 <= b < out@.len() && a != b implies out@[a] != out@[b] by {
                        if a < o.len() && b < o.len() {
                            assert(out@[a] == o[a] && out@[b] == o[b]);
                        } else if a < o.len() {
                            assert(o.contains(out@[a]));
                        } else {
                            assert(o.contains(out@[b]));
                        }
                    }
                    assert forall|k: u64| out@.contains(k) <==> exists|j: int| 0 <= j < i + 1 && #[trigger] self.pairs@[j] == (k, value) by {
                        if out@.contains(k) {
                            let a = choose|a: int| 0 <= a < out@.len() && out@[a] == k;
                            if a < o.len() {
                                assert(o.contains(k));
                            } else {
                                assert(self.pairs@[i as int] == (k, value));
                            }
                        }
                        if exists|j: int| 0 <= j < i + 1 && #[trigger] self.pairs@[j] == (k, value) {
                            let j = choose|j: int| 0 <= j < i + 1 && #[trigger] self.pairs@[j] == (k, value);
                            if j < i {
                                assert(o.contains(k));
                                let a = choose|a: int| 0 <= a < o.len() && o[a] == k;
                                assert(out@[a] == k);
                            } else {
                                assert(out@[o.len() as int] == k);
                            }
                        }
                    }
                }
            } else {
                proof {
                    assert forall|k: u64| out@.contains(k) <==> exists|j: int| 0 <= j < i + 1 && #[trigger] self.pairs@[j] == (k, value) by {
                        if exists|j: int| 0 <= j < i + 1 && #[trigger] self.pairs@[j] == (k, value) {
                            let j = choose|j: int| 0 <= j < i + 1 && #[trigger] self.pairs@[j] == (k, value);
                            if j < i {
                                assert(exists|j: int| 0 <= j < i && #[trigger] self.pairs@[j] == (k, value));
                            }
                        }
                    }
                }
            }
            i = i + 1;
        }
        proof {
            assert forall|k: u64| out@.contains(k) <==> self@.dom().contains(k) && self@[k] == value by {
                if out@.contains(k) {
                    let j = choose|j: int| 0 <= j < self.pairs@.len() && #[trigger] self.pairs@[j] == (k, value);
                    self.lemma_pair(j);
                }
                if self@.dom().contains(k) && self@[k] == value {
                    let j = self.lemma_key(k);
                    assert(self.pairs@[j] == (k, value));
                }
            }
        }
        out
    }

    /// All keys whose value lies in `[lo, hi]`, in increasing order.
    pub fn range(&self, lo: u64, hi: u64) -> (keys: Vec<u64>)
        requires
            self.wf(),
        ensures
            strictly_sorted(keys@),
            forall|k: u64| keys@.contains(k) <==> self@.dom().contains(k) && lo <= self@[k] <= hi,
    {
        let mut out: Vec<u64> = Vec::new();
        let mut i: usize = 0;
        while i < self.pairs.len()
            invariant
                self.wf(),
                i <= self.pairs@.len(),
                strictly_sorted(out@),
                forall|k: u64| out@.contains(k) <==> exists|j: int|
                    0 <= j < i && (#[trigger] self.pairs@[j]).0 == k && lo <= self.pairs@[j].1 <= hi,
            decreases self.pairs@.len() - i,
        {
            let p = self.pairs[i];
            if lo <= p.1 && p.1 <= hi {
                proof {
                    assert(!out@.contains(p.0)) by {
                        if out@.contains(p.0) {
                            let j = choose|j: int|
                                0 <= j < i && (#[trigger] self.pairs@[j]).0 == p.0 && lo <= self.pairs@[j].1 <= hi;
                            assert(by_record()(self.pairs@[j]) == by_record()(self.pairs@[i as int]));
                        }
                    }
                }
                let ghost o = out@;
                insert_sorted(&mut out, p.0);
                proof {
                    assert forall|k: u64| out@.contains(k) <==> exists|j: int|
                        0 <= j < i + 1 && (#[trigger] self.pairs@[j]).0 == k && lo <= self.pairs@[j].1 <= hi by {
                        if out@.contains(k) && k != p.0 {
                            assert(o.contains(k));
                        }
                        if k == p.0 {
                            assert(self.pairs@[i as int].0 == k);
                        }
                        if exists|j: int| 0 <= j < i + 1 && (#[trigger] self.pairs@[j]).0 == k && lo <= self.pairs@[j].1 <= hi {
                            let j = choose|j: int|
                                0 <= j < i + 1 && (#[trigger] self.pairs@[j]).0 == k && lo <= self.pairs@[j].1 <= hi;
                            if j < i {
                                assert(o.contains(k));
                            }
                        }
                    }
                }
            } else {
                proof {
                    assert forall|k: u64| out@.contains(k) <==> exists|j: int|
                        0 <= j < i + 1 && (#[trigger] self.pairs@[j]).0 == k && lo <= self.pairs@[j].1 <= hi by {
                        if exists|j: int| 0 <= j < i + 1 && (#[trigger] self.pairs@[j]).0 == k && lo <= self.pairs@[j].1 <= hi {
                            let j = choose|j: int|
                                0 <= j < i + 1 && (#[trigger] self.pairs@[j]).0 == k && lo <= self.pairs@[j].1 <= hi;
                            if j < i {
                                assert(exists|j: int|
                                    0 <= j < i && (#[trigger] self.pairs@[j]).0 == k && lo <= self.pairs@[j].1 <= hi);
                            }
                        }
                    }
                }
            }
            i = i + 1;
        }
        proof {
            assert forall|k: u64| out@.contains(k) <==> self@.dom().contains(k) && lo <= self@[k] <= hi by {
                if out@.contains(k) {
                    let j = choose|j: int|
                        0 <= j < self.pairs@.len() && (#[trigger] self.pairs@[j]).0 == k && lo <= self.pairs@[j].1 <= hi;
                    self.lemma_pair(j);
                }
                if self@.dom().contains(k) && lo <= self@[k] <= hi {
                    let j = self.lemma_key(k);
                }
            }
        }
        out
    }
}

} // verus!
