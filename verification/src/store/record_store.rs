//! An in-memory keyed record store with TTL and LRU eviction.
//!
//! Decoded records can be parked here keyed by an application id (e.g. a
//! correlation key) so a later message can retrieve and augment them. Entries
//! expire on a logical clock and the store is bounded, evicting the
//! least-recently-used entry when full.

use vstd::prelude::*;

use crate::decode::RecordImage;
use crate::keyed::{
    has_key, keyed_map, keys_unique, lemma_index_of_key, lemma_keyed_len, lemma_keyed_push, lemma_keyed_remove,
    lemma_keyed_update,
};

verus! {

/// A stored record with its insertion time on the logical clock and its access
/// stamp. The stamp is independent of the logical clock (which only governs
/// expiry) and orders entries for eviction.
pub struct Entry {
    pub key: u64,
    pub image: RecordImage,
    pub inserted: u64,
    pub touched_at: u64,
}

pub open spec fn entry_key(e: Entry) -> u64 {
    e.key
}

/// The key an entry is filed under.
pub open spec fn by_key() -> spec_fn(Entry) -> u64 {
    |e: Entry| entry_key(e)
}

/// An entry inserted at `inserted` is still live at `now` under `ttl`.
pub open spec fn live(now: u64, inserted: u64, ttl: u64) -> bool {
    (if now >= inserted {
        now - inserted
    } else {
        0
    }) < ttl
}

/// The entries of `m` still live at `now`.
pub open spec fn live_part(m: Map<u64, Entry>, now: u64, ttl: u64) -> Map<u64, Entry> {
    Map::new(|k: u64| m.dom().contains(k) && live(now, m[k].inserted, ttl), |k: u64| m[k])
}

/// Every entry is filed under its own key, no stamp is above `access`, and no
/// two entries share a stamp.
pub open spec fn stamps_ok(m: Map<u64, Entry>, access: u64) -> bool {
    &&& forall|k: u64| #[trigger] m.dom().contains(k) ==> m[k].key == k && m[k].touched_at <= access
    &&& forall|a: u64, b: u64|
        #[trigger] m.dom().contains(a) && #[trigger] m.dom().contains(b) && a != b ==> m[a].touched_at
            != m[b].touched_at
}

/// `v` is the entry of `m` touched least recently.
pub open spec fn is_lru(m: Map<u64, Entry>, v: u64) -> bool {
    &&& m.dom().contains(v)
    &&& forall|k: u64| #[trigger] m.dom().contains(k) && k != v ==> m[v].touched_at < m[k].touched_at
}

pub struct RecordStore {
    entries: Vec<Entry>,
    capacity: usize,
    ttl: u64,
    clock: u64,
    access: u64,
    hits: u64,
    misses: u64,
    evictions: u64,
}

/// Position of the entry with this key, if any.
fn position(es: &Vec<Entry>, key: u64) -> (r: Option<usize>)
    ensures
        match r {
            Some(i) => i < es@.len() && es@[i as int].key == key,
            None => !has_key(es@, by_key(), key),
        },
{
    let mut i: usize = 0;
    while i < es.len()
        invariant
            i <= es@.len(),
            forall|j: int| 0 <= j < i ==> (#[trigger] es@[j]).key != key,
        decreases es@.len() - i,
    {
        if es[i].key == key {
            return Some(i);
        }
        i = i + 1;
    }
    assert(!has_key(es@, by_key(), key)) by {
        if has_key(es@, by_key(), key) {
            let j = choose|j: int| 0 <= j < es@.len() && by_key()(#[trigger] es@[j]) == key;
            assert(es@[j].key == key);
        }
    }
    None
}

/// The keyed map of a vector with unique keys files each entry under its key.
proof fn lemma_filed(s: Seq<Entry>)
    requires
        keys_unique(s, by_key()),
    ensures
        forall|k: u64| #[trigger] keyed_map(s, by_key()).dom().contains(k) ==> keyed_map(s, by_key())[k].key == k,
{
    assert forall|k: u64| #[trigger] keyed_map(s, by_key()).dom().contains(k) implies keyed_map(
        s,
        by_key(),
    )[k].key == k by {
        let j = choose|j: int| 0 <= j < s.len() && by_key()(#[trigger] s[j]) == k;
        lemma_index_of_key(s, by_key(), j);
    }
}

impl RecordStore {
    /// The stored entries, by key.
    pub closed spec fn spec_map(&self) -> Map<u64, Entry> {
        keyed_map(self.entries@, by_key())
    }

    pub closed spec fn spec_capacity(&self) -> usize {
        self.capacity
    }

    pub closed spec fn spec_ttl(&self) -> u64 {
        self.ttl
    }

    pub closed spec fn spec_clock(&self) -> u64 {
        self.clock
    }

    /// How many accesses (puts and gets) the store has stamped.
    pub closed spec fn spec_access(&self) -> u64 {
        self.access
    }

    /// Hits, misses and evictions so far.
    pub closed spec fn spec_stats(&self) -> (u64, u64, u64) {
        (self.hits, self.misses, self.evictions)
    }

    pub closed spec fn wf(&self) -> bool {
        &&& keys_unique(self.entries@, by_key())
        &&& self.capacity >= 1
        &&& self.entries@.len() <= self.capacity
        &&& stamps_ok(self.spec_map(), self.access)
        &&& self.hits + self.misses + self.evictions <= self.access
    }

    /// The store never holds more entries than its capacity, each filed under
    /// its own key with a stamp of its own.
    pub proof fn lemma_bounded(&self)
        requires
            self.wf(),
        ensures
            self.spec_map().dom().finite(),
            self.spec_map().dom().len() <= self.spec_capacity(),
            self.spec_capacity() >= 1,
            stamps_ok(self.spec_map(), self.spec_access()),
    {
        lemma_keyed_len(self.entries@, by_key());
    }

    /// A store holding at most `capacity` entries (at least one) whose entries
    /// expire `ttl` ticks after insertion (never, for a `ttl` of zero).
    pub fn new(capacity: usize, ttl: u64) -> (s: RecordStore)
        ensures
            s.wf(),
            s.spec_map() == Map::<u64, Entry>::empty(),
            s.spec_capacity() == (if capacity == 0 {
                1
            } else {
                capacity
            }),
            s.spec_ttl() == ttl,
            s.spec_clock() == 0,
            s.spec_access() == 0,
            s.spec_stats() == (0u64, 0u64, 0u64),
    {
        let s = RecordStore {
            entries: Vec::new(),
            capacity: if capacity > 1 {
                capacity
            } else {
                1
            },
            ttl,
            clock: 0,
            access: 0,
            hits: 0,
            misses: 0,
            evictions: 0,
        };
        assert(s.spec_map() =~= Map::<u64, Entry>::empty());
        s
    }

    pub fn len(&self) -> (n: usize)
        requires
            self.wf(),
        ensures
            n == self.spec_map().dom().len(),
    {
        proof {
            lemma_keyed_len(self.entries@, by_key());
        }
        self.entries.len()
    }

    pub fn is_empty(&self) -> (b: bool)
        requires
            self.wf(),
        ensures
            b == (self.spec_map().dom().len() == 0),
    {
        proof {
            lemma_keyed_len(self.entries@, by_key());
        }
        self.entries.len() == 0
    }

    /// `(hits, misses, evictions)`.
    pub fn stats(&self) -> (r: (u64, u64, u64))
        ensures
            r == self.spec_stats(),
    {
        (self.hits, self.misses, self.evictions)
    }

    /// Advance the store's logical clock, expiring stale entries.
    pub fn tick(&mut self, now: u64)
        requires
            old(self).wf(),
        ensures
            final(self).wf(),
            final(self).spec_clock() == now,
            final(self).spec_capacity() == old(self).spec_capacity(),
            final(self).spec_ttl() == old(self).spec_ttl(),
            final(self).spec_access() == old(self).spec_access(),
            final(self).spec_stats() == old(self).spec_stats(),
            final(self).spec_map() == (if old(self).spec_ttl() == 0 {
                old(self).spec_map()
            } else {
                live_part(old(self).spec_map(), now, old(self).spec_ttl())
            }),
    {
        self.clock = now;
        if self.ttl == 0 {
            return;
        }
        let ttl = self.ttl;
        let ghost s = self.entries@;
        let ghost m = self.spec_map();
        let ghost target = live_part(m, now, ttl);
        let mut rest: Vec<Entry> = Vec::new();
        std::mem::swap(&mut rest, &mut self.entries);
        let mut kept: Vec<Entry> = Vec::new();
        proof {
            lemma_filed(s);
            assert(s.take(s.len() as int) =~= s);
            assert(keyed_map(kept@, by_key()) =~= Map::new(
                |k: u64| target.dom().contains(k) && !has_key(rest@, by_key(), k),
                |k: u64| m[k],
            )) by {
                assert forall|k: u64| target.dom().contains(k) implies has_key(rest@, by_key(), k) by {
                    let j = choose|j: int| 0 <= j < s.len() && by_key()(#[trigger] s[j]) == k;
                    assert(by_key()(rest@[j]) == k);
                }
            }
        }
        while rest.len() > 0
            invariant
                keys_unique(s, by_key()),
                m == keyed_map(s, by_key()),
                target == live_part(m, now, ttl),
                forall|k: u64| #[trigger] m.dom().contains(k) ==> m[k].key == k,
                rest@ == s.take(rest@.len() as int),
                rest@.len() <= s.len(),
                kept@.len() + rest@.len() <= s.len(),
                keys_unique(kept@, by_key()),
                keyed_map(kept@, by_key()) == Map::new(
                    |k: u64| target.dom().contains(k) && !has_key(rest@, by_key(), k),
                    |k: u64| m[k],
                ),
            decreases rest@.len(),
        {
            let ghost r0 = rest@;
            let ghost old_map = keyed_map(kept@, by_key());
            let e = rest.pop().unwrap();
            let ghost n = r0.len() - 1;
            proof {
                assert(e == s[n]);
                assert(rest@ =~= s.take(n));
                lemma_index_of_key(s, by_key(), n);
                assert(!has_key(rest@, by_key(), e.key)) by {
                    if has_key(rest@, by_key(), e.key) {
                        let j = choose|j: int| 0 <= j < rest@.len() && by_key()(#[trigger] rest@[j]) == e.key;
                        assert(s[j] == rest@[j]);
                    }
                }
                assert forall|k: u64| k != e.key implies has_key(rest@, by_key(), k) == has_key(r0, by_key(), k) by {
                    if has_key(r0, by_key(), k) {
                        let j = choose|j: int| 0 <= j < r0.len() && by_key()(#[trigger] r0[j]) == k;
                        assert(j < n);
                        assert(rest@[j] == r0[j]);
                    }
                    if has_key(rest@, by_key(), k) {
                        let j = choose|j: int| 0 <= j < rest@.len() && by_key()(#[trigger] rest@[j]) == k;
                        assert(rest@[j] == r0[j]);
                    }
                }
                assert(has_key(r0, by_key(), e.key)) by {
                    assert(by_key()(r0[n]) == e.key);
                }
            }
            let age: u64 = if now >= e.inserted { now - e.inserted } else { 0 };
            if age < ttl {
                proof {
                    assert(!has_key(kept@, by_key(), e.key)) by {
                        assert(!old_map.dom().contains(e.key));
                    }
                    lemma_keyed_push(kept@, by_key(), e);
                }
                kept.push(e);
                proof {
                    assert(keyed_map(kept@, by_key()) =~= Map::new(
                        |k: u64| target.dom().contains(k) && !has_key(rest@, by_key(), k),
                        |k: u64| m[k],
                    ));
                }
            } else {
                proof {
                    assert(old_map =~= Map::new(
                        |k: u64| target.dom().contains(k) && !has_key(rest@, by_key(), k),
                        |k: u64| m[k],
                    ));
                }
            }
        }
        proof {
            assert(keyed_map(kept@, by_key()) =~= target);
        }
        self.entries = kept;
    }

    /// Remove the least recently touched entry and return its key.
    fn evict_lru(&mut self) -> (victim: u64)
        requires
            keys_unique(old(self).entries@, by_key()),
            old(self).entries@.len() >= 1,
            stamps_ok(old(self).spec_map(), old(self).access),
            old(self).evictions < u64::MAX,
        ensures
            keys_unique(final(self).entries@, by_key()),
            final(self).entries@.len() == old(self).entries@.len() - 1,
            is_lru(old(self).spec_map(), victim),
            final(self).spec_map() == old(self).spec_map().remove(victim),
            final(self).capacity == old(self).capacity,
            final(self).ttl == old(self).ttl,
            final(self).clock == old(self).clock,
            final(self).access == old(self).access,
            final(self).hits == old(self).hits,
            final(self).misses == old(self).misses,
            final(self).evictions == old(self).evictions + 1,
    {
        let ghost s = self.entries@;
        let ghost m = self.spec_map();
        let mut best: usize = 0;
        let mut i: usize = 1;
        while i < self.entries.len()
            invariant
                1 <= i <= s.len(),
                self.entries@ == s,
                best < i,
                forall|j: int| 0 <= j < i ==> s[best as int].touched_at <= (#[trigger] s[j]).touched_at,
            decreases s.len() - i,
        {
            if self.entries[i].touched_at < self.entries[best].touched_at {
                best = i;
            }
            i = i + 1;
        }
        let victim = self.entries[best].key;
        proof {
            lemma_index_of_key(s, by_key(), best as int);
            assert forall|k: u64| #[trigger] m.dom().contains(k) && k != victim implies m[victim].touched_at
                < m[k].touched_at by {
                let j = choose|j: int| 0 <= j < s.len() && by_key()(#[trigger] s[j]) == k;
                lemma_index_of_key(s, by_key(), j);
            }
            lemma_keyed_remove(s, by_key(), best as int);
        }
        self.entries.remove(best);
        self.evictions = self.evictions + 1;
        victim
    }

    /// Store `image` under `key`, replacing any previous entry for the key, then
    /// evict the least recently touched entry if the store is over capacity.
    pub fn put(&mut self, key: u64, image: RecordImage)
        requires
            old(self).wf(),
            old(self).spec_access() < u64::MAX,
        ensures
            final(self).wf(),
            final(self).spec_capacity() == old(self).spec_capacity(),
            final(self).spec_ttl() == old(self).spec_ttl(),
            final(self).spec_clock() == old(self).spec_clock(),
            final(self).spec_access() == old(self).spec_access() + 1,
            final(self).spec_stats().0 == old(self).spec_stats().0,
            final(self).spec_stats().1 == old(self).spec_stats().1,
            final(self).spec_map().dom().contains(key),
            final(self).spec_map()[key].image == image,
            ({
                let m1 = old(self).spec_map().insert(
                    key,
                    Entry {
                        key,
                        image,
                        inserted: old(self).spec_clock(),
                        touched_at: (old(self).spec_access() + 1) as u64,
                    },
                );
                if m1.dom().len() <= old(self).spec_capacity() {
                    final(self).spec_map() == m1 && final(self).spec_stats().2 == old(self).spec_stats().2
                } else {
                    exists|v: u64|
                        is_lru(m1, v) && v != key && final(self).spec_map() == m1.remove(v)
                            && final(self).spec_stats().2 == old(self).spec_stats().2 + 1
                }
            }),
    {
        let ghost s = self.entries@;
        let ghost m = self.spec_map();
        proof {
            lemma_filed(s);
        }
        self.access = self.access + 1;
        let stamp = self.access;
        let e = Entry { key, image, inserted: self.clock, touched_at: stamp };
        let ghost ev = e;
        let ghost m1 = m.insert(key, ev);
        match position(&self.entries, key) {
            Some(i) => {
                proof {
                    lemma_keyed_update(s, by_key(), i as int, ev);
                }
                self.entries.set(i, e);
            },
            None => {
                proof {
                    lemma_keyed_push(s, by_key(), ev);
                }
                self.entries.push(e);
            },
        }
        proof {
            lemma_keyed_len(self.entries@, by_key());
            assert(stamps_ok(m1, stamp)) by {
                assert forall|a: u64, b: u64|
                    #[trigger] m1.dom().contains(a) && #[trigger] m1.dom().contains(b) && a != b implies m1[a].touched_at
                    != m1[b].touched_at by {
                    if a != key && b != key {
                        assert(m.dom().contains(a) && m.dom().contains(b));
                    } else if a != key {
                        assert(m.dom().contains(a));
                    } else {
                        assert(m.dom().contains(b));
                    }
                }
            }
        }
        if self.entries.len() > self.capacity {
            let ghost s1 = self.entries@;
            let ghost other: u64 = if s1[0].key != key { s1[0].key } else { s1[1].key };
            proof {
                assert(by_key()(s1[0]) != by_key()(s1[1]));
                if s1[0].key != key {
                    lemma_index_of_key(s1, by_key(), 0);
                } else {
                    lemma_index_of_key(s1, by_key(), 1);
                }
                assert(m1.dom().contains(other) && other != key);
                assert(m.dom().contains(other));
            }
            let victim = self.evict_lru();
            proof {
                lemma_keyed_len(self.entries@, by_key());
            }
        }
    }

    /// Look up `key`, stamping its entry as just used. Every lookup counts as a
    /// hit or a miss.
    pub fn get(&mut self, key: u64) -> (r: Option<&RecordImage>)
        requires
            old(self).wf(),
            old(self).spec_access() < u64::MAX,
        ensures
            final(self).wf(),
            final(self).spec_capacity() == old(self).spec_capacity(),
            final(self).spec_ttl() == old(self).spec_ttl(),
            final(self).spec_clock() == old(self).spec_clock(),
            final(self).spec_access() == old(self).spec_access() + 1,
            final(self).spec_stats().2 == old(self).spec_stats().2,
            match r {
                Some(img) => {
                    &&& old(self).spec_map().dom().contains(key)
                    &&& *img == old(self).spec_map()[key].image
                    &&& final(self).spec_map() == old(self).spec_map().insert(
                        key,
                        Entry { touched_at: (old(self).spec_access() + 1) as u64, ..old(self).spec_map()[key] },
                    )
                    &&& final(self).spec_stats().0 == old(self).spec_stats().0 + 1
                    &&& final(self).spec_stats().1 == old(self).spec_stats().1
                },
                None => {
                    &&& !old(self).spec_map().dom().contains(key)
                    &&& final(self).spec_map() == old(self).spec_map()
                    &&& final(self).spec_stats().0 == old(self).spec_stats().0
                    &&& final(self).spec_stats().1 == old(self).spec_stats().1 + 1
                },
            },
    {
        let ghost s = self.entries@;
        let ghost m = self.spec_map();
        proof {
            lemma_filed(s);
        }
        self.access = self.access + 1;
        let stamp = self.access;
        match position(&self.entries, key) {
            Some(i) => {
                let mut e = self.entries.remove(i);
                e.touched_at = stamp;
                let ghost ev = e;
                self.entries.insert(i, e);
                proof {
                    assert(self.entries@ =~= s.update(i as int, ev));
                    lemma_index_of_key(s, by_key(), i as int);
                    lemma_keyed_update(s, by_key(), i as int, ev);
                    let m1 = self.spec_map();
                    assert(m1 == m.insert(key, ev));
                    assert(stamps_ok(m1, stamp)) by {
                        assert forall|a: u64, b: u64|
                            #[trigger] m1.dom().contains(a) && #[trigger] m1.dom().contains(b) && a != b implies m1[a].touched_at
                            != m1[b].touched_at by {
                            if a != key && b != key {
                                assert(m.dom().contains(a) && m.dom().contains(b));
                            } else if a != key {
                                assert(m.dom().contains(a));
                            } else {
                                assert(m.dom().contains(b));
                            }
                        }
                    }
                }
                self.hits = self.hits + 1;
                Some(&self.entries[i].image)
            },
            None => {
                self.misses = self.misses + 1;
                None
            },
        }
    }

    /// Take the entry for `key` out of the store.
    pub fn remove(&mut self, key: u64) -> (r: Option<RecordImage>)
        requires
            old(self).wf(),
        ensures
            final(self).wf(),
            final(self).spec_capacity() == old(self).spec_capacity(),
            final(self).spec_ttl() == old(self).spec_ttl(),
            final(self).spec_clock() == old(self).spec_clock(),
            final(self).spec_access() == old(self).spec_access(),
            final(self).spec_stats() == old(self).spec_stats(),
            match r {
                Some(img) => old(self).spec_map().dom().contains(key) && img == old(self).spec_map()[key].image
                    && final(self).spec_map() == old(self).spec_map().remove(key),
                None => !old(self).spec_map().dom().contains(key) && final(self).spec_map() == old(self).spec_map(),
            },
    {
        let ghost s = self.entries@;
        proof {
            lemma_filed(s);
        }
        match position(&self.entries, key) {
            Some(i) => {
                proof {
                    lemma_index_of_key(s, by_key(), i as int);
                    lemma_keyed_remove(s, by_key(), i as int);
                }
                let e = self.entries.remove(i);
                Some(e.image)
            },
            None => None,
        }
    }
}

} // verus!
