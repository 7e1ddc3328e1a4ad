//! Sequences of records keyed by an id, viewed as maps.
//!
//! Several registries keep their entries in a vector with no two entries
//! sharing an id; their contracts speak of the map from id to entry. These
//! lemmas relate the vector operations (replace, append, remove) to the map
//! operations (insert, remove).

use vstd::prelude::*;

verus! {

pub open spec fn has_key<T, K>(s: Seq<T>, key: spec_fn(T) -> K, id: K) -> bool {
    exists|i: int| 0 <= i < s.len() && key(#[trigger] s[i]) == id
}

pub open spec fn index_of_key<T, K>(s: Seq<T>, key: spec_fn(T) -> K, id: K) -> int {
    choose|i: int| 0 <= i < s.len() && key(#[trigger] s[i]) == id
}

/// No two entries share an id.
pub open spec fn keys_unique<T, K>(s: Seq<T>, key: spec_fn(T) -> K) -> bool {
    forall|i: int, j: int| 0 <= i < s.len() && 0 <= j < s.len() && i != j ==> key(#[trigger] s[i]) != key(#[trigger] s[j])
}

/// The entries as a map from id.
pub open spec fn keyed_map<T, K>(s: Seq<T>, key: spec_fn(T) -> K) -> Map<K, T> {
    Map::new(|id: K| has_key(s, key, id), |id: K| s[index_of_key(s, key, id)])
}

pub proof fn lemma_index_of_key<T, K>(s: Seq<T>, key: spec_fn(T) -> K, i: int)
    requires
        keys_unique(s, key),
        0 <= i < s.len(),
    ensures
        has_key(s, key, key(s[i])),
        index_of_key(s, key, key(s[i])) == i,
        keyed_map(s, key).dom().contains(key(s[i])),
        keyed_map(s, key)[key(s[i])] == s[i],
{
    assert(has_key(s, key, key(s[i])));
}

/// The map has exactly as many entries as the sequence.
pub proof fn lemma_keyed_len<T, K>(s: Seq<T>, key: spec_fn(T) -> K)
    requires
        keys_unique(s, key),
    ensures
        keyed_map(s, key).dom().finite(),
        keyed_map(s, key).dom().len() == s.len(),
    decreases s.len(),
{
    let m = keyed_map(s, key);
    if s.len() == 0 {
        assert(m.dom() =~= Set::<K>::empty());
    } else {
        let d = s.drop_last();
        assert(keys_unique(d, key)) by {
            assert forall|i: int, j: int| 0 <= i < d.len() && 0 <= j < d.len() && i != j implies key(#[trigger] d[i]) != key(#[trigger] d[j]) by {
                assert(d[i] == s[i] && d[j] == s[j]);
            }
        }
        lemma_keyed_len(d, key);
        let last = key(s.last());
        assert(m.dom() =~= keyed_map(d, key).dom().insert(last)) by {
            assert forall|id: K| m.dom().contains(id) <==> keyed_map(d, key).dom().insert(last).contains(id) by {
                if has_key(s, key, id) && id != last {
                    let i = choose|i: int| 0 <= i < s.len() && key(#[trigger] s[i]) == id;
                    assert(d[i] == s[i]);
                }
                if has_key(d, key, id) {
                    let i = choose|i: int| 0 <= i < d.len() && key(#[trigger] d[i]) == id;
                    assert(d[i] == s[i]);
                }
                if id == last {
                    assert(key(s[s.len() - 1]) == last);
                }
            }
        }
        assert(!keyed_map(d, key).dom().contains(last)) by {
            if has_key(d, key, last) {
                let i = choose|i: int| 0 <= i < d.len() && key(#[trigger] d[i]) == last;
                assert(d[i] == s[i]);
                assert(key(s[s.len() - 1]) == last);
            }
        }
    }
}

/// Replacing entry `i` by one with the same id updates the map at that id.
pub proof fn lemma_keyed_update<T, K>(s: Seq<T>, key: spec_fn(T) -> K, i: int, v: T)
    requires
        keys_unique(s, key),
        0 <= i < s.len(),
        key(v) == key(s[i]),
    ensures
        keys_unique(s.update(i, v), key),
        keyed_map(s.update(i, v), key) == keyed_map(s, key).insert(key(v), v),
{
    let t = s.update(i, v);
    assert forall|a: int, b: int| 0 <= a < t.len() && 0 <= b < t.len() && a != b implies key(#[trigger] t[a]) != key(#[trigger] t[b]) by {
        assert(key(t[a]) == key(s[a]) && key(t[b]) == key(s[b]));
    }
    let m1 = keyed_map(t, key);
    let m2 = keyed_map(s, key).insert(key(v), v);
    assert forall|id: K| m1.dom().contains(id) <==> m2.dom().contains(id) by {
        if has_key(t, key, id) {
            let j = choose|j: int| 0 <= j < t.len() && key(#[trigger] t[j]) == id;
            assert(key(s[j]) == id);
        }
        if has_key(s, key, id) {
            let j = choose|j: int| 0 <= j < s.len() && key(#[trigger] s[j]) == id;
            assert(key(t[j]) == id);
        }
        if id == key(v) {
            assert(key(t[i]) == id);
        }
    }
    assert forall|id: K| #[trigger] m1.dom().contains(id) implies m1[id] == m2[id] by {
        let j = choose|j: int| 0 <= j < t.len() && key(#[trigger] t[j]) == id;
        lemma_index_of_key(t, key, j);
        if j != i {
            assert(t[j] == s[j]);
            lemma_index_of_key(s, key, j);
        }
    }
    assert(m1 =~= m2);
}

/// Appending an entry with a fresh id adds it to the map.
pub proof fn lemma_keyed_push<T, K>(s: Seq<T>, key: spec_fn(T) -> K, v: T)
    requires
        keys_unique(s, key),
        !has_key(s, key, key(v)),
    ensures
        keys_unique(s.push(v), key),
        keyed_map(s.push(v), key) == keyed_map(s, key).insert(key(v), v),
{
    let t = s.push(v);
    assert forall|a: int, b: int| 0 <= a < t.len() && 0 <= b < t.len() && a != b implies key(#[trigger] t[a]) != key(#[trigger] t[b]) by {
        if a < s.len() && b < s.len() {
            assert(t[a] == s[a] && t[b] == s[b]);
        } else if a < s.len() {
            assert(t[a] == s[a]);
        } else {
            assert(t[b] == s[b]);
        }
    }
    let m1 = keyed_map(t, key);
    let m2 = keyed_map(s, key).insert(key(v), v);
    assert forall|id: K| m1.dom().contains(id) <==> m2.dom().contains(id) by {
        if has_key(t, key, id) {
            let j = choose|j: int| 0 <= j < t.len() && key(#[trigger] t[j]) == id;
            if j < s.len() {
                assert(t[j] == s[j]);
            }
        }
        if has_key(s, key, id) {
            let j = choose|j: int| 0 <= j < s.len() && key(#[trigger] s[j]) == id;
            assert(t[j] == s[j]);
        }
        if id == key(v) {
            assert(key(t[s.len() as int]) == id);
        }
    }
    assert forall|id: K| #[trigger] m1.dom().contains(id) implies m1[id] == m2[id] by {
        let j = choose|j: int| 0 <= j < t.len() && key(#[trigger] t[j]) == id;
        lemma_index_of_key(t, key, j);
        if j < s.len() {
            assert(t[j] == s[j]);
            lemma_index_of_key(s, key, j);
        }
    }
    assert(m1 =~= m2);
}

/// Removing entry `i` removes its id from the map.
pub proof fn lemma_keyed_remove<T, K>(s: Seq<T>, key: spec_fn(T) -> K, i: int)
    requires
        keys_unique(s, key),
        0 <= i < s.len(),
    ensures
        keys_unique(s.remove(i), key),
        keyed_map(s.remove(i), key) == keyed_map(s, key).remove(key(s[i])),
{
    let t = s.remove(i);
    let src = |a: int| if a < i { a } else { a + 1 };
    assert forall|a: int, b: int| 0 <= a < t.len() && 0 <= b < t.len() && a != b implies key(#[trigger] t[a]) != key(#[trigger] t[b]) by {
        assert(t[a] == s[src(a)] && t[b] == s[src(b)]);
    }
    let m1 = keyed_map(t, key);
    let m2 = keyed_map(s, key).remove(key(s[i]));
    assert forall|id: K| m1.dom().contains(id) <==> m2.dom().contains(id) by {
        if has_key(t, key, id) {
            let j = choose|j: int| 0 <= j < t.len() && key(#[trigger] t[j]) == id;
            assert(t[j] == s[src(j)]);
        }
        if has_key(s, key, id) && id != key(s[i]) {
            let j = choose|j: int| 0 <= j < s.len() && key(#[trigger] s[j]) == id;
            assert(j != i);
            if j < i {
                assert(t[j] == s[j]);
            } else {
                assert(t[j - 1] == s[j]);
            }
        }
    }
    assert forall|id: K| #[trigger] m1.dom().contains(id) implies m1[id] == m2[id] by {
        let j = choose|j: int| 0 <= j < t.len() && key(#[trigger] t[j]) == id;
        lemma_index_of_key(t, key, j);
        assert(t[j] == s[src(j)]);
        lemma_index_of_key(s, key, src(j));
    }
    assert(m1 =~= m2);
}

} // verus!
