//! Templates and the template cache.
//!
//! A template is a lightweight, per-session binding of a record layout to an
//! id. Because peers churn through template ids, the cache is bounded and
//! evicts least-recently-used entries. Rather than call back into dependent
//! subsystems (which would tangle borrows), mutating operations *return* the
//! templates they retired so the owning session can notify the flow table and
//! anything else that references them.

use vstd::prelude::*;

use crate::keyed::{has_key, keyed_map, keys_unique, lemma_index_of_key, lemma_keyed_len};
use crate::schema::field::FieldSpec;
use crate::schema::row_width_of;

verus! {

/// A decoded template. `generation` increments each time the same id is
/// redefined so consumers can detect a layout change behind a stable id.
#[derive(Debug, Clone)]
pub struct Template {
    pub id: u16,
    pub schema_id: u16,
    pub generation: u32,
    pub fields: Vec<FieldSpec>,
    /// Cached row stride derived from `fields` at definition time.
    pub row_stride: usize,
    /// Logical clock of last use, for LRU ordering.
    pub last_used: u64,
}

impl Template {
    pub fn new(id: u16, schema_id: u16, fields: Vec<FieldSpec>) -> (t: Template)
        requires
            row_width_of(fields@) <= usize::MAX,
        ensures
            t.id == id,
            t.schema_id == schema_id,
            t.generation == 1,
            t.fields@ == fields@,
            t.row_stride == row_width_of(fields@),
            t.last_used == 0,
    {
        let s = crate::schema::Schema::new(0, 0, fields);
        let row_stride = s.row_width;
        Template { id, schema_id, generation: 1, fields: s.fields, row_stride, last_used: 0 }
    }

    pub fn field_count(&self) -> (n: usize)
        ensures
            n == self.fields@.len(),
    {
        self.fields.len()
    }
}

pub open spec fn tid(t: Template) -> u16 {
    t.id
}

/// `s` without the element equal to `id`, order kept.
pub open spec fn without(s: Seq<u16>, id: u16) -> Seq<u16>
    decreases s.len(),
{
    if s.len() == 0 {
        s
    } else if s.last() == id {
        without(s.drop_last(), id)
    } else {
        without(s.drop_last(), id).push(s.last())
    }
}

pub open spec fn ids_of(ts: Seq<Template>) -> Seq<u16> {
    ts.map_values(|t: Template| t.id)
}

pub open spec fn sat_inc64(n: u64) -> u64 {
    if n == u64::MAX { n } else { (n + 1) as u64 }
}

pub open spec fn sat_inc32(n: u32) -> u32 {
    if n == u32::MAX { n } else { (n + 1) as u32 }
}

proof fn lemma_without_remove(ts: Seq<Template>, p: int)
    requires
        keys_unique(ts, |t: Template| tid(t)),
        0 <= p < ts.len(),
    ensures
        without(ids_of(ts), ts[p].id) == ids_of(ts.remove(p)),
    decreases ts.len(),
{
    let id = ts[p].id;
    let d = ts.drop_last();
    assert(ids_of(ts).drop_last() =~= ids_of(d));
    if p == ts.len() - 1 {
        lemma_without_absent(d, id);
        assert(ts.remove(p) =~= d);
    } else {
        assert(keys_unique(d, |t: Template| tid(t))) by {
            assert forall|i: int, j: int| 0 <= i < d.len() && 0 <= j < d.len() && i != j implies tid(#[trigger] d[i]) != tid(#[trigger] d[j]) by {
                assert(d[i] == ts[i] && d[j] == ts[j]);
            }
        }
        assert(d[p] == ts[p]);
        lemma_without_remove(d, p);
        assert(ts.last().id != id) by {
            assert(tid(ts[ts.len() - 1]) != tid(ts[p]));
        }
        assert(ids_of(ts.remove(p)) =~= ids_of(d.remove(p)).push(ts.last().id));
    }
}

proof fn lemma_without_absent(ts: Seq<Template>, id: u16)
    requires
        forall|i: int| 0 <= i < ts.len() ==> (#[trigger] ts[i]).id != id,
    ensures
        without(ids_of(ts), id) == ids_of(ts),
    decreases ts.len(),
{
    if ts.len() > 0 {
        let d = ts.drop_last();
        assert(ids_of(ts).drop_last() =~= ids_of(d));
        assert forall|i: int| 0 <= i < d.len() implies (#[trigger] d[i]).id != id by {
            assert(d[i] == ts[i]);
        }
        lemma_without_absent(d, id);
        assert(ids_of(ts) =~= ids_of(d).push(ts.last().id));
    }
}

/// Templates by id.
pub open spec fn tmap(s: Seq<Template>) -> Map<u16, Template> {
    keyed_map(s, |t: Template| tid(t))
}

/// The entries left after taking out the one at `p` (none when `p < 0`).
pub open spec fn rest_after(old: Seq<Template>, p: int) -> Seq<Template> {
    if p >= 0 { old.remove(p) } else { old }
}

/// Putting `t` in front of what is left of `old` once its entry with `t`'s id
/// (at `p`, if any) is taken out, and keeping the first `k`, gives a keyed
/// sequence holding `t` and otherwise only entries of `old`.
proof fn lemma_front(old: Seq<Template>, p: int, t: Template, k: int)
    requires
        keys_unique(old, |x: Template| tid(x)),
        -1 <= p < old.len(),
        p >= 0 ==> old[p].id == t.id,
        p < 0 ==> !has_key(old, |x: Template| tid(x), t.id),
        1 <= k <= 1 + rest_after(old, p).len(),
    ensures
        ({
            let rest = rest_after(old, p);
            let fin = (seq![t] + rest).take(k);
            &&& keys_unique(fin, |x: Template| tid(x))
            &&& tmap(fin).dom().contains(t.id)
            &&& tmap(fin)[t.id] == t
            &&& forall|x: u16| x != t.id && #[trigger] tmap(fin).dom().contains(x)
                ==> tmap(old).dom().contains(x) && tmap(fin)[x]
                == tmap(old)[x]
            &&& k == 1 + rest.len() ==> forall|x: u16| x != t.id && #[trigger] tmap(old).dom().contains(x)
                ==> tmap(fin).dom().contains(x)
            &&& ids_of(rest) == without(ids_of(old), t.id)
            &&& ids_of(fin) == (seq![t.id] + ids_of(rest)).take(k)
        }),
{
    let key = |x: Template| tid(x);
    let rest = rest_after(old, p);
    let full = seq![t] + rest;
    let fin = full.take(k);
    let src = |i: int| if p >= 0 && i >= p { i + 1 } else { i };
    assert forall|i: int| 0 <= i < rest.len() implies #[trigger] rest[i] == old[src(i)] && 0 <= src(i) < old.len() by {
    }
    assert forall|i: int| 0 <= i < rest.len() implies (#[trigger] rest[i]).id != t.id by {
        assert(rest[i] == old[src(i)]);
        if p >= 0 {
            assert(src(i) != p);
            assert(tid(old[src(i)]) != tid(old[p]));
        } else {
            if old[src(i)].id == t.id {
                assert(key(old[src(i)]) == t.id);
            }
        }
    }
    assert forall|i: int, j: int| 0 <= i < fin.len() && 0 <= j < fin.len() && i != j implies key(#[trigger] fin[i]) != key(#[trigger] fin[j]) by {
        if i == 0 {
            assert(fin[j] == rest[j - 1]);
        } else if j == 0 {
            assert(fin[i] == rest[i - 1]);
        } else {
            assert(fin[i] == old[src(i - 1)] && fin[j] == old[src(j - 1)]);
            assert(src(i - 1) != src(j - 1));
        }
    }
    assert(fin[0] == t);
    lemma_index_of_key(fin, key, 0);
    assert forall|x: u16| x != t.id && #[trigger] tmap(fin).dom().contains(x) implies tmap(old).dom().contains(x)
        && tmap(fin)[x] == tmap(old)[x] by {
        let j = choose|j: int| 0 <= j < fin.len() && key(#[trigger] fin[j]) == x;
        assert(j != 0);
        assert(fin[j] == old[src(j - 1)]);
        lemma_index_of_key(fin, key, j);
        lemma_index_of_key(old, key, src(j - 1));
    }
    if k == 1 + rest.len() {
        assert forall|x: u16| x != t.id && #[trigger] tmap(old).dom().contains(x) implies tmap(fin).dom().contains(x) by {
            let q = choose|q: int| 0 <= q < old.len() && key(#[trigger] old[q]) == x;
            assert(q != p);
            let i = if p >= 0 && q > p { q - 1 } else { q };
            assert(src(i) == q);
            assert(fin[i + 1] == rest[i]);
            assert(key(fin[i + 1]) == x);
        }
    }
    if p >= 0 {
        lemma_without_remove(old, p);
    } else {
        assert forall|i: int| 0 <= i < old.len() implies (#[trigger] old[i]).id != t.id by {
            if old[i].id == t.id {
                assert(key(old[i]) == t.id);
            }
        }
        lemma_without_absent(old, t.id);
    }
    assert(ids_of(fin) =~= (seq![t.id] + ids_of(rest)).take(k));
}

/// A bounded, LRU template store keyed by template id. The entries are kept
/// in most-recently-used-first order.
pub struct TemplateCache {
    entries: Vec<Template>,
    capacity: usize,
    clock: u64,
    evictions: u64,
}

impl TemplateCache {
    pub closed spec fn wf(&self) -> bool {
        &&& keys_unique(self.entries@, |t: Template| tid(t))
        &&& self.entries@.len() <= self.capacity
        &&& self.capacity >= 1
    }

    /// The cached templates, by id.
    pub closed spec fn spec_templates(&self) -> Map<u16, Template> {
        tmap(self.entries@)
    }

    /// Template ids, most recently used first.
    pub closed spec fn order(&self) -> Seq<u16> {
        ids_of(self.entries@)
    }

    pub closed spec fn spec_capacity(&self) -> nat {
        self.capacity as nat
    }

    /// The cached ids are exactly the ids of the recency order, each listed
    /// once.
    pub proof fn lemma_order_is_domain(&self)
        requires
            self.wf(),
        ensures
            self.spec_templates().dom() == self.order().to_set(),
            self.order().no_duplicates(),
    {
        let es = self.entries@;
        let o = self.order();
        assert forall|x: u16| self.spec_templates().dom().contains(x) <==> o.to_set().contains(x) by {
            if self.spec_templates().dom().contains(x) {
                let i = choose|i: int| 0 <= i < es.len() && tid(#[trigger] es[i]) == x;
                assert(o[i] == x);
            }
            if o.contains(x) {
                let i = choose|i: int| 0 <= i < o.len() && o[i] == x;
                assert(tid(es[i]) == x);
            }
        }
        assert(self.spec_templates().dom() =~= o.to_set());
        assert forall|i: int, j: int| 0 <= i < o.len() && 0 <= j < o.len() && i != j implies o[i] != o[j] by {
            assert(tid(es[i]) != tid(es[j]));
        }
    }

    pub closed spec fn spec_clock(&self) -> u64 {
        self.clock
    }

    pub closed spec fn spec_evictions(&self) -> u64 {
        self.evictions
    }

    pub fn new(capacity: usize) -> (c: TemplateCache)
        ensures
            c.wf(),
            c.spec_templates() == Map::<u16, Template>::empty(),
            c.order() == Seq::<u16>::empty(),
            c.spec_capacity() == (if capacity < 1 { 1 } else { capacity as nat }),
            c.spec_clock() == 0,
            c.spec_evictions() == 0,
    {
        let c = TemplateCache { entries: Vec::new(), capacity: if capacity < 1 { 1 } else { capacity }, clock: 0, evictions: 0 };
        assert(c.spec_templates() =~= Map::<u16, Template>::empty());
        assert(c.order() =~= Seq::<u16>::empty());
        c
    }

    pub fn len(&self) -> (n: usize)
        requires
            self.wf(),
        ensures
            n == self.spec_templates().len(),
            n == self.order().len(),
    {
        proof {
            lemma_keyed_len(self.entries@, |t: Template| tid(t));
        }
        self.entries.len()
    }

    pub fn is_empty(&self) -> (b: bool)
        requires
            self.wf(),
        ensures
            b == (self.spec_templates().len() == 0),
    {
        proof {
            lemma_keyed_len(self.entries@, |t: Template| tid(t));
        }
        self.entries.len() == 0
    }

    /// Number of templates evicted for capacity (saturating).
    pub fn evictions(&self) -> (n: u64)
        ensures
            n == self.spec_evictions(),
    {
        self.evictions
    }

    fn position(&self, id: u16) -> (r: Option<usize>)
        requires
            self.wf(),
        ensures
            match r {
                Some(i) => i < self.entries@.len() && self.entries@[i as int].id == id,
                None => !has_key(self.entries@, |t: Template| tid(t), id),
            },
    {
        let mut i: usize = 0;
        while i < self.entries.len()
            invariant
                i <= self.entries@.len(),
                forall|j: int| 0 <= j < i ==> (#[trigger] self.entries@[j]).id != id,
            decreases self.entries@.len() - i,
        {
            if self.entries[i].id == id {
                return Some(i);
            }
            i = i + 1;
        }
        None
    }

    /// Define or redefine a template. A redefinition carries the generation
    /// forward (one more than the replaced entry's) and replaces the entry;
    /// either way the template becomes the most recently used, stamped with
    /// the advanced clock. Returns the ids of any templates evicted to make
    /// room (at most one: the least recently used), so the caller can drop
    /// dependent references.
    pub fn define(&mut self, tmpl: Template) -> (evicted: Vec<u16>)
        requires
            old(self).wf(),
        ensures
            final(self).spec_templates().dom() == final(self).order().to_set(),
            final(self).wf(),
            final(self).spec_capacity() == old(self).spec_capacity(),
            final(self).spec_clock() == sat_inc64(old(self).spec_clock()),
            ({
                let full = seq![tmpl.id] + without(old(self).order(), tmpl.id);
                let over = full.len() > old(self).spec_capacity();
                &&& final(self).order() == (if over { full.drop_last() } else { full })
                &&& evicted@ == (if over { seq![full.last()] } else { Seq::<u16>::empty() })
                &&& final(self).spec_evictions() == (if over {
                    sat_inc64(old(self).spec_evictions())
                } else {
                    old(self).spec_evictions()
                })
            }),
            final(self).spec_templates().dom().contains(tmpl.id),
            ({
                let t = final(self).spec_templates()[tmpl.id];
                &&& t.id == tmpl.id
                &&& t.schema_id == tmpl.schema_id
                &&& t.fields == tmpl.fields
                &&& t.row_stride == tmpl.row_stride
                &&& t.last_used == final(self).spec_clock()
                &&& t.generation == (if old(self).spec_templates().dom().contains(tmpl.id) {
                    sat_inc32(old(self).spec_templates()[tmpl.id].generation)
                } else {
                    tmpl.generation
                })
            }),
            forall|x: u16| x != tmpl.id && #[trigger] final(self).spec_templates().dom().contains(x)
                ==> old(self).spec_templates().dom().contains(x) && final(self).spec_templates()[x]
                == old(self).spec_templates()[x],
    {
        let mut tmpl = tmpl;
        self.clock = if self.clock == u64::MAX { u64::MAX } else { self.clock + 1 };
        tmpl.last_used = self.clock;
        let ghost old_entries = self.entries@;
        let ghost mut p: int = -1;
        match self.position(tmpl.id) {
            Some(i) => {
                proof {
                    lemma_index_of_key(old_entries, |t: Template| tid(t), i as int);
                    p = i as int;
                }
                let g = self.entries[i].generation;
                tmpl.generation = if g == u32::MAX { u32::MAX } else { g + 1 };
                self.entries.remove(i);
            },
            None => {},
        }
        assert(self.entries@ == rest_after(old_entries, p));
        self.entries.insert(0, tmpl);
        let ghost full = self.entries@;
        assert(full =~= seq![tmpl] + rest_after(old_entries, p));
        let mut evicted: Vec<u16> = Vec::new();
        if self.entries.len() > self.capacity {
            let victim = self.entries.pop();
            match victim {
                Some(v) => {
                    evicted.push(v.id);
                    self.evictions = if self.evictions == u64::MAX { u64::MAX } else { self.evictions + 1 };
                },
                None => {},
            }
        }
        proof {
            let k = self.entries@.len() as int;
            assert(self.entries@ =~= full.take(k));
            lemma_front(old_entries, p, tmpl, k);
            lemma_front(old_entries, p, tmpl, full.len() as int);
            assert(ids_of(full) =~= seq![tmpl.id] + ids_of(rest_after(old_entries, p)));
            assert(full.take(full.len() as int) =~= full);
            if full.len() > self.capacity {
                assert(ids_of(full).last() == full.last().id);
                assert(ids_of(full).drop_last() =~= ids_of(full).take(k));
            }
        }
        proof {
            self.lemma_order_is_domain();
        }
        evicted
    }

    /// Look up a template, marking it most-recently-used and stamping it with
    /// the advanced clock.
    pub fn get(&mut self, id: u16) -> (r: Option<&Template>)
        requires
            old(self).wf(),
        ensures
            final(self).spec_templates().dom() == final(self).order().to_set(),
            final(self).wf(),
            final(self).spec_capacity() == old(self).spec_capacity(),
            final(self).spec_evictions() == old(self).spec_evictions(),
            !old(self).spec_templates().dom().contains(id) ==> r is None && *final(self) == *old(self),
            old(self).spec_templates().dom().contains(id) ==> {
                &&& final(self).spec_clock() == sat_inc64(old(self).spec_clock())
                &&& final(self).order() == seq![id] + without(old(self).order(), id)
                &&& final(self).spec_templates().dom() == old(self).spec_templates().dom()
                &&& forall|x: u16| x != id && #[trigger] final(self).spec_templates().dom().contains(x)
                    ==> final(self).spec_templates()[x] == old(self).spec_templates()[x]
                &&& r is Some
                &&& *r->Some_0 == final(self).spec_templates()[id]
                &&& t_refreshed(*r->Some_0, old(self).spec_templates()[id], final(self).spec_clock())
            },
    {
        match self.position(id) {
            Some(i) => {
                let ghost old_entries = self.entries@;
                proof {
                    lemma_index_of_key(old_entries, |t: Template| tid(t), i as int);
                }
                self.clock = if self.clock == u64::MAX { u64::MAX } else { self.clock + 1 };
                let mut t = self.entries.remove(i);
                t.last_used = self.clock;
                let ghost tt = t;
                self.entries.insert(0, t);
                proof {
                    let full = self.entries@;
                    assert(full =~= seq![tt] + rest_after(old_entries, i as int));
                    lemma_front(old_entries, i as int, tt, full.len() as int);
                    assert(full.take(full.len() as int) =~= full);
                    assert forall|x: u16| tmap(full).dom().contains(x) <==> tmap(old_entries).dom().contains(x) by {
                        if x != id {
                            if tmap(full).dom().contains(x) {
                                assert(tmap(old_entries).dom().contains(x));
                            }
                            if tmap(old_entries).dom().contains(x) {
                                assert(tmap(full).dom().contains(x));
                            }
                        }
                    }
                    assert(tmap(full).dom() =~= tmap(old_entries).dom());
                    self.lemma_order_is_domain();
                }
                Some(&self.entries[0])
            },
            None => {
                proof {
                    self.lemma_order_is_domain();
                }
                None
            },
        }
    }

    /// Look up without disturbing LRU order.
    pub fn peek(&self, id: u16) -> (r: Option<&Template>)
        requires
            self.wf(),
        ensures
            match r {
                Some(t) => self.spec_templates().dom().contains(id) && *t == self.spec_templates()[id],
                None => !self.spec_templates().dom().contains(id),
            },
    {
        match self.position(id) {
            Some(i) => {
                proof {
                    lemma_index_of_key(self.entries@, |t: Template| tid(t), i as int);
                }
                Some(&self.entries[i])
            },
            None => None,
        }
    }

    /// Explicitly withdraw a template. Returns whether it existed.
    pub fn withdraw(&mut self, id: u16) -> (b: bool)
        requires
            old(self).wf(),
        ensures
            final(self).wf(),
            b == old(self).spec_templates().dom().contains(id),
            final(self).spec_templates() == old(self).spec_templates().remove(id),
            final(self).order() == without(old(self).order(), id),
            final(self).spec_capacity() == old(self).spec_capacity(),
            final(self).spec_clock() == old(self).spec_clock(),
            final(self).spec_evictions() == old(self).spec_evictions(),
    {
        let ghost old_entries = self.entries@;
        match self.position(id) {
            Some(i) => {
                proof {
                    lemma_index_of_key(old_entries, |t: Template| tid(t), i as int);
                    crate::keyed::lemma_keyed_remove(old_entries, |t: Template| tid(t), i as int);
                    lemma_without_remove(old_entries, i as int);
                }
                self.entries.remove(i);
                true
            },
            None => {
                proof {
                    assert forall|i: int| 0 <= i < old_entries.len() implies (#[trigger] old_entries[i]).id != id by {
                        if old_entries[i].id == id {
                            assert(tid(old_entries[i]) == id);
                        }
                    }
                    lemma_without_absent(old_entries, id);
                    assert(old(self).spec_templates().remove(id) =~= old(self).spec_templates());
                }
                false
            },
        }
    }
}

/// `t` is `o` with only its last-use stamp changed, to `clock`.
pub open spec fn t_refreshed(t: Template, o: Template, clock: u64) -> bool {
    &&& t.id == o.id
    &&& t.schema_id == o.schema_id
    &&& t.generation == o.generation
    &&& t.fields == o.fields
    &&& t.row_stride == o.row_stride
    &&& t.last_used == clock
}

} // verus!
