//! The schema registry: define, update and resolve schemas by id.
//!
//! Schemas are versioned. `SCHEMA_DEF` installs a new schema (version 1);
//! `SCHEMA_UPDATE` bumps the version and replaces the field list. Consumers
//! that cache anything derived from a schema (row widths, field offsets) must
//! re-read it after an update — the registry exposes the current version so
//! they can tell when their cache is stale.

use vstd::prelude::*;

use crate::error::{Error, Kind};
use crate::keyed::{
    has_key, keyed_map, keys_unique, lemma_index_of_key, lemma_keyed_len, lemma_keyed_push,
    lemma_keyed_remove, lemma_keyed_update,
};
use crate::schema::field::FieldSpec;
use crate::schema::{lemma_row_width_bound, row_width_of, schema_of, Schema};

verus! {

pub open spec fn schema_id(s: Schema) -> u16 {
    s.id
}

pub open spec fn sat_inc(n: u64) -> u64 {
    if n == u64::MAX { n } else { (n + 1) as u64 }
}

pub struct SchemaRegistry {
    schemas: Vec<Schema>,
    /// Interned column names, deduplicated across schemas.
    name_pool: Vec<String>,
    defines: u64,
    updates: u64,
}

/// Position of the schema with this id, if any.
fn position(ss: &Vec<Schema>, id: u16) -> (r: Option<usize>)
    requires
        keys_unique(ss@, |s: Schema| schema_id(s)),
    ensures
        match r {
            Some(i) => i < ss@.len() && ss@[i as int].id == id,
            None => !has_key(ss@, |s: Schema| schema_id(s), id),
        },
{
    let mut i: usize = 0;
    while i < ss.len()
        invariant
            i <= ss@.len(),
            forall|j: int| 0 <= j < i ==> (#[trigger] ss@[j]).id != id,
        decreases ss@.len() - i,
    {
        if ss[i].id == id {
            return Some(i);
        }
        i = i + 1;
    }
    None
}

impl SchemaRegistry {
    pub closed spec fn wf(&self) -> bool {
        keys_unique(self.schemas@, |s: Schema| schema_id(s))
    }

    /// The installed schemas, by id.
    pub closed spec fn spec_schemas(&self) -> Map<u16, Schema> {
        keyed_map(self.schemas@, |s: Schema| schema_id(s))
    }

    /// The interned names, by index.
    pub closed spec fn spec_names(&self) -> Seq<Seq<char>> {
        self.name_pool@.map_values(|s: String| s@)
    }

    pub closed spec fn spec_stats(&self) -> (u64, u64) {
        (self.defines, self.updates)
    }

    pub fn new() -> (r: SchemaRegistry)
        ensures
            r.wf(),
            r.spec_schemas() == Map::<u16, Schema>::empty(),
            r.spec_names() == Seq::<Seq<char>>::empty(),
            r.spec_stats() == (0u64, 0u64),
    {
        let r = SchemaRegistry { schemas: Vec::new(), name_pool: Vec::new(), defines: 0, updates: 0 };
        assert(r.spec_schemas() =~= Map::<u16, Schema>::empty());
        assert(r.spec_names() =~= Seq::<Seq<char>>::empty());
        r
    }

    pub fn len(&self) -> (n: usize)
        requires
            self.wf(),
        ensures
            n == self.spec_schemas().len(),
    {
        proof {
            lemma_keyed_len(self.schemas@, |s: Schema| schema_id(s));
        }
        self.schemas.len()
    }

    pub fn is_empty(&self) -> (b: bool)
        requires
            self.wf(),
        ensures
            b == (self.spec_schemas().len() == 0),
    {
        proof {
            lemma_keyed_len(self.schemas@, |s: Schema| schema_id(s));
        }
        self.schemas.len() == 0
    }

    /// Number of definitions and updates performed (saturating).
    pub fn stats(&self) -> (r: (u64, u64))
        ensures
            r == self.spec_stats(),
    {
        (self.defines, self.updates)
    }

    /// Intern a column name, returning a stable index into the name pool:
    /// the index of an equal name interned before, or a fresh one.
    pub fn intern(&mut self, name: &str) -> (idx: u32)
        requires
            old(self).spec_names().len() < u32::MAX,
        ensures
            final(self).wf() == old(self).wf(),
            final(self).spec_schemas() == old(self).spec_schemas(),
            final(self).spec_stats() == old(self).spec_stats(),
            (exists|i: int| 0 <= i < old(self).spec_names().len() && old(self).spec_names()[i] == name@) ==> {
                &&& final(self).spec_names() == old(self).spec_names()
                &&& idx < old(self).spec_names().len()
                &&& old(self).spec_names()[idx as int] == name@
                &&& forall|i: int| 0 <= i < idx ==> old(self).spec_names()[i] != name@
            },
            !(exists|i: int| 0 <= i < old(self).spec_names().len() && old(self).spec_names()[i] == name@) ==> {
                &&& final(self).spec_names() == old(self).spec_names().push(name@)
                &&& idx == old(self).spec_names().len()
            },
    {
        let owned = name.to_owned();
        let mut i: usize = 0;
        while i < self.name_pool.len()
            invariant
                i <= self.name_pool@.len(),
                owned@ == name@,
                *self == *old(self),
                self.spec_names().len() < u32::MAX,
                forall|j: int| 0 <= j < i ==> self.spec_names()[j] != name@,
            decreases self.name_pool@.len() - i,
        {
            if self.name_pool[i] == owned {
                assert(self.spec_names()[i as int] == name@);
                return i as u32;
            }
            i = i + 1;
        }
        let idx = self.name_pool.len() as u32;
        let ghost before = self.spec_names();
        self.name_pool.push(owned);
        assert(self.spec_names() =~= before.push(name@));
        idx
    }

    pub fn resolve_name(&self, idx: u32) -> (r: Option<&str>)
        ensures
            match r {
                Some(s) => idx < self.spec_names().len() && s@ == self.spec_names()[idx as int],
                None => idx >= self.spec_names().len(),
            },
    {
        if (idx as usize) < self.name_pool.len() {
            Some(self.name_pool[idx as usize].as_str())
        } else {
            None
        }
    }

    /// Install a fresh schema at version 1, replacing any prior definition.
    pub fn define(&mut self, id: u16, fields: Vec<FieldSpec>) -> (res: Result<u16, Error>)
        requires
            old(self).wf(),
        ensures
            final(self).wf(),
            final(self).spec_names() == old(self).spec_names(),
            fields@.len() == 0 ==> res is Err && res->Err_0.kind == Kind::Malformed && *final(self) == *old(self),
            fields@.len() > 4096 ==> res is Err && res->Err_0.kind == Kind::Limit && *final(self) == *old(self),
            0 < fields@.len() <= 4096 ==> {
                &&& res == Ok::<u16, Error>(1)
                &&& final(self).spec_schemas().dom() == old(self).spec_schemas().dom().insert(id)
                &&& forall|x: u16| x != id && #[trigger] old(self).spec_schemas().dom().contains(x)
                    ==> final(self).spec_schemas()[x] == old(self).spec_schemas()[x]
                &&& schema_of(final(self).spec_schemas()[id], id, 1, fields@)
                &&& final(self).spec_stats() == (sat_inc(old(self).spec_stats().0), old(self).spec_stats().1)
            },
    {
        if fields.len() == 0 {
            return Err(Error::malformed("schema with no fields"));
        }
        if fields.len() > 4096 {
            return Err(Error::limit("too many fields"));
        }
        proof {
            lemma_row_width_bound(fields@);
        }
        let schema = Schema::new(id, 1, fields);
        let ghost s = schema;
        self.install(schema);
        self.defines = if self.defines == u64::MAX { u64::MAX } else { self.defines + 1 };
        Ok(1)
    }

    /// Replace or add the schema with `schema`'s id.
    fn install(&mut self, schema: Schema)
        requires
            old(self).wf(),
        ensures
            final(self).wf(),
            final(self).spec_names() == old(self).spec_names(),
            final(self).spec_stats() == old(self).spec_stats(),
            final(self).spec_schemas() == old(self).spec_schemas().insert(schema.id, schema),
    {
        let ghost ss = self.schemas@;
        let ghost k = |s: Schema| schema_id(s);
        match position(&self.schemas, schema.id) {
            Some(i) => {
                proof {
                    lemma_keyed_update(ss, k, i as int, schema);
                }
                self.schemas.set(i, schema);
            },
            None => {
                proof {
                    lemma_keyed_push(ss, k, schema);
                }
                self.schemas.push(schema);
            },
        }
    }

    /// Update an existing schema, bumping its version (wrapping at `u16::MAX`).
    pub fn update(&mut self, id: u16, fields: Vec<FieldSpec>) -> (res: Result<u16, Error>)
        requires
            old(self).wf(),
            row_width_of(fields@) <= usize::MAX,
        ensures
            final(self).wf(),
            final(self).spec_names() == old(self).spec_names(),
            !old(self).spec_schemas().dom().contains(id) ==> res is Err && res->Err_0.kind == Kind::Unresolved
                && *final(self) == *old(self),
            old(self).spec_schemas().dom().contains(id) && fields@.len() == 0 ==> res is Err
                && res->Err_0.kind == Kind::Malformed && *final(self) == *old(self),
            old(self).spec_schemas().dom().contains(id) && fields@.len() > 0 ==> {
                let next = (if old(self).spec_schemas()[id].version == u16::MAX {
                    0u16
                } else {
                    (old(self).spec_schemas()[id].version + 1) as u16
                });
                &&& res == Ok::<u16, Error>(next)
                &&& final(self).spec_schemas().dom() == old(self).spec_schemas().dom()
                &&& forall|x: u16| x != id && #[trigger] old(self).spec_schemas().dom().contains(x)
                    ==> final(self).spec_schemas()[x] == old(self).spec_schemas()[x]
                &&& schema_of(final(self).spec_schemas()[id], id, next, fields@)
                &&& final(self).spec_stats() == (old(self).spec_stats().0, sat_inc(old(self).spec_stats().1))
            },
    {
        let prev_version = match self.get(id) {
            Some(s) => s.version,
            None => {
                return Err(Error::unresolved("update of undefined schema"));
            },
        };
        if fields.len() == 0 {
            return Err(Error::malformed("schema update with no fields"));
        }
        let next = prev_version.wrapping_add(1);
        let schema = Schema::new(id, next, fields);
        proof {
            assert(old(self).spec_schemas().dom().insert(id) =~= old(self).spec_schemas().dom());
        }
        self.install(schema);
        self.updates = if self.updates == u64::MAX { u64::MAX } else { self.updates + 1 };
        Ok(next)
    }

    pub fn get(&self, id: u16) -> (r: Option<&Schema>)
        requires
            self.wf(),
        ensures
            match r {
                Some(s) => self.spec_schemas().dom().contains(id) && *s == self.spec_schemas()[id],
                None => !self.spec_schemas().dom().contains(id),
            },
    {
        match position(&self.schemas, id) {
            Some(i) => {
                proof {
                    lemma_index_of_key(self.schemas@, |s: Schema| schema_id(s), i as int);
                }
                Some(&self.schemas[i])
            },
            None => None,
        }
    }

    pub fn current_version(&self, id: u16) -> (v: Option<u16>)
        requires
            self.wf(),
        ensures
            v == (if self.spec_schemas().dom().contains(id) {
                Some(self.spec_schemas()[id].version)
            } else {
                None::<u16>
            }),
    {
        match self.get(id) {
            Some(s) => Some(s.version),
            None => None,
        }
    }

    /// Drop the schema with this id; whether there was one.
    pub fn remove(&mut self, id: u16) -> (b: bool)
        requires
            old(self).wf(),
        ensures
            final(self).wf(),
            b == old(self).spec_schemas().dom().contains(id),
            final(self).spec_schemas() == old(self).spec_schemas().remove(id),
            final(self).spec_names() == old(self).spec_names(),
            final(self).spec_stats() == old(self).spec_stats(),
    {
        let ghost ss = self.schemas@;
        match position(&self.schemas, id) {
            Some(i) => {
                proof {
                    lemma_keyed_remove(ss, |s: Schema| schema_id(s), i as int);
                    lemma_index_of_key(ss, |s: Schema| schema_id(s), i as int);
                }
                self.schemas.remove(i);
                true
            },
            None => {
                assert(old(self).spec_schemas().remove(id) =~= old(self).spec_schemas());
                false
            },
        }
    }
}

impl Default for SchemaRegistry {
    fn default() -> (r: SchemaRegistry)
        ensures
            r.wf(),
            r.spec_schemas() == Map::<u16, Schema>::empty(),
    {
        SchemaRegistry::new()
    }
}

} // verus!
