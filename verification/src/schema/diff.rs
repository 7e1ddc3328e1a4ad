//! Structural diffing of two schema versions.
//!
//! When a `SCHEMA_UPDATE` arrives, comparing the old and new field lists tells
//! the decoder whether the change is backward-compatible (fields only appended)
//! or breaking (a field's type or width changed), which drives cache
//! invalidation decisions upstream.

use vstd::prelude::*;

use crate::schema::field::FieldSpec;
use crate::schema::Schema;

verus! {

#[derive(Debug, Clone, PartialEq, Eq, Structural)]
pub enum FieldChange {
    Added(u16),
    Removed(u16),
    Retyped { id: u16 },
    Rewidth { id: u16, from: u16, to: u16 },
}

#[derive(Debug)]
pub struct SchemaDiff {
    pub changes: Vec<FieldChange>,
}

impl Default for SchemaDiff {
    fn default() -> (d: SchemaDiff)
        ensures
            d.changes@ == Seq::<FieldChange>::empty(),
    {
        SchemaDiff { changes: Vec::new() }
    }
}

pub open spec fn is_added(c: FieldChange) -> bool {
    c matches FieldChange::Added(_)
}

/// Number of changes that are not additions.
pub open spec fn count_breaking(cs: Seq<FieldChange>) -> int
    decreases cs.len(),
{
    if cs.len() == 0 {
        0
    } else {
        count_breaking(cs.drop_last()) + if is_added(cs.last()) { 0int } else { 1int }
    }
}

impl SchemaDiff {
    pub fn is_empty(&self) -> (b: bool)
        ensures
            b == (self.changes@.len() == 0),
    {
        self.changes.len() == 0
    }

    /// A diff is backward-compatible if it only adds fields.
    pub fn is_backward_compatible(&self) -> (b: bool)
        ensures
            b == forall|i: int| 0 <= i < self.changes@.len() ==> #[trigger] is_added(self.changes@[i]),
    {
        let mut i: usize = 0;
        while i < self.changes.len()
            invariant
                i <= self.changes@.len(),
                forall|j: int| 0 <= j < i ==> #[trigger] is_added(self.changes@[j]),
            decreases self.changes@.len() - i,
        {
            match self.changes[i] {
                FieldChange::Added(_) => {},
                _ => {
                    assert(!is_added(self.changes@[i as int]));
                    return false;
                },
            }
            i = i + 1;
        }
        true
    }

    pub fn breaking_changes(&self) -> (n: usize)
        ensures
            n == count_breaking(self.changes@),
    {
        let mut n: usize = 0;
        let mut i: usize = 0;
        while i < self.changes.len()
            invariant
                i <= self.changes@.len(),
                n == count_breaking(self.changes@.take(i as int)),
                n <= i,
            decreases self.changes@.len() - i,
        {
            assert(self.changes@.take(i + 1).drop_last() =~= self.changes@.take(i as int));
            match self.changes[i] {
                FieldChange::Added(_) => {},
                _ => {
                    n = n + 1;
                },
            }
            i = i + 1;
        }
        assert(self.changes@.take(self.changes@.len() as int) =~= self.changes@);
        n
    }
}

/// The first field of `fs` with this id.
pub open spec fn find_field(fs: Seq<FieldSpec>, id: u16) -> Option<FieldSpec>
    decreases fs.len(),
{
    if fs.len() == 0 {
        None
    } else if fs[0].id == id {
        Some(fs[0])
    } else {
        find_field(fs.drop_first(), id)
    }
}

/// What happened to field `nf` of the new schema.
pub open spec fn change_for(old: Seq<FieldSpec>, nf: FieldSpec) -> Seq<FieldChange> {
    match find_field(old, nf.id) {
        None => seq![FieldChange::Added(nf.id)],
        Some(of) => if of.ty != nf.ty {
            seq![FieldChange::Retyped { id: nf.id }]
        } else if of.width != nf.width {
            seq![FieldChange::Rewidth { id: nf.id, from: of.width, to: nf.width }]
        } else {
            Seq::empty()
        },
    }
}

/// Changes for each field of the new schema, in its order.
pub open spec fn forward_changes(old: Seq<FieldSpec>, new: Seq<FieldSpec>) -> Seq<FieldChange>
    decreases new.len(),
{
    if new.len() == 0 {
        Seq::empty()
    } else {
        forward_changes(old, new.drop_last()) + change_for(old, new.last())
    }
}

/// Fields of the old schema absent from the new one, in old order.
pub open spec fn removed_changes(old: Seq<FieldSpec>, new: Seq<FieldSpec>) -> Seq<FieldChange>
    decreases old.len(),
{
    if old.len() == 0 {
        Seq::empty()
    } else {
        removed_changes(old.drop_last(), new) + if find_field(new, old.last().id) is None {
            seq![FieldChange::Removed(old.last().id)]
        } else {
            Seq::<FieldChange>::empty()
        }
    }
}

pub open spec fn spec_diff(old: Seq<FieldSpec>, new: Seq<FieldSpec>) -> Seq<FieldChange> {
    forward_changes(old, new) + removed_changes(old, new)
}

/// No two fields share an id.
pub open spec fn unique_ids(fs: Seq<FieldSpec>) -> bool {
    forall|i: int, j: int| 0 <= i < j < fs.len() ==> (#[trigger] fs[i]).id != (#[trigger] fs[j]).id
}

proof fn lemma_find_unique(fs: Seq<FieldSpec>, i: int)
    requires
        unique_ids(fs),
        0 <= i < fs.len(),
    ensures
        find_field(fs, fs[i].id) == Some(fs[i]),
    decreases i,
{
    if i > 0 {
        let d = fs.drop_first();
        assert(fs[0].id != fs[i].id);
        assert forall|a: int, b: int| 0 <= a < b < d.len() implies (#[trigger] d[a]).id != (#[trigger] d[b]).id by {
            assert(d[a] == fs[a + 1] && d[b] == fs[b + 1]);
        }
        assert(d[i - 1] == fs[i]);
        lemma_find_unique(d, i - 1);
    }
}

proof fn lemma_find_absent(fs: Seq<FieldSpec>, id: u16)
    requires
        forall|i: int| 0 <= i < fs.len() ==> (#[trigger] fs[i]).id != id,
    ensures
        find_field(fs, id) is None,
    decreases fs.len(),
{
    if fs.len() > 0 {
        let d = fs.drop_first();
        assert forall|i: int| 0 <= i < d.len() implies (#[trigger] d[i]).id != id by {
            assert(d[i] == fs[i + 1]);
        }
        assert(fs[0].id != id);
        lemma_find_absent(d, id);
    }
}

/// Appending fields with fresh ids is backward-compatible: the diff is one
/// `Added` per appended field, in order, and nothing else. With nothing
/// appended, a schema diffed against itself has no changes.
pub proof fn lemma_appended_fields_compatible(old: Seq<FieldSpec>, extra: Seq<FieldSpec>)
    requires
        unique_ids(old + extra),
    ensures
        spec_diff(old, old + extra) == Seq::new(extra.len(), |j: int| FieldChange::Added(extra[j].id)),
{
    let new = old + extra;
    let n = old.len() as int;
    assert(new.take(n) =~= old);
    assert forall|k: int| 0 <= k <= new.len() implies #[trigger] forward_changes(old, new.take(k)) == (if k <= n {
        Seq::<FieldChange>::empty()
    } else {
        Seq::new((k - n) as nat, |j: int| FieldChange::Added(extra[j].id))
    }) by {
        lemma_forward_prefix(old, extra, k);
    }
    assert(new.take(new.len() as int) =~= new);
    lemma_removed_none(old, new, n);
    assert(old.take(n) =~= old);
    assert(spec_diff(old, new) =~= Seq::new(extra.len(), |j: int| FieldChange::Added(extra[j].id)));
}

proof fn lemma_forward_prefix(old: Seq<FieldSpec>, extra: Seq<FieldSpec>, k: int)
    requires
        unique_ids(old + extra),
        0 <= k <= old.len() + extra.len(),
    ensures
        forward_changes(old, (old + extra).take(k)) == (if k <= old.len() {
            Seq::<FieldChange>::empty()
        } else {
            Seq::new((k - old.len()) as nat, |j: int| FieldChange::Added(extra[j].id))
        }),
    decreases k,
{
    let new = old + extra;
    let n = old.len() as int;
    if k > 0 {
        lemma_forward_prefix(old, extra, k - 1);
        assert(new.take(k).drop_last() =~= new.take(k - 1));
        assert(new.take(k).last() == new[k - 1]);
        if k - 1 < n {
            assert(new[k - 1] == old[k - 1]);
            assert(unique_ids(old)) by {
                assert forall|a: int, b: int| 0 <= a < b < old.len() implies (#[trigger] old[a]).id != (#[trigger] old[b]).id by {
                    assert(new[a] == old[a] && new[b] == old[b]);
                }
            }
            lemma_find_unique(old, k - 1);
        } else {
            assert(new[k - 1] == extra[k - 1 - n]);
            assert forall|i: int| 0 <= i < old.len() implies (#[trigger] old[i]).id != new[k - 1].id by {
                assert(new[i] == old[i]);
            }
            lemma_find_absent(old, new[k - 1].id);
            assert(forward_changes(old, new.take(k)) =~= Seq::new((k - n) as nat, |j: int| FieldChange::Added(extra[j].id)));
        }
    } else {
        assert(new.take(0) =~= Seq::<FieldSpec>::empty());
    }
}

proof fn lemma_removed_none(old: Seq<FieldSpec>, new: Seq<FieldSpec>, k: int)
    requires
        unique_ids(new),
        0 <= k <= old.len() <= new.len(),
        new.take(old.len() as int) == old,
    ensures
        removed_changes(old.take(k), new) == Seq::<FieldChange>::empty(),
    decreases k,
{
    if k > 0 {
        lemma_removed_none(old, new, k - 1);
        assert(old.take(k).drop_last() =~= old.take(k - 1));
        assert(old.take(k).last() == old[k - 1]);
        assert(new[k - 1] == old[k - 1]);
        lemma_find_unique(new, k - 1);
    } else {
        assert(old.take(0) =~= Seq::<FieldSpec>::empty());
    }
}

proof fn lemma_find_first(fs: Seq<FieldSpec>, k: int)
    requires
        0 <= k < fs.len(),
        forall|j: int| 0 <= j < k ==> (#[trigger] fs[j]).id != fs[k].id,
    ensures
        find_field(fs, fs[k].id) == Some(fs[k]),
    decreases k,
{
    if k > 0 {
        let d = fs.drop_first();
        assert(fs[0].id != fs[k].id);
        assert(d[k - 1] == fs[k]);
        assert forall|j: int| 0 <= j < k - 1 implies (#[trigger] d[j]).id != d[k - 1].id by {
            assert(d[j] == fs[j + 1]);
        }
        lemma_find_first(d, k - 1);
    }
}

proof fn lemma_forward_has(old: Seq<FieldSpec>, new: Seq<FieldSpec>, i: int)
    requires
        0 <= i < new.len(),
    ensures
        forall|c: FieldChange| change_for(old, new[i]).contains(c) ==> #[trigger] forward_changes(old, new).contains(c),
    decreases new.len(),
{
    let d = new.drop_last();
    if i < new.len() - 1 {
        lemma_forward_has(old, d, i);
        assert(d[i] == new[i]);
        assert forall|c: FieldChange| change_for(old, new[i]).contains(c) implies #[trigger] forward_changes(old, new).contains(c) by {
            let fd = forward_changes(old, d);
            assert(fd.contains(c));
            let x = choose|x: int| 0 <= x < fd.len() && fd[x] == c;
            assert(forward_changes(old, new)[x] == c);
        }
    } else {
        assert forall|c: FieldChange| change_for(old, new[i]).contains(c) implies #[trigger] forward_changes(old, new).contains(c) by {
            let fd = forward_changes(old, d);
            let cf = change_for(old, new[i]);
            let x = choose|x: int| 0 <= x < cf.len() && cf[x] == c;
            assert(forward_changes(old, new)[fd.len() + x] == c);
        }
    }
}

proof fn lemma_breaking_counts(cs: Seq<FieldChange>, k: int)
    requires
        0 <= k < cs.len(),
        !is_added(cs[k]),
    ensures
        count_breaking(cs) >= 1,
    decreases cs.len(),
{
    if k < cs.len() - 1 {
        lemma_breaking_counts(cs.drop_last(), k);
    }
    lemma_breaking_nonneg(cs.drop_last());
}

proof fn lemma_breaking_nonneg(cs: Seq<FieldChange>)
    ensures
        count_breaking(cs) >= 0,
    decreases cs.len(),
{
    if cs.len() > 0 {
        lemma_breaking_nonneg(cs.drop_last());
    }
}

/// What a diff reports for a field of the new schema whose id the old schema
/// has (its first field with that id being `old[k]`): a different type gives
/// `Retyped`, the same type at a different width gives `Rewidth` from the old
/// width to the new one; either is a breaking change. A new-schema field
/// whose id the old schema lacks gives `Added`.
pub proof fn lemma_diff_reports_field(old: Seq<FieldSpec>, new: Seq<FieldSpec>, i: int, k: int)
    requires
        0 <= i < new.len(),
        0 <= k < old.len(),
        old[k].id == new[i].id,
        forall|j: int| 0 <= j < k ==> (#[trigger] old[j]).id != new[i].id,
    ensures
        old[k].ty != new[i].ty ==> spec_diff(old, new).contains(FieldChange::Retyped { id: new[i].id }),
        old[k].ty == new[i].ty && old[k].width != new[i].width ==> spec_diff(old, new).contains(
            FieldChange::Rewidth { id: new[i].id, from: old[k].width, to: new[i].width },
        ),
        old[k].ty != new[i].ty || old[k].width != new[i].width ==> count_breaking(spec_diff(old, new)) >= 1,
{
    lemma_find_first(old, k);
    lemma_forward_has(old, new, i);
    let f = forward_changes(old, new);
    let d = spec_diff(old, new);
    let c = if old[k].ty != new[i].ty {
        FieldChange::Retyped { id: new[i].id }
    } else {
        FieldChange::Rewidth { id: new[i].id, from: old[k].width, to: new[i].width }
    };
    if old[k].ty != new[i].ty || old[k].width != new[i].width {
        assert(change_for(old, new[i])[0] == c);
        assert(change_for(old, new[i]).contains(c));
        assert(f.contains(c));
        let x = choose|x: int| 0 <= x < f.len() && f[x] == c;
        assert(d[x] == c);
        assert(d.contains(c));
        lemma_breaking_counts(d, x);
    }
}

/// A new-schema field whose id the old schema lacks is reported `Added`.
pub proof fn lemma_diff_reports_added(old: Seq<FieldSpec>, new: Seq<FieldSpec>, i: int)
    requires
        0 <= i < new.len(),
        forall|j: int| 0 <= j < old.len() ==> (#[trigger] old[j]).id != new[i].id,
    ensures
        spec_diff(old, new).contains(FieldChange::Added(new[i].id)),
{
    lemma_find_absent(old, new[i].id);
    lemma_forward_has(old, new, i);
    let c = FieldChange::Added(new[i].id);
    assert(change_for(old, new[i])[0] == c);
    let f = forward_changes(old, new);
    assert(f.contains(c));
    let x = choose|x: int| 0 <= x < f.len() && f[x] == c;
    assert(spec_diff(old, new)[x] == c);
}

proof fn lemma_removed_has(old: Seq<FieldSpec>, new: Seq<FieldSpec>, k: int)
    requires
        0 <= k < old.len(),
        find_field(new, old[k].id) is None,
    ensures
        removed_changes(old, new).contains(FieldChange::Removed(old[k].id)),
    decreases old.len(),
{
    let d = old.drop_last();
    let c = FieldChange::Removed(old[k].id);
    if k < old.len() - 1 {
        assert(d[k] == old[k]);
        lemma_removed_has(d, new, k);
        let rd = removed_changes(d, new);
        let x = choose|x: int| 0 <= x < rd.len() && rd[x] == c;
        assert(removed_changes(old, new)[x] == c);
    } else {
        let rd = removed_changes(d, new);
        assert(removed_changes(old, new)[rd.len() as int] == c);
    }
}

/// A field of the old schema whose id the new schema lacks is reported
/// `Removed`, a breaking change.
pub proof fn lemma_diff_reports_removed(old: Seq<FieldSpec>, new: Seq<FieldSpec>, k: int)
    requires
        0 <= k < old.len(),
        forall|j: int| 0 <= j < new.len() ==> (#[trigger] new[j]).id != old[k].id,
    ensures
        spec_diff(old, new).contains(FieldChange::Removed(old[k].id)),
        count_breaking(spec_diff(old, new)) >= 1,
{
    lemma_find_absent(new, old[k].id);
    lemma_removed_has(old, new, k);
    let f = forward_changes(old, new);
    let r = removed_changes(old, new);
    let c = FieldChange::Removed(old[k].id);
    let x = choose|x: int| 0 <= x < r.len() && r[x] == c;
    assert(spec_diff(old, new)[f.len() + x] == c);
    lemma_breaking_counts(spec_diff(old, new), f.len() + x);
}

fn find<'a>(fields: &'a [FieldSpec], id: u16) -> (r: Option<&'a FieldSpec>)
    ensures
        match r {
            Some(f) => find_field(fields@, id) == Some(*f),
            None => find_field(fields@, id) is None,
        },
{
    let mut i: usize = 0;
    assert(fields@.skip(0) =~= fields@);
    while i < fields.len()
        invariant
            i <= fields@.len(),
            find_field(fields@, id) == find_field(fields@.skip(i as int), id),
        decreases fields@.len() - i,
    {
        assert(fields@.skip(i as int)[0] == fields@[i as int]);
        assert(fields@.skip(i as int).drop_first() =~= fields@.skip(i + 1));
        if fields[i].id == id {
            return Some(&fields[i]);
        }
        i = i + 1;
    }
    None
}

/// Compute the diff turning `old` into `new`: first a change for each new
/// field (added, retyped or re-widthed), then a removal for each old field
/// the new schema lacks.
pub fn diff(old: &Schema, new: &Schema) -> (d: SchemaDiff)
    ensures
        d.changes@ == spec_diff(old.fields@, new.fields@),
{
    let ghost of = old.fields@;
    let ghost nf = new.fields@;
    let mut changes: Vec<FieldChange> = Vec::new();
    let mut i: usize = 0;
    while i < new.fields.len()
        invariant
            i <= nf.len(),
            nf == new.fields@,
            of == old.fields@,
            changes@ == forward_changes(of, nf.take(i as int)),
        decreases nf.len() - i,
    {
        let f = &new.fields[i];
        let ghost before = changes@;
        match find(old.fields.as_slice(), f.id) {
            None => changes.push(FieldChange::Added(f.id)),
            Some(o) => {
                if o.ty != f.ty {
                    changes.push(FieldChange::Retyped { id: f.id });
                } else if o.width != f.width {
                    changes.push(FieldChange::Rewidth { id: f.id, from: o.width, to: f.width });
                }
            },
        }
        proof {
            assert(nf.take(i + 1).drop_last() =~= nf.take(i as int));
            assert(nf.take(i + 1).last() == nf[i as int]);
            assert(changes@ =~= before + change_for(of, nf[i as int]));
        }
        i = i + 1;
    }
    assert(nf.take(nf.len() as int) =~= nf);
    let ghost fwd = changes@;
    let mut j: usize = 0;
    while j < old.fields.len()
        invariant
            j <= of.len(),
            nf == new.fields@,
            of == old.fields@,
            changes@ == fwd + removed_changes(of.take(j as int), nf),
        decreases of.len() - j,
    {
        let ghost before = changes@;
        if find(new.fields.as_slice(), old.fields[j].id).is_none() {
            changes.push(FieldChange::Removed(old.fields[j].id));
        }
        proof {
            assert(of.take(j + 1).drop_last() =~= of.take(j as int));
            assert(of.take(j + 1).last() == of[j as int]);
        }
        j = j + 1;
        assert(changes@ =~= fwd + removed_changes(of.take(j as int), nf));
    }
    assert(of.take(of.len() as int) =~= of);
    SchemaDiff { changes }
}

} // verus!
