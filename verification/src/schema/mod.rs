//! Schema and template management.
//!
//! * A **schema** names and types the columns of a record.
//! * A **template** binds a schema to a concrete on-wire record layout and is
//!   what `DATA_RECORD` messages reference by id.
//!
//! Both live in registries that support versioned redefinition, which is where
//! most of the interesting lifecycle interactions happen.

pub mod catalog;
pub mod diff;
pub mod field;
pub mod infomodel;
pub mod layout;
pub mod registry;
pub mod template;

pub use catalog::Catalog;
pub use field::{FieldSpec, FieldType};
pub use layout::{Layout, Placement};
pub use registry::SchemaRegistry;
pub use template::{Template, TemplateCache};

use vstd::prelude::*;

use field::{slot_width, spec_is_variable, lemma_slot_width_bound};

verus! {

/// Sum of the row-image widths of `fs`.
pub open spec fn row_width_of(fs: Seq<FieldSpec>) -> int
    decreases fs.len(),
{
    if fs.len() == 0 {
        0
    } else {
        row_width_of(fs.drop_last()) + slot_width(fs.last())
    }
}

/// Number of leading fields that are not variable-width.
pub open spec fn fixed_prefix_of(fs: Seq<FieldSpec>) -> int
    decreases fs.len(),
{
    if fs.len() == 0 {
        0
    } else if spec_is_variable(fs[0].ty) {
        0
    } else {
        1 + fixed_prefix_of(fs.drop_first())
    }
}

pub proof fn lemma_row_width_bound(fs: Seq<FieldSpec>)
    ensures
        0 <= row_width_of(fs) <= 65535 * fs.len(),
    decreases fs.len(),
{
    if fs.len() > 0 {
        lemma_row_width_bound(fs.drop_last());
        lemma_slot_width_bound(fs.last());
    }
}

proof fn lemma_row_width_take(fs: Seq<FieldSpec>, i: int)
    requires
        0 <= i < fs.len(),
    ensures
        row_width_of(fs.take(i + 1)) == row_width_of(fs.take(i)) + slot_width(fs[i]),
        row_width_of(fs.take(i)) <= row_width_of(fs),
{
    assert(fs.take(i + 1).drop_last() =~= fs.take(i));
    lemma_row_width_mono(fs, i);
}

proof fn lemma_row_width_mono(fs: Seq<FieldSpec>, i: int)
    requires
        0 <= i <= fs.len(),
    ensures
        row_width_of(fs.take(i)) <= row_width_of(fs),
    decreases fs.len() - i,
{
    if i < fs.len() {
        lemma_row_width_mono(fs, i + 1);
        assert(fs.take(i + 1).drop_last() =~= fs.take(i));
        lemma_slot_width_bound(fs[i]);
    } else {
        assert(fs.take(i) =~= fs);
    }
}

pub proof fn lemma_fixed_prefix_step(fs: Seq<FieldSpec>, i: int)
    requires
        0 <= i < fs.len(),
        forall|j: int| 0 <= j < i ==> !spec_is_variable(#[trigger] fs[j].ty),
    ensures
        spec_is_variable(fs[i].ty) ==> fixed_prefix_of(fs) == i,
        i + 1 == fs.len() && !spec_is_variable(fs[i].ty) ==> fixed_prefix_of(fs) == i + 1,
    decreases i,
{
    if i > 0 {
        let d = fs.drop_first();
        assert forall|j: int| 0 <= j < i - 1 implies !spec_is_variable(#[trigger] d[j].ty) by {
            assert(d[j] == fs[j + 1]);
        }
        assert(d[i - 1] == fs[i]);
        lemma_fixed_prefix_step(d, i - 1);
        assert(!spec_is_variable(fs[0].ty));
    } else {
        if fs.len() == 1 {
            assert(fs.drop_first().len() == 0);
            assert(fixed_prefix_of(fs.drop_first()) == 0);
        }
    }
}

/// The leading fixed fields are exactly those before the first variable one.
pub proof fn lemma_fixed_prefix_props(fs: Seq<FieldSpec>)
    ensures
        0 <= fixed_prefix_of(fs) <= fs.len(),
        forall|j: int| 0 <= j < fixed_prefix_of(fs) ==> !spec_is_variable(#[trigger] fs[j].ty),
        fixed_prefix_of(fs) < fs.len() ==> spec_is_variable(fs[fixed_prefix_of(fs)].ty),
    decreases fs.len(),
{
    if fs.len() > 0 && !spec_is_variable(fs[0].ty) {
        let d = fs.drop_first();
        lemma_fixed_prefix_props(d);
        assert forall|j: int| 0 <= j < fixed_prefix_of(fs) implies !spec_is_variable(#[trigger] fs[j].ty) by {
            if j > 0 {
                assert(fs[j] == d[j - 1]);
            }
        }
        if fixed_prefix_of(fs) < fs.len() {
            assert(fs[fixed_prefix_of(fs)] == d[fixed_prefix_of(d)]);
        }
    }
}

/// A schema: an ordered set of typed fields plus a precomputed row width.
#[derive(Debug, Clone)]
pub struct Schema {
    pub id: u16,
    pub version: u16,
    pub fields: Vec<FieldSpec>,
    /// Sum of `row_slot_width` across all fields; cached for the decoder.
    pub row_width: usize,
    /// Number of fixed-width leading fields, used to fast-path decode.
    pub fixed_prefix: usize,
}

/// `s` is the schema built from these parts.
pub open spec fn schema_of(s: Schema, id: u16, version: u16, fs: Seq<FieldSpec>) -> bool {
    &&& s.id == id
    &&& s.version == version
    &&& s.fields@ == fs
    &&& s.row_width == row_width_of(fs)
    &&& s.fixed_prefix == fixed_prefix_of(fs)
}

impl Schema {
    pub fn new(id: u16, version: u16, fields: Vec<FieldSpec>) -> (s: Schema)
        requires
            row_width_of(fields@) <= usize::MAX,
        ensures
            schema_of(s, id, version, fields@),
    {
        let ghost fs = fields@;
        let mut row_width: usize = 0;
        let mut i: usize = 0;
        while i < fields.len()
            invariant
                i <= fs.len(),
                fs == fields@,
                row_width_of(fs) <= usize::MAX,
                row_width == row_width_of(fs.take(i as int)),
            decreases fs.len() - i,
        {
            proof {
                lemma_row_width_take(fs, i as int);
                lemma_row_width_mono(fs, i + 1);
            }
            row_width = row_width + fields[i].row_slot_width();
            i = i + 1;
        }
        assert(fs.take(fs.len() as int) =~= fs);
        let mut fixed_prefix: usize = 0;
        while fixed_prefix < fields.len() && !fields[fixed_prefix].ty.is_variable()
            invariant
                fixed_prefix <= fs.len(),
                fs == fields@,
                forall|j: int| 0 <= j < fixed_prefix ==> !spec_is_variable(#[trigger] fs[j].ty),
            decreases fs.len() - fixed_prefix,
        {
            fixed_prefix = fixed_prefix + 1;
        }
        proof {
            if fixed_prefix < fs.len() {
                lemma_fixed_prefix_step(fs, fixed_prefix as int);
            } else if fs.len() > 0 {
                lemma_fixed_prefix_step(fs, fs.len() - 1);
            }
        }
        Schema { id, version, fields, row_width, fixed_prefix }
    }

    pub fn field_count(&self) -> (n: usize)
        ensures
            n == self.fields@.len(),
    {
        self.fields.len()
    }

    pub fn has_variable_fields(&self) -> (b: bool)
        ensures
            b == (self.fixed_prefix < self.fields@.len()),
    {
        self.fixed_prefix < self.fields.len()
    }

    /// Byte offset of field `idx` within a decoded row image.
    pub fn field_offset(&self, idx: usize) -> (off: usize)
        requires
            idx <= self.fields@.len(),
            row_width_of(self.fields@) <= usize::MAX,
        ensures
            off == row_width_of(self.fields@.take(idx as int)),
    {
        let ghost fs = self.fields@;
        let mut off: usize = 0;
        let mut i: usize = 0;
        while i < idx
            invariant
                i <= idx <= fs.len(),
                fs == self.fields@,
                row_width_of(fs) <= usize::MAX,
                off == row_width_of(fs.take(i as int)),
            decreases idx - i,
        {
            proof {
                lemma_row_width_take(fs, i as int);
                lemma_row_width_mono(fs, i + 1);
            }
            off = off + self.fields[i].row_slot_width();
            i = i + 1;
        }
        off
    }
}

} // verus!
