//! On-wire layout computation for a schema.
//!
//! While [`Schema`] caches the *row image* width, the decoder also wants to know
//! the on-wire byte offset of each fixed-width field so it can skip directly to
//! a column without decoding the ones before it. Variable-width fields break the
//! fixed layout, so the computation stops at the first variable field and marks
//! everything after it as "dynamic".

use vstd::prelude::*;

use crate::schema::field::{spec_is_variable, wire_width, FieldSpec};
use crate::schema::{fixed_prefix_of, lemma_fixed_prefix_props, Schema};

verus! {

#[derive(Debug, Clone, Copy, PartialEq, Eq, Structural)]
pub enum Placement {
    /// Field starts at a known byte offset with a known width.
    Fixed { offset: usize, width: usize },
    /// Field's position depends on the length of preceding variable fields.
    Dynamic,
}

/// Wire width of a field, 0 for a variable one.
pub open spec fn wire_w(f: FieldSpec) -> int {
    match wire_width(f) {
        Some(w) => w as int,
        None => 0,
    }
}

/// Total wire width of the first `k` fields.
pub open spec fn wire_sum(fs: Seq<FieldSpec>, k: int) -> int
    decreases k,
{
    if k <= 0 {
        0
    } else {
        wire_sum(fs, k - 1) + wire_w(fs[k - 1])
    }
}

/// Where field `i` sits: at a known offset when every field before it is
/// fixed-width, dynamic from the first variable field on.
pub open spec fn spec_placement(fs: Seq<FieldSpec>, i: int) -> Placement {
    if i < fixed_prefix_of(fs) {
        Placement::Fixed { offset: wire_sum(fs, i) as usize, width: wire_w(fs[i]) as usize }
    } else {
        Placement::Dynamic
    }
}

proof fn lemma_wire_sum_mono(fs: Seq<FieldSpec>, a: int, b: int)
    requires
        0 <= a <= b,
    ensures
        0 <= wire_sum(fs, a) <= wire_sum(fs, b),
    decreases b,
{
    if a < b {
        lemma_wire_sum_mono(fs, a, b - 1);
    } else if a > 0 {
        lemma_wire_sum_mono(fs, 0, a - 1);
    }
}

#[derive(Debug, Clone)]
pub struct Layout {
    placements: Vec<Placement>,
    fixed_prefix_bytes: usize,
    fully_fixed: bool,
}

impl Layout {
    pub closed spec fn spec_placements(&self) -> Seq<Placement> {
        self.placements@
    }

    pub closed spec fn spec_fixed_prefix_bytes(&self) -> nat {
        self.fixed_prefix_bytes as nat
    }

    pub closed spec fn spec_fully_fixed(&self) -> bool {
        self.fully_fixed
    }

    /// `self` is the layout of `fs`.
    pub open spec fn layout_of(&self, fs: Seq<FieldSpec>) -> bool {
        &&& self.spec_placements() == Seq::new(fs.len(), |i: int| spec_placement(fs, i))
        &&& self.spec_fixed_prefix_bytes() == wire_sum(fs, fixed_prefix_of(fs))
        &&& self.spec_fully_fixed() == (fixed_prefix_of(fs) == fs.len())
    }

    pub fn compute(schema: &Schema) -> (l: Layout)
        requires
            wire_sum(schema.fields@, fixed_prefix_of(schema.fields@)) <= usize::MAX,
        ensures
            l.layout_of(schema.fields@),
    {
        Layout::from_fields(schema.fields.as_slice())
    }

    pub fn from_fields(fields: &[FieldSpec]) -> (l: Layout)
        requires
            wire_sum(fields@, fixed_prefix_of(fields@)) <= usize::MAX,
        ensures
            l.layout_of(fields@),
    {
        let ghost fs = fields@;
        let ghost fp = fixed_prefix_of(fs);
        proof {
            lemma_fixed_prefix_props(fs);
        }
        let mut placements: Vec<Placement> = Vec::new();
        let mut offset: usize = 0;
        let mut dynamic = false;
        let mut i: usize = 0;
        while i < fields.len()
            invariant
                i <= fs.len(),
                fs == fields@,
                fp == fixed_prefix_of(fs),
                0 <= fp <= fs.len(),
                forall|j: int| 0 <= j < fp ==> !spec_is_variable(#[trigger] fs[j].ty),
                fp < fs.len() ==> spec_is_variable(fs[fp].ty),
                wire_sum(fs, fp) <= usize::MAX,
                dynamic == (i > fp),
                offset == wire_sum(fs, if i <= fp { i as int } else { fp }),
                placements@ == Seq::new(i as nat, |j: int| spec_placement(fs, j)),
            decreases fs.len() - i,
        {
            if dynamic {
                placements.push(Placement::Dynamic);
            } else {
                match fields[i].wire_fixed_width() {
                    Some(w) => {
                        proof {
                            lemma_wire_sum_mono(fs, i + 1, fp);
                        }
                        placements.push(Placement::Fixed { offset, width: w });
                        offset = offset + w;
                    },
                    None => {
                        placements.push(Placement::Dynamic);
                        dynamic = true;
                    },
                }
            }
            i = i + 1;
            assert(placements@ =~= Seq::new(i as nat, |j: int| spec_placement(fs, j)));
        }
        Layout { placements, fixed_prefix_bytes: offset, fully_fixed: !dynamic }
    }

    pub fn placement(&self, idx: usize) -> (p: Option<Placement>)
        ensures
            p == (if idx < self.spec_placements().len() {
                Some(self.spec_placements()[idx as int])
            } else {
                None
            }),
    {
        if idx < self.placements.len() {
            Some(self.placements[idx])
        } else {
            None
        }
    }

    /// Byte offset of field `idx`, if it is in the fixed prefix.
    pub fn offset_of(&self, idx: usize) -> (o: Option<usize>)
        ensures
            o == (if idx < self.spec_placements().len() {
                match self.spec_placements()[idx as int] {
                    Placement::Fixed { offset, .. } => Some(offset),
                    Placement::Dynamic => None,
                }
            } else {
                None
            }),
    {
        if idx < self.placements.len() {
            match self.placements[idx] {
                Placement::Fixed { offset, .. } => Some(offset),
                Placement::Dynamic => None,
            }
        } else {
            None
        }
    }

    pub fn fixed_prefix_bytes(&self) -> (n: usize)
        ensures
            n == self.spec_fixed_prefix_bytes(),
    {
        self.fixed_prefix_bytes
    }

    pub fn is_fully_fixed(&self) -> (b: bool)
        ensures
            b == self.spec_fully_fixed(),
    {
        self.fully_fixed
    }

    /// Minimum on-wire record length (fixed prefix only; variable fields add a
    /// length prefix that is validated separately).
    pub fn min_record_len(&self) -> (n: usize)
        ensures
            n == self.spec_fixed_prefix_bytes(),
    {
        self.fixed_prefix_bytes
    }
}

} // verus!
