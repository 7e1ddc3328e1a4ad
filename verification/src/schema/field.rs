//! Field type system for CVWP records.
//!
//! A schema is an ordered list of [`FieldSpec`]s. Fixed-width fields contribute
//! a known number of bytes to a record; variable-width fields carry a
//! length-prefix on the wire and contribute a pointer-sized slot to the decoded
//! row image.

use vstd::prelude::*;

use crate::error::{Error, Kind};

verus! {

/// Logical type of a single field.
#[derive(Debug, Clone, Copy, PartialEq, Eq, Structural)]
pub enum FieldType {
    U8,
    U16,
    U32,
    U64,
    I32,
    I64,
    /// Fixed-length opaque bytes; the length is carried in the [`FieldSpec`].
    Fixed,
    /// Length-prefixed opaque bytes.
    VarBytes,
    /// UTF-8 string, length-prefixed.
    Utf8,
    /// A timestamp in milliseconds since the epoch (stored as u64).
    Timestamp,
}

/// The type a wire code denotes, if any.
pub open spec fn type_of_code(code: u8) -> Option<FieldType> {
    if code == 0x01 {
        Some(FieldType::U8)
    } else if code == 0x02 {
        Some(FieldType::U16)
    } else if code == 0x03 {
        Some(FieldType::U32)
    } else if code == 0x04 {
        Some(FieldType::U64)
    } else if code == 0x05 {
        Some(FieldType::I32)
    } else if code == 0x06 {
        Some(FieldType::I64)
    } else if code == 0x07 {
        Some(FieldType::Fixed)
    } else if code == 0x08 {
        Some(FieldType::VarBytes)
    } else if code == 0x09 {
        Some(FieldType::Utf8)
    } else if code == 0x0A {
        Some(FieldType::Timestamp)
    } else {
        None
    }
}

/// The wire code of a type.
pub open spec fn code_of(t: FieldType) -> u8 {
    match t {
        FieldType::U8 => 0x01,
        FieldType::U16 => 0x02,
        FieldType::U32 => 0x03,
        FieldType::U64 => 0x04,
        FieldType::I32 => 0x05,
        FieldType::I64 => 0x06,
        FieldType::Fixed => 0x07,
        FieldType::VarBytes => 0x08,
        FieldType::Utf8 => 0x09,
        FieldType::Timestamp => 0x0A,
    }
}

pub open spec fn spec_is_variable(t: FieldType) -> bool {
    t == FieldType::VarBytes || t == FieldType::Utf8
}

pub open spec fn spec_intrinsic_width(t: FieldType) -> Option<usize> {
    match t {
        FieldType::U8 => Some(1),
        FieldType::U16 => Some(2),
        FieldType::U32 | FieldType::I32 => Some(4),
        FieldType::U64 | FieldType::I64 | FieldType::Timestamp => Some(8),
        FieldType::Fixed | FieldType::VarBytes | FieldType::Utf8 => None,
    }
}

/// Codes and types are inverse to each other.
pub proof fn lemma_code_roundtrip(t: FieldType)
    ensures
        type_of_code(code_of(t)) == Some(t),
{
}

/// Every code a type is decoded from is that type's code.
pub proof fn lemma_code_inverse(code: u8)
    ensures
        type_of_code(code) matches Some(t) ==> code_of(t) == code,
{
}

impl FieldType {
    pub fn from_code(code: u8) -> (r: Result<FieldType, Error>)
        ensures
            match r {
                Ok(t) => type_of_code(code) == Some(t),
                Err(e) => type_of_code(code) is None && e.kind == Kind::Malformed && e.context == Some(code as u64),
            },
    {
        if code == 0x01 {
            Ok(FieldType::U8)
        } else if code == 0x02 {
            Ok(FieldType::U16)
        } else if code == 0x03 {
            Ok(FieldType::U32)
        } else if code == 0x04 {
            Ok(FieldType::U64)
        } else if code == 0x05 {
            Ok(FieldType::I32)
        } else if code == 0x06 {
            Ok(FieldType::I64)
        } else if code == 0x07 {
            Ok(FieldType::Fixed)
        } else if code == 0x08 {
            Ok(FieldType::VarBytes)
        } else if code == 0x09 {
            Ok(FieldType::Utf8)
        } else if code == 0x0A {
            Ok(FieldType::Timestamp)
        } else {
            Err(Error::malformed("unknown field type").with_context(code as u64))
        }
    }

    pub fn code(self) -> (c: u8)
        ensures
            c == code_of(self),
    {
        match self {
            FieldType::U8 => 0x01,
            FieldType::U16 => 0x02,
            FieldType::U32 => 0x03,
            FieldType::U64 => 0x04,
            FieldType::I32 => 0x05,
            FieldType::I64 => 0x06,
            FieldType::Fixed => 0x07,
            FieldType::VarBytes => 0x08,
            FieldType::Utf8 => 0x09,
            FieldType::Timestamp => 0x0A,
        }
    }

    /// Whether this type is variable-width on the wire.
    pub fn is_variable(self) -> (b: bool)
        ensures
            b == spec_is_variable(self),
    {
        match self {
            FieldType::VarBytes | FieldType::Utf8 => true,
            _ => false,
        }
    }

    /// The natural fixed width in bytes, if any. `Fixed` has none because its
    /// width lives in the [`FieldSpec`].
    pub fn intrinsic_width(self) -> (w: Option<usize>)
        ensures
            w == spec_intrinsic_width(self),
    {
        match self {
            FieldType::U8 => Some(1),
            FieldType::U16 => Some(2),
            FieldType::U32 | FieldType::I32 => Some(4),
            FieldType::U64 | FieldType::I64 | FieldType::Timestamp => Some(8),
            FieldType::Fixed | FieldType::VarBytes | FieldType::Utf8 => None,
        }
    }
}

/// One field in a schema.
#[derive(Debug, Clone, PartialEq, Eq)]
pub struct FieldSpec {
    pub id: u16,
    pub ty: FieldType,
    /// On-wire width for `Fixed`; for variable fields this is the maximum
    /// length we will materialise; for intrinsically-sized fields it is
    /// ignored on decode but retained for round-tripping.
    pub width: u16,
    /// Column name. Empty if anonymous.
    pub name: String,
}

/// Bytes a field contributes to a decoded row image: its natural width, an
/// 8-byte slot for variable fields, or the declared width for `Fixed`.
pub open spec fn slot_width(f: FieldSpec) -> int {
    match spec_intrinsic_width(f.ty) {
        Some(w) => w as int,
        None => if spec_is_variable(f.ty) { 8 } else { f.width as int },
    }
}

/// Bytes a field occupies on the wire, or `None` for variable fields.
pub open spec fn wire_width(f: FieldSpec) -> Option<usize> {
    if f.ty == FieldType::Fixed {
        Some(f.width as usize)
    } else if spec_is_variable(f.ty) {
        None
    } else {
        spec_intrinsic_width(f.ty)
    }
}

pub proof fn lemma_slot_width_bound(f: FieldSpec)
    ensures
        0 <= slot_width(f) <= 65535,
{
}

impl FieldSpec {
    pub fn new(id: u16, ty: FieldType, width: u16) -> (f: FieldSpec)
        ensures
            f.id == id,
            f.ty == ty,
            f.width == width,
            f.name@ == Seq::<char>::empty(),
    {
        FieldSpec { id, ty, width, name: String::new() }
    }

    pub fn named(id: u16, ty: FieldType, width: u16, name: &str) -> (f: FieldSpec)
        ensures
            f.id == id,
            f.ty == ty,
            f.width == width,
            f.name@ == name@,
    {
        FieldSpec { id, ty, width, name: name.to_owned() }
    }

    /// The number of bytes this field contributes to a decoded row image. For
    /// variable fields this is an 8-byte slot holding an offset+length pair.
    pub fn row_slot_width(&self) -> (w: usize)
        ensures
            w == slot_width(*self),
    {
        match self.ty.intrinsic_width() {
            Some(w) => w,
            None => {
                if self.ty.is_variable() {
                    8
                } else {
                    self.width as usize
                }
            },
        }
    }

    /// On-wire fixed contribution, or `None` for variable fields.
    pub fn wire_fixed_width(&self) -> (w: Option<usize>)
        ensures
            w == wire_width(*self),
    {
        match self.ty {
            FieldType::Fixed => Some(self.width as usize),
            t => if t.is_variable() {
                None
            } else {
                t.intrinsic_width()
            },
        }
    }
}

} // verus!
