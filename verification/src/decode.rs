//! Decoded record values: the in-memory image of a data record, one value per
//! schema field.

use vstd::prelude::*;

verus! {

/// One decoded field value, by field type.
#[derive(Debug, Clone)]
pub enum Decoded {
    U8(u8),
    U16(u16),
    U32(u32),
    U64(u64),
    I32(i32),
    I64(i64),
    Bytes(Vec<u8>),
    Text(String),
    Timestamp(u64),
}

/// A decoded record: its field values in schema order.
#[derive(Debug, Clone)]
pub struct RecordImage {
    pub values: Vec<Decoded>,
}

} // verus!
