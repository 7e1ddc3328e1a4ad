//! The decoded shape of a single CVWP message.

use vstd::prelude::*;

use crate::wire::{MsgType, MFLAG_COMPRESSED, MFLAG_CONTINUATION};

verus! {

/// A borrowed view of one message: its type, flags and payload slice into the
/// input stream buffer. The payload is never copied during parsing.
#[derive(Debug, Clone, Copy)]
pub struct Message<'a> {
    pub ty: MsgType,
    pub flags: u8,
    pub payload: &'a [u8],
    /// Byte offset of this message's payload within the stream.
    pub offset: usize,
}

/// The mathematical content of a message.
pub struct MessageSpec {
    pub ty: MsgType,
    pub flags: u8,
    pub payload: Seq<u8>,
    pub offset: int,
}

impl<'a> View for Message<'a> {
    type V = MessageSpec;

    open spec fn view(&self) -> MessageSpec {
        MessageSpec { ty: self.ty, flags: self.flags, payload: self.payload@, offset: self.offset as int }
    }
}

impl<'a> Message<'a> {
    pub fn new(ty: MsgType, flags: u8, payload: &'a [u8], offset: usize) -> (m: Message<'a>)
        ensures
            m.ty == ty,
            m.flags == flags,
            m.payload@ == payload@,
            m.offset == offset,
    {
        Message { ty, flags, payload, offset }
    }

    pub fn is_compressed(&self) -> (b: bool)
        ensures
            b == (self.flags & MFLAG_COMPRESSED != 0),
    {
        self.flags & MFLAG_COMPRESSED != 0
    }

    pub fn is_continuation(&self) -> (b: bool)
        ensures
            b == (self.flags & MFLAG_CONTINUATION != 0),
    {
        self.flags & MFLAG_CONTINUATION != 0
    }

    pub fn len(&self) -> (n: usize)
        ensures
            n == self.payload@.len(),
    {
        self.payload.len()
    }

    pub fn is_empty(&self) -> (b: bool)
        ensures
            b == (self.payload@.len() == 0),
    {
        self.payload.len() == 0
    }
}

/// A lightweight description used by logging and metrics without borrowing.
#[derive(Debug, Clone, Copy, PartialEq, Eq, Structural)]
pub struct MessageTag {
    pub ty: MsgType,
    pub flags: u8,
    pub len: usize,
}

impl<'a, 'b> From<&'b Message<'a>> for MessageTag {
    fn from(m: &'b Message<'a>) -> (t: MessageTag) {
        MessageTag { ty: m.ty, flags: m.flags, len: m.payload.len() }
    }
}

impl<'a, 'b> vstd::std_specs::convert::FromSpecImpl<&'b Message<'a>> for MessageTag {
    open spec fn obeys_from_spec() -> bool {
        true
    }

    open spec fn from_spec(m: &'b Message<'a>) -> MessageTag {
        MessageTag { ty: m.ty, flags: m.flags, len: m.payload@.len() as usize }
    }
}

} // verus!
