//! A seekable cursor over an owned byte buffer.
//!
//! The snapshot/replay subsystem reads records at absolute and relative
//! positions, occasionally seeking backwards to re-read a header once a later
//! field reveals how to interpret it. Positions are validated against the
//! buffer bounds on every access.

use vstd::prelude::*;

use crate::error::{Error, Kind};

verus! {

pub struct SeekableStream {
    data: Vec<u8>,
    position: usize,
}

impl SeekableStream {
    pub closed spec fn wf(&self) -> bool {
        self.position <= self.data@.len()
    }

    pub closed spec fn bytes(&self) -> Seq<u8> {
        self.data@
    }

    pub closed spec fn pos(&self) -> nat {
        self.position as nat
    }

    pub fn new(data: Vec<u8>) -> (s: SeekableStream)
        ensures
            s.wf(),
            s.bytes() == data@,
            s.pos() == 0,
    {
        SeekableStream { data, position: 0 }
    }

    pub fn len(&self) -> (n: usize)
        ensures
            n == self.bytes().len(),
    {
        self.data.len()
    }

    pub fn is_empty(&self) -> (b: bool)
        ensures
            b == (self.bytes().len() == 0),
    {
        self.data.len() == 0
    }

    pub fn position(&self) -> (p: usize)
        ensures
            p == self.pos(),
    {
        self.position
    }

    /// Seek to an absolute position, clamped to the buffer end.
    pub fn seek_to(&mut self, pos: usize)
        ensures
            final(self).wf(),
            final(self).bytes() == old(self).bytes(),
            final(self).pos() == (if pos <= old(self).bytes().len() { pos as nat } else { old(self).bytes().len() }),
    {
        self.position = if pos <= self.data.len() { pos } else { self.data.len() };
    }

    /// Seek by a signed relative delta. A delta that would move the cursor
    /// before the start or past the end is rejected and leaves it in place.
    pub fn seek_relative(&mut self, delta: i64) -> (res: Result<(), Error>)
        requires
            old(self).wf(),
        ensures
            final(self).wf(),
            final(self).bytes() == old(self).bytes(),
            ({
                let next = old(self).pos() + delta;
                &&& (next < 0 || next > old(self).bytes().len()) ==> res is Err && res->Err_0.kind == Kind::Malformed
                    && res->Err_0.context == Some(delta as u64) && final(self).pos() == old(self).pos()
                &&& (0 <= next <= old(self).bytes().len()) ==> res is Ok && final(self).pos() == next
            }),
    {
        let next: i128 = (self.position as i128) + (delta as i128);
        if next < 0 || next > self.data.len() as i128 {
            return Err(Error::malformed("relative seek out of range").with_context(delta as u64));
        }
        self.position = next as usize;
        Ok(())
    }

    /// Read `n` bytes at the cursor, advancing it.
    pub fn read(&mut self, n: usize) -> (res: Result<&[u8], Error>)
        requires
            old(self).wf(),
        ensures
            final(self).wf(),
            final(self).bytes() == old(self).bytes(),
            old(self).pos() + n > old(self).bytes().len() ==> res is Err && res->Err_0.kind == Kind::Malformed
                && final(self).pos() == old(self).pos(),
            old(self).pos() + n <= old(self).bytes().len() ==> res is Ok && res->Ok_0@ == old(self).bytes().subrange(
                old(self).pos() as int,
                old(self).pos() + n,
            ) && final(self).pos() == old(self).pos() + n,
    {
        if n > self.data.len() - self.position {
            return Err(Error::malformed("read past end"));
        }
        let start = self.position;
        self.position = start + n;
        Ok(&self.data[start..start + n])
    }

    pub fn byte_at(&self, pos: usize) -> (res: Result<u8, Error>)
        ensures
            pos < self.bytes().len() ==> res == Ok::<u8, Error>(self.bytes()[pos as int]),
            pos >= self.bytes().len() ==> res is Err && res->Err_0.kind == Kind::Malformed,
    {
        if pos < self.data.len() {
            Ok(self.data[pos])
        } else {
            Err(Error::malformed("byte out of range"))
        }
    }
}

} // verus!
