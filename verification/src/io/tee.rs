//! Small byte-sink adapters.
//!
//! [`CountingSink`] tallies bytes without storing them (used to size an output
//! before allocating); [`TeeSink`] fans writes out to two sinks (used to write
//! a capture file while also feeding the live pipeline).

use vstd::prelude::*;

verus! {

/// Anything bytes can be pushed into.
pub trait Sink: Sized {
    /// Whether `after` is what writing `data` into `before` leaves.
    spec fn wrote(before: Self, after: Self, data: Seq<u8>) -> bool;

    fn write(&mut self, data: &[u8])
        ensures
            Self::wrote(*old(self), *final(self), data@),
    ;
}

impl Sink for Vec<u8> {
    /// The bytes are appended.
    open spec fn wrote(before: Self, after: Self, data: Seq<u8>) -> bool {
        after@ == before@ + data
    }

    /// Append the bytes.
    fn write(&mut self, data: &[u8])
        ensures
            final(self)@ == old(self)@ + data@,
    {
        let mut i: usize = 0;
        while i < data.len()
            invariant
                i <= data@.len(),
                self@ == old(self)@ + data@.take(i as int),
            decreases data@.len() - i,
        {
            self.push(data[i]);
            i = i + 1;
            assert(data@.take(i as int) =~= data@.take(i - 1).push(data@[i - 1]));
        }
        assert(data@.take(data@.len() as int) =~= data@);
    }
}

#[derive(Debug)]
pub struct CountingSink {
    bytes: u64,
    writes: u64,
}

impl Default for CountingSink {
    fn default() -> (c: CountingSink)
        ensures
            c.spec_bytes() == 0 && c.spec_writes() == 0,
    {
        CountingSink { bytes: 0, writes: 0 }
    }
}

impl CountingSink {
    pub closed spec fn spec_bytes(&self) -> u64 {
        self.bytes
    }

    pub closed spec fn spec_writes(&self) -> u64 {
        self.writes
    }

    pub fn new() -> (c: CountingSink)
        ensures
            c.spec_bytes() == 0 && c.spec_writes() == 0,
    {
        CountingSink::default()
    }

    /// Bytes written so far (saturating).
    pub fn bytes(&self) -> (n: u64)
        ensures
            n == self.spec_bytes(),
    {
        self.bytes
    }

    /// Writes so far (saturating).
    pub fn writes(&self) -> (n: u64)
        ensures
            n == self.spec_writes(),
    {
        self.writes
    }
}

impl Sink for CountingSink {
    /// The byte count grows by the data's length and the write count by one,
    /// both saturating.
    open spec fn wrote(before: Self, after: Self, data: Seq<u8>) -> bool {
        &&& after.spec_bytes() == (if before.spec_bytes() + data.len() > u64::MAX {
            u64::MAX as int
        } else {
            before.spec_bytes() + data.len()
        })
        &&& after.spec_writes() == (if before.spec_writes() == u64::MAX {
            u64::MAX as int
        } else {
            before.spec_writes() + 1
        })
    }

    /// Count the bytes and the write.
    fn write(&mut self, data: &[u8])
        ensures
            final(self).spec_bytes() == (if old(self).spec_bytes() + data@.len() > u64::MAX {
                u64::MAX as int
            } else {
                old(self).spec_bytes() + data@.len()
            }),
            final(self).spec_writes() == (if old(self).spec_writes() == u64::MAX {
                u64::MAX as int
            } else {
                old(self).spec_writes() + 1
            }),
    {
        self.bytes = self.bytes.saturating_add(data.len() as u64);
        self.writes = self.writes.saturating_add(1);
    }
}

/// Fan-out sink writing to both `a` and `b`.
pub struct TeeSink<A: Sink, B: Sink> {
    pub a: A,
    pub b: B,
}

impl<A: Sink, B: Sink> TeeSink<A, B> {
    pub fn new(a: A, b: B) -> (t: TeeSink<A, B>)
        ensures
            t.a == a && t.b == b,
    {
        TeeSink { a, b }
    }

    pub fn into_parts(self) -> (p: (A, B))
        ensures
            p == (self.a, self.b),
    {
        (self.a, self.b)
    }
}

impl<A: Sink, B: Sink> Sink for TeeSink<A, B> {
    /// Both sinks took the write.
    open spec fn wrote(before: Self, after: Self, data: Seq<u8>) -> bool {
        A::wrote(before.a, after.a, data) && B::wrote(before.b, after.b, data)
    }

    /// Write to `a`, then to `b`.
    fn write(&mut self, data: &[u8])
        ensures
            A::wrote(old(self).a, final(self).a, data@),
            B::wrote(old(self).b, final(self).b, data@),
    {
        self.a.write(data);
        self.b.write(data);
    }
}

} // verus!
