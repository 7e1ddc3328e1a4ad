//! Length-delimited batching of multiple CVWP streams.
//!
//! A capture or a batched upload concatenates several independent streams, each
//! prefixed with a 4-byte big-endian length. This reader splits such a buffer
//! into per-stream slices without copying, so the caller can feed each stream
//! to a session in turn.

use vstd::prelude::*;

use crate::error::{Error, Kind};
use crate::util::{be32, read_be32};

verus! {

pub struct BatchReader<'a> {
    buf: &'a [u8],
    pos: usize,
    max_stream: usize,
}

/// What reading the next stream from the unread bytes `b` gives: `Ok(None)`
/// at the end, the stream's bytes, or the error kind; with the bytes left
/// afterwards.
pub open spec fn spec_next(b: Seq<u8>, max_stream: int) -> (Result<Option<Seq<u8>>, Kind>, Seq<u8>) {
    if b.len() == 0 {
        (Ok(None), b)
    } else if b.len() < 4 {
        (Err(Kind::Malformed), b)
    } else if be32(b) > max_stream {
        (Err(Kind::Limit), b.skip(4))
    } else if be32(b) > b.len() - 4 {
        (Err(Kind::Malformed), b.skip(4))
    } else {
        (Ok(Some(b.subrange(4, 4 + be32(b)))), b.skip(4 + be32(b)))
    }
}

/// How many streams a batch holds when every length prefix frames cleanly up
/// to the end (`None` when one does not).
pub open spec fn batch_count(b: Seq<u8>, max_stream: int) -> Option<nat>
    decreases b.len(),
{
    let (want, after) = spec_next(b, max_stream);
    match want {
        Ok(None) => Some(0),
        Ok(Some(_)) => if after.len() < b.len() {
            match batch_count(after, max_stream) {
                Some(n) => Some(n + 1),
                None => None,
            }
        } else {
            None
        },
        Err(_) => None,
    }
}

impl<'a> BatchReader<'a> {
    pub closed spec fn wf(&self) -> bool {
        self.pos <= self.buf@.len()
    }

    /// The bytes not yet consumed.
    pub closed spec fn rest(&self) -> Seq<u8> {
        self.buf@.skip(self.pos as int)
    }

    pub closed spec fn spec_max_stream(&self) -> usize {
        self.max_stream
    }

    /// A reader accepting streams of up to 8 MiB.
    pub fn new(buf: &'a [u8]) -> (r: BatchReader<'a>)
        ensures
            r.wf(),
            r.rest() == buf@,
            r.spec_max_stream() == 8388608,
    {
        let r = BatchReader { buf, pos: 0, max_stream: 8388608 };
        assert(buf@.skip(0) =~= buf@);
        r
    }

    pub fn with_max(buf: &'a [u8], max_stream: usize) -> (r: BatchReader<'a>)
        ensures
            r.wf(),
            r.rest() == buf@,
            r.spec_max_stream() == max_stream,
    {
        let r = BatchReader { buf, pos: 0, max_stream };
        assert(buf@.skip(0) =~= buf@);
        r
    }

    /// Return the next stream slice, or `None` at end of buffer.
    pub fn next_stream(&mut self) -> (res: Result<Option<&'a [u8]>, Error>)
        requires
            old(self).wf(),
        ensures
            final(self).wf(),
            final(self).spec_max_stream() == old(self).spec_max_stream(),
            ({
                let (want, after) = spec_next(old(self).rest(), old(self).spec_max_stream() as int);
                &&& final(self).rest() == after
                &&& match want {
                    Ok(None) => res matches Ok(None),
                    Ok(Some(s)) => res is Ok && res->Ok_0 is Some && res->Ok_0->Some_0@ == s,
                    Err(k) => res is Err && res->Err_0.kind == k,
                }
            }),
    {
        let ghost b = self.rest();
        if self.pos >= self.buf.len() {
            return Ok(None);
        }
        if self.buf.len() - self.pos < 4 {
            return Err(Error::malformed("batch length truncated"));
        }
        let p = self.pos;
        let len = read_be32(self.buf[p], self.buf[p + 1], self.buf[p + 2], self.buf[p + 3]) as usize;
        proof {
            assert(b[0] == self.buf@[p as int] && b[1] == self.buf@[p + 1] && b[2] == self.buf@[p + 2] && b[3]
                == self.buf@[p + 3]);
        }
        self.pos = p + 4;
        assert(self.rest() =~= b.skip(4));
        if len > self.max_stream {
            return Err(Error::limit("batched stream too large").with_context(len as u64));
        }
        if len > self.buf.len() - self.pos {
            return Err(Error::malformed("batched stream runs past buffer"));
        }
        let s = &self.buf[self.pos..self.pos + len];
        self.pos = self.pos + len;
        proof {
            assert(s@ =~= b.subrange(4, 4 + len as int));
            assert(self.rest() =~= b.skip(4 + len as int));
        }
        Ok(Some(s))
    }
}

} // verus!
