//! The buffered byte source, and a buffer for it.

use vstd::prelude::*;
use crate::resource::Readable;
use crate::source::ByteSource;

verus! {

/// `Vec::into_boxed_slice` of the standard library turns a vector into a
/// boxed slice that holds the same elements in the same order.
#[verifier::external_body]
fn into_boxed(v: Vec<u8>) -> (b: Box<[u8]>)
    ensures
        b@ == v@,
{
    v.into_boxed_slice()
}

/// Makes a zeroed buffer of `length` bytes for a `BufferedReader` to borrow.
pub fn make_box(length: usize) -> (b: Box<[u8]>)
    ensures
        b@ == Seq::new(length as nat, |i: int| 0u8),
{
    let v = vec![0u8; length];
    into_boxed(v)
}

/// Pulls bytes from a resource in blocks: a borrowed buffer is filled by one
/// read request and then served byte by byte until it is used up.
pub struct BufferedReader<'b, R: Readable> {
    inner: R,
    buffer: &'b mut [u8],
    /// Index in `buffer` of the next byte to serve.
    offset: usize,
    /// Number of bytes at the front of `buffer` that the last refill put there.
    remainder: usize,
}

impl<'b, R: Readable> BufferedReader<'b, R> {
    /// The length of the borrowed buffer.
    pub closed spec fn capacity(&self) -> nat {
        self.buffer@.len()
    }

    /// The bytes that were read into the buffer and are not yet served.
    pub closed spec fn buffered(&self) -> Seq<u8> {
        self.buffer@.subrange(self.offset as int, self.remainder as int)
    }

    /// What the resource under the reader has yet to deliver.
    pub closed spec fn upstream(&self) -> Seq<u8> {
        self.inner.pending()
    }

    /// The read requests that the resource under the reader has been given
    /// so far: for each, the number of bytes asked for.
    pub closed spec fn requests(&self) -> Seq<nat> {
        self.inner.requests()
    }

    /// The cursor lies within the filled part of the buffer, and that part
    /// within the buffer.
    pub closed spec fn in_bounds(&self) -> bool {
        self.offset <= self.remainder <= self.buffer@.len()
    }

    /// Makes a source that reads from `inner` through `buffer`. Nothing is
    /// read yet.
    pub fn new(inner: R, buffer: &'b mut [u8]) -> (reader: Self)
        ensures
            reader.wf(),
            reader.capacity() == old(buffer)@.len(),
            reader.buffered() == Seq::<u8>::empty(),
            reader.upstream() == inner.pending(),
            reader.requests() == inner.requests(),
    {
        Self { inner, buffer, offset: 0, remainder: 0 }
    }

    /// Refills the used-up buffer with one read request, for as many bytes
    /// as the buffer holds. Returns `None`, and leaves the cursor alone,
    /// where the request brings no byte or fails.
    fn refill_buffer(&mut self) -> (r: Option<()>)
        requires
            old(self).wf(),
            old(self).buffered().len() == 0,
        ensures
            final(self).wf(),
            final(self).capacity() == old(self).capacity(),
            final(self).remaining() == old(self).remaining(),
            final(self).requests() == old(self).requests().push(old(self).capacity()),
            r is Some <==> old(self).remaining().len() > 0,
            r is Some ==> final(self).buffered().len() > 0,
            r is None ==> final(self).buffered().len() == 0,
    {
        match self.inner.read(self.buffer) {
            Err(_) => None,
            Ok(n) => {
                if n == 0 {
                    None
                } else {
                    self.offset = 0;
                    self.remainder = n;
                    Some(())
                }
            },
        }
    }
}

impl<'b, R: Readable> ByteSource for BufferedReader<'b, R> {
    /// What is buffered, then what the resource has yet to deliver. A reader
    /// with an empty buffer can fetch nothing and yields nothing.
    open spec fn remaining(&self) -> Seq<u8> {
        if self.capacity() == 0 {
            Seq::empty()
        } else {
            self.buffered() + self.upstream()
        }
    }

    open spec fn wf(&self) -> bool {
        self.in_bounds()
    }

    /// Serves the next byte from the buffer. Only where the buffer is used
    /// up does it make a read request first: one, for as many bytes as the
    /// buffer holds.
    fn next(&mut self) -> (b: Option<u8>)
        ensures
            final(self).capacity() == old(self).capacity(),
            old(self).buffered().len() > 0 ==> {
                &&& final(self).buffered() == old(self).buffered().drop_first()
                &&& final(self).upstream() == old(self).upstream()
                &&& final(self).requests() == old(self).requests()
            },
            old(self).buffered().len() == 0 ==> final(self).requests() == old(
                self,
            ).requests().push(old(self).capacity()),
    {
        if self.offset == self.remainder {
            self.refill_buffer()?;
        }
        let offset = self.offset;
        self.offset += 1;
        Some(self.buffer[offset])
    }
}

} // verus!
