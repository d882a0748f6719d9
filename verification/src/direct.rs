//! The direct byte source.

use vstd::prelude::*;
use crate::resource::Readable;
use crate::source::ByteSource;

verus! {

/// Pulls bytes straight from a resource: one read request of one byte for
/// each byte pulled.
pub struct ByteReader<R: Readable> {
    inner: R,
}

impl<R: Readable> ByteReader<R> {
    /// What the resource under the reader has yet to deliver.
    pub closed spec fn upstream(&self) -> Seq<u8> {
        self.inner.pending()
    }

    /// The read requests that the resource under the reader has been given
    /// so far: for each, the number of bytes asked for.
    pub closed spec fn requests(&self) -> Seq<nat> {
        self.inner.requests()
    }

    /// Makes a source that yields what `inner` has yet to deliver. Nothing
    /// is read yet.
    pub fn new(inner: R) -> (reader: Self)
        ensures
            reader.wf(),
            reader.upstream() == inner.pending(),
            reader.requests() == inner.requests(),
    {
        Self { inner }
    }
}

impl<R: Readable> ByteSource for ByteReader<R> {
    open spec fn remaining(&self) -> Seq<u8> {
        self.upstream()
    }

    open spec fn wf(&self) -> bool {
        true
    }

    /// Makes one read request, for a single byte. No byte and a failure
    /// both end the stream.
    fn next(&mut self) -> (b: Option<u8>)
        ensures
            final(self).requests() == old(self).requests().push(1),
    {
        let mut buf = [0u8; 1];
        match self.inner.read(&mut buf) {
            Ok(n) => {
                if n == 1 {
                    assert(buf@.take(1)[0] == old(self).inner.pending().take(1)[0]);
                    Some(buf[0])
                } else {
                    None
                }
            },
            Err(_) => None,
        }
    }
}

} // verus!
