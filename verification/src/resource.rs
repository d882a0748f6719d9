//! Readable resources: where a byte source gets its bytes from.

use vstd::prelude::*;

verus! {

/// A read request could not be served.
#[derive(Debug, Clone, Copy, PartialEq, Eq)]
pub struct ReadError;

/// A resource that hands out a finite sequence of bytes in blocks, front to
/// back. A resource that fails has nothing more to deliver: what it holds is
/// what it delivers before it ends, for whichever reason.
pub trait Readable {
    /// The bytes that the resource has yet to deliver, in order.
    spec fn pending(&self) -> Seq<u8>;

    /// The read requests that the resource has been given so far, in order:
    /// for each, the number of bytes that was asked for.
    spec fn requests(&self) -> Seq<nat>;

    /// Serves one read request: moves some of the pending bytes, at most
    /// `buf.len()` of them, to the front of `buf` and returns how many.
    /// Zero bytes are moved only where `buf` is empty or nothing is pending.
    /// A failure comes only where nothing is pending.
    fn read(&mut self, buf: &mut [u8]) -> (r: Result<usize, ReadError>)
        ensures
            final(buf)@.len() == old(buf)@.len(),
            final(self).requests() == old(self).requests().push(old(buf)@.len()),
            match r {
                Ok(n) => {
                    &&& n <= old(buf)@.len()
                    &&& n <= old(self).pending().len()
                    &&& n == 0 ==> old(buf)@.len() == 0 || old(self).pending().len() == 0
                    &&& final(buf)@.take(n as int) == old(self).pending().take(n as int)
                    &&& final(self).pending() == old(self).pending().skip(n as int)
                },
                Err(_) => {
                    &&& old(self).pending().len() == 0
                    &&& final(self).pending() == old(self).pending()
                },
            },
    ;
}

/// Bytes in memory as a resource. A request is served from the front of
/// what is left, as far as the request and the bytes allow.
pub struct Memory<'a> {
    bytes: &'a [u8],
    served: Ghost<Seq<nat>>,
}

impl<'a> Memory<'a> {
    /// Makes a resource that delivers `bytes`, and that no request has been
    /// made of.
    pub fn new(bytes: &'a [u8]) -> (resource: Self)
        ensures
            resource.pending() == bytes@,
            resource.requests() == Seq::<nat>::empty(),
    {
        Self { bytes, served: Ghost(Seq::empty()) }
    }
}

impl<'a> Readable for Memory<'a> {
    closed spec fn pending(&self) -> Seq<u8> {
        self.bytes@
    }

    closed spec fn requests(&self) -> Seq<nat> {
        self.served@
    }

    /// Never fails, and moves as many bytes as the request and what is
    /// pending allow.
    fn read(&mut self, buf: &mut [u8]) -> (r: Result<usize, ReadError>)
        ensures
            r == Ok::<usize, ReadError>(
                if old(buf)@.len() < old(self).pending().len() {
                    old(buf)@.len() as usize
                } else {
                    old(self).pending().len() as usize
                },
            ),
    {
        let n: usize = if buf.len() < self.bytes.len() {
            buf.len()
        } else {
            self.bytes.len()
        };
        let mut i: usize = 0;
        while i < n
            invariant
                i <= n,
                n <= buf@.len(),
                n <= self.bytes@.len(),
                buf@.len() == old(buf)@.len(),
                *self == *old(self),
                buf@.take(i as int) == self.bytes@.take(i as int),
            decreases n - i,
        {
            buf[i] = self.bytes[i];
            i += 1;
        }
        self.bytes = vstd::slice::slice_subrange(self.bytes, n, self.bytes.len());
        self.served = Ghost(self.served@.push(buf@.len()));
        Ok(n)
    }
}

/// A resource that breaks off: it delivers what `inner` delivers, and where
/// `inner` has come to its end, a request for bytes fails.
pub struct Failing<R: Readable> {
    inner: R,
}

impl<R: Readable> Failing<R> {
    /// Makes a resource that delivers what `inner` has yet to deliver, and
    /// then fails.
    pub fn new(inner: R) -> (resource: Self)
        ensures
            resource.pending() == inner.pending(),
            resource.requests() == inner.requests(),
    {
        Self { inner }
    }
}

impl<R: Readable> Readable for Failing<R> {
    closed spec fn pending(&self) -> Seq<u8> {
        self.inner.pending()
    }

    closed spec fn requests(&self) -> Seq<nat> {
        self.inner.requests()
    }

    /// Fails wherever bytes are asked for and none is pending.
    fn read(&mut self, buf: &mut [u8]) -> (r: Result<usize, ReadError>)
        ensures
            old(buf)@.len() > 0 && old(self).pending().len() == 0 ==> r is Err,
    {
        let wanted = buf.len();
        match self.inner.read(buf) {
            Ok(n) => {
                if n == 0 && wanted > 0 {
                    Err(ReadError)
                } else {
                    Ok(n)
                }
            },
            Err(e) => Err(e),
        }
    }
}

} // verus!
