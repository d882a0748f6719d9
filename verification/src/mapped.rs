//! The memory-mapped byte source.

use vstd::prelude::*;
use crate::source::ByteSource;

verus! {

/// Pulls bytes by moving a cursor over a region of memory that holds the
/// whole input, such as a file mapped into the address space. The reader
/// borrows the region: whoever made the mapping keeps it alive for as long
/// and releases it afterwards.
pub struct MMapReader<'f> {
    region: &'f [u8],
    cursor: usize,
}

impl<'f> MMapReader<'f> {
    /// The bytes of the whole region.
    pub closed spec fn region(&self) -> Seq<u8> {
        self.region@
    }

    /// How far into the region the cursor stands.
    pub closed spec fn position(&self) -> nat {
        self.cursor as nat
    }

    /// Makes a source that yields the bytes of `region` from its start.
    pub fn new(region: &'f [u8]) -> (reader: Self)
        ensures
            reader.wf(),
            reader.region() == region@,
            reader.position() == 0,
    {
        Self { region, cursor: 0 }
    }
}

impl<'f> ByteSource for MMapReader<'f> {
    open spec fn remaining(&self) -> Seq<u8> {
        self.region().skip(self.position() as int)
    }

    /// The cursor lies within the region, its end included.
    open spec fn wf(&self) -> bool {
        self.position() <= self.region().len()
    }

    /// Reads the byte under the cursor and moves the cursor one byte on; at
    /// the end of the region the cursor stays. The region is never changed,
    /// and the cursor never moves back.
    fn next(&mut self) -> (b: Option<u8>)
        ensures
            final(self).region() == old(self).region(),
            final(self).position() == if old(self).position() < old(self).region().len() {
                old(self).position() + 1
            } else {
                old(self).position()
            },
    {
        if self.cursor < self.region.len() {
            let out = self.region[self.cursor];
            self.cursor += 1;
            Some(out)
        } else {
            None
        }
    }
}

} // verus!
