//! The pull contract that every byte source meets.

use vstd::prelude::*;

verus! {

/// A lazy, forward-only, finite producer of bytes for a single consumer.
pub trait ByteSource {
    /// The bytes that the source has yet to yield, in order.
    spec fn remaining(&self) -> Seq<u8>;

    /// The invariant of the source's cursor state.
    spec fn wf(&self) -> bool;

    /// Pulls the next byte: the first of the remaining bytes, or `None` once
    /// none remains. An exhausted source stays exhausted.
    fn next(&mut self) -> (b: Option<u8>)
        requires
            old(self).wf(),
        ensures
            final(self).wf(),
            old(self).remaining().len() == 0 ==> {
                &&& b is None
                &&& final(self).remaining() == old(self).remaining()
            },
            old(self).remaining().len() > 0 ==> {
                &&& b == Some(old(self).remaining()[0])
                &&& final(self).remaining() == old(self).remaining().drop_first()
            },
    ;
}

} // verus!
