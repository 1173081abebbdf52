//! An in-memory, seek-capable byte source for the traversal engine.

use vstd::prelude::*;

verus! {

/// A byte stream with a read position.  The traversal engine reads headers
/// at the position, hands leaf payloads out as slices, and seeks past boxes.
pub struct ByteSource {
    /// The whole stream.
    pub data: Vec<u8>,
    /// The current read position, an offset into `data`.
    pub pos: usize,
}

impl ByteSource {
    /// A source positioned at the start of `data`.
    pub fn new(data: Vec<u8>) -> (s: ByteSource)
        ensures
            s.data@ == data@,
            s.pos == 0,
    {
        ByteSource { data, pos: 0 }
    }

    /// The current read position.
    pub fn position(&self) -> (p: usize)
        ensures
            p == self.pos,
    {
        self.pos
    }
}

} // verus!
