//! Positions in the source text.

use vstd::prelude::*;

verus! {

/// The first of the positions that are set aside for comments.
pub const DUMMY_RESERVE: u32 = 0xFFFE_FFFF;

/// An offset into the source text, counted in bytes.
#[derive(Clone, Copy, PartialEq, Eq, Hash, PartialOrd, Ord, Debug)]
pub struct BytePos(pub u32);

impl BytePos {
    /// Dummy position. This is reserved for synthesized spans.
    pub fn dummy() -> (pos: BytePos)
        ensures
            pos.0 == 0,
    {
        BytePos(0)
    }

    /// The position lies in the range set aside for comments: from
    /// `DUMMY_RESERVE` up to the largest position but one.
    pub fn is_reserved_for_comments(self) -> (reserved: bool)
        ensures
            reserved == (DUMMY_RESERVE <= self.0 < u32::MAX),
    {
        self.0 >= DUMMY_RESERVE && self.0 != u32::MAX
    }

    /// Returns true if this is synthesized and has no relevant input source
    /// code.
    pub fn is_dummy(self) -> (dummy: bool)
        ensures
            dummy == (self.0 == 0),
    {
        self.0 == 0
    }
}

} // verus!
