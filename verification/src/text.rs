//! Byte offsets and byte ranges into a source text.

use vstd::prelude::*;

verus! {

/// A byte offset into a source text.
pub type TextSize = u32;

/// The half-open byte range `start..end` of a source text.
#[derive(Clone, Copy, PartialEq, Eq, Structural, Hash, Debug)]
pub struct TextRange {
    pub start: u32,
    pub end: u32,
}

impl TextRange {
    /// A range never ends before it starts.
    pub open spec fn wf(self) -> bool {
        self.start <= self.end
    }

    /// The bytes of `text` that the range spans.
    pub open spec fn slice(self, text: Seq<u8>) -> Seq<u8>
        recommends
            self.wf(),
            self.end <= text.len(),
    {
        text.subrange(self.start as int, self.end as int)
    }

    pub fn new(start: TextSize, end: TextSize) -> (r: TextRange)
        requires
            start <= end,
        ensures
            r == (TextRange { start, end }),
            r.wf(),
    {
        TextRange { start, end }
    }

    pub fn start(self) -> (r: TextSize)
        ensures
            r == self.start,
    {
        self.start
    }

    pub fn end(self) -> (r: TextSize)
        ensures
            r == self.end,
    {
        self.end
    }

    pub fn len(self) -> (r: TextSize)
        requires
            self.wf(),
        ensures
            r == self.end - self.start,
    {
        self.end - self.start
    }

    pub fn is_empty(self) -> (r: bool)
        ensures
            r == (self.start == self.end),
    {
        self.start == self.end
    }
}

} // verus!
