//! Positions in source text: byte offsets as the lexer sees them, and the
//! line and character coordinates that are shown to a reader.

use vstd::prelude::*;

verus! {

/// A byte offset, counted from 0.
#[derive(Debug, Copy, Clone, PartialEq, Eq, Hash, Structural)]
pub struct ByteOffset(pub usize);

/// A line number, counted from 0.
#[derive(Debug, Copy, Clone, PartialEq, Eq, Hash, Structural)]
pub struct LineOffset(pub usize);

/// A character's place in its line, counted from 0 in Unicode scalar values.
#[derive(Debug, Copy, Clone, PartialEq, Eq, Hash, Structural)]
pub struct CharOffset(pub usize);

/// A byte offset from the start of the text.
#[derive(Debug, Copy, Clone, PartialEq, Eq, Hash, Structural)]
pub struct BytePosition(pub ByteOffset);

/// A line and a character in it, both from the start of the text.
#[derive(Debug, Copy, Clone, PartialEq, Eq, Hash, Structural)]
pub struct LineAndCharPosition {
    pub line: LineOffset,
    pub char: CharOffset,
}

impl ByteOffset {
    pub fn from_usize(n: usize) -> (r: Self)
        ensures
            r == ByteOffset(n),
    {
        ByteOffset(n)
    }

    pub fn to_usize(&self) -> (n: usize)
        ensures
            n == self.0,
    {
        self.0
    }
}

impl BytePosition {
    pub open spec fn spec_offset(&self) -> int {
        self.0.0 as int
    }

    pub fn from_usize(n: usize) -> (r: Self)
        ensures
            r == BytePosition(ByteOffset(n)),
    {
        BytePosition(ByteOffset(n))
    }

    #[verifier::when_used_as_spec(spec_offset_usize)]
    pub fn to_usize(&self) -> (n: usize)
        ensures
            n == self.0.0,
    {
        self.0.0
    }

    pub open spec fn spec_offset_usize(&self) -> usize {
        self.0.0
    }
}

impl LineAndCharPosition {
    pub fn new(line: usize, char: usize) -> (r: Self)
        ensures
            r == (LineAndCharPosition { line: LineOffset(line), char: CharOffset(char) }),
    {
        LineAndCharPosition { line: LineOffset(line), char: CharOffset(char) }
    }
}

} // verus!
