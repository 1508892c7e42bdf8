use vstd::prelude::*;

verus! {

/// The store that a piece reads its bytes from.
#[derive(Debug, Clone, Copy, PartialEq, Eq, Structural)]
pub enum Source {
    /// The text the table was created from.
    Data,
    /// The text inserted since.
    Add,
}

/// A run of `length` bytes that starts at `offset` in one of the two stores.
#[derive(Debug, Clone, Copy, PartialEq, Eq, Structural)]
pub struct Piece {
    pub source: Source,
    pub offset: usize,
    pub length: usize,
}

impl Piece {
    /// The piece of `length` bytes at `offset` in the store `action`.
    pub fn new(action: Source, offset: usize, length: usize) -> (piece: Piece)
        ensures
            piece == (Piece { source: action, offset, length }),
    {
        Piece { source: action, offset, length }
    }
}

} // verus!
