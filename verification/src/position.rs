use vstd::prelude::*;

verus! {

/// A place in a document: column `x` on line `y`, both counted from zero.
#[derive(Clone, Copy, Debug, PartialEq, Eq, Structural)]
pub struct Position {
    pub x: usize,
    pub y: usize,
}

impl Position {
    /// The position in column `x` of line `y`.
    pub fn new(x: usize, y: usize) -> (position: Position)
        ensures
            position == (Position { x, y }),
    {
        Position { x, y }
    }

    /// The same place in the one-based coordinates of a terminal.
    pub fn get_terminal(&self) -> (cell: (u16, u16))
        requires
            self.x < u16::MAX,
            self.y < u16::MAX,
        ensures
            cell.0 == self.x + 1,
            cell.1 == self.y + 1,
    {
        (self.x as u16 + 1, self.y as u16 + 1)
    }
}

impl Default for Position {
    /// The first column of the first line.
    fn default() -> (position: Position)
        ensures
            position == (Position { x: 0, y: 0 }),
    {
        Position { x: 0, y: 0 }
    }
}

} // verus!
