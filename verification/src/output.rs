//! The move to hand to the game engine.

use vstd::prelude::*;

verus! {

/// A move: the column and the row at which the piece is anchored.
#[derive(Debug, Clone, Copy, PartialEq, Eq, Structural)]
pub struct Move {
    pub x: usize,
    pub y: usize,
}

impl Move {
    /// The move that anchors the piece in column `x` of row `y`.
    pub fn new(x: usize, y: usize) -> (m: Self)
        ensures
            m.x == x,
            m.y == y,
    {
        Move { x, y }
    }

    /// The move to make where no placement is legal: the top left corner.
    pub fn fallback() -> (m: Self)
        ensures
            m.x == 0,
            m.y == 0,
    {
        Move { x: 0, y: 0 }
    }
}

} // verus!
