//! Per-cell boundary flags.

use vstd::prelude::*;

verus! {

/// The walls on the top and left edges of one cell.
///
/// A wall separates the cell from its neighbour directly above (top) or
/// directly to the left (left). Two grid-adjacent cells with no wall between
/// them belong to the same aquarium.
#[derive(Clone, Copy, Debug, PartialEq, Eq, Structural)]
pub struct Walls {
    pub has_top_wall: bool,
    pub has_left_wall: bool,
}

impl Walls {
    /// A cell with no walls.
    pub fn new() -> (w: Walls)
        ensures
            !w.has_top_wall,
            !w.has_left_wall,
    {
        Walls { has_top_wall: false, has_left_wall: false }
    }

    /// Puts a wall on the left edge; the top edge is unchanged.
    pub fn set_left(&mut self)
        ensures
            final(self).has_left_wall,
            final(self).has_top_wall == old(self).has_top_wall,
    {
        self.has_left_wall = true;
    }

    /// Whether the left edge carries a wall.
    pub fn left(&self) -> (b: bool)
        ensures
            b == self.has_left_wall,
    {
        self.has_left_wall
    }

    /// Puts a wall on the top edge; the left edge is unchanged.
    pub fn set_top(&mut self)
        ensures
            final(self).has_top_wall,
            final(self).has_left_wall == old(self).has_left_wall,
    {
        self.has_top_wall = true;
    }

    /// Whether the top edge carries a wall.
    pub fn top(&self) -> (b: bool)
        ensures
            b == self.has_top_wall,
    {
        self.has_top_wall
    }
}

} // verus!
