use vstd::prelude::*;

verus! {

/// A cell position on the grid, or a step between two cells.
#[derive(Clone, Copy, Debug, PartialEq, Eq, Structural)]
pub struct Vec2 {
    pub x: i32,
    pub y: i32,
}

impl Vec2 {
    pub fn new(x: i32, y: i32) -> (v: Vec2)
        ensures
            v == (Vec2 { x, y }),
    {
        Vec2 { x, y }
    }

    /// The position as a pair of mathematical integers.
    pub open spec fn pos(self) -> (int, int) {
        (self.x as int, self.y as int)
    }
}

} // verus!
