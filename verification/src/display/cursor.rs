//! The mouse pointer's position.
use vstd::prelude::*;

verus! {

/// The pointer's position on the screen.
pub struct Cursor {
    pub x: i32,
    pub y: i32,
}

impl Cursor {
    /// The pointer at `(100, 100)`.
    pub fn new() -> (r: Self)
        ensures
            r.x == 100 && r.y == 100,
    {
        Cursor { x: 100, y: 100 }
    }
}

} // verus!
