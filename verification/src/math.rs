//! Small value types shared by the renderer.

use vstd::prelude::*;

verus! {

/// A pair of coordinates or extents.
#[derive(Clone, Copy, Debug, PartialEq, Eq)]
pub struct Vector2<T> {
    pub x: T,
    pub y: T,
}

impl<T: Copy> Vector2<T> {
    pub fn new(x: T, y: T) -> (r: Self)
        ensures
            r.x == x,
            r.y == y,
    {
        Vector2 { x, y }
    }

    pub fn x(&self) -> (r: T)
        ensures
            r == self.x,
    {
        self.x
    }

    pub fn y(&self) -> (r: T)
        ensures
            r == self.y,
    {
        self.y
    }
}

} // verus!
