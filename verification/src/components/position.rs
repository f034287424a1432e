//! World position, one of the mandatory columns of every archetype table.

use vstd::prelude::*;

verus! {

/// A point in world space. Each coordinate holds the raw bit pattern of
/// an IEEE-754 single-precision number; the verified store carries the
/// pattern through untouched and never does arithmetic on it.
#[derive(Debug, Clone, Copy, PartialEq, Eq, Structural)]
pub struct Position {
    pub x: u32,
    pub y: u32,
    pub z: u32,
}

impl Position {
    pub fn new(x: u32, y: u32, z: u32) -> (r: Self)
        ensures
            r == (Position { x, y, z }),
    {
        Position { x, y, z }
    }

    pub fn from_array(coords: [u32; 3]) -> (r: Self)
        ensures
            r == (Position { x: coords[0], y: coords[1], z: coords[2] }),
    {
        Position { x: coords[0], y: coords[1], z: coords[2] }
    }

    /// The origin: every coordinate is positive zero.
    pub fn zero() -> (r: Self)
        ensures
            r == (Position { x: 0u32, y: 0u32, z: 0u32 }),
    {
        Position { x: 0, y: 0, z: 0 }
    }

    pub fn as_array(&self) -> (r: [u32; 3])
        ensures
            r[0] == self.x,
            r[1] == self.y,
            r[2] == self.z,
    {
        [self.x, self.y, self.z]
    }
}

} // verus!
