//! Render component: color and size of an entity's drawn shape.

use vstd::prelude::*;

verus! {

/// Visual appearance. `color` holds three IEEE-754 bit patterns
/// (red, green, blue); `size` holds one. The store never interprets them.
#[derive(Debug, Clone, Copy, PartialEq, Eq)]
pub struct RenderComponent {
    pub color: [u32; 3],
    pub size: u32,
}

impl RenderComponent {
    pub fn new(color: [u32; 3], size: u32) -> (r: Self)
        ensures
            r.color == color,
            r.size == size,
    {
        RenderComponent { color, size }
    }
}

} // verus!
