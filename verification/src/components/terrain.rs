//! Terrain component: ground plane dimensions and appearance.

use vstd::prelude::*;

verus! {

/// Ground description. `size`, `height` and the `color` channels hold
/// IEEE-754 bit patterns; the store never interprets them.
#[derive(Debug, Clone, PartialEq)]
pub struct TerrainComponent {
    pub size: u32,
    pub height: u32,
    pub color: [u32; 3],
    pub texture: Option<String>,
    pub model_asset: String,
}

impl TerrainComponent {
    pub fn new(
        size: u32,
        height: u32,
        color: [u32; 3],
        texture: Option<String>,
        model_asset: String,
    ) -> (r: Self)
        ensures
            r == (TerrainComponent { size, height, color, texture, model_asset }),
    {
        TerrainComponent { size, height, color, texture, model_asset }
    }
}

} // verus!
