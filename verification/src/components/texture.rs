//! Texture component: which image asset an entity is drawn with.

use vstd::prelude::*;

verus! {

#[derive(Debug, Clone, PartialEq)]
pub struct TextureComponent {
    pub asset_path: String,
}

impl TextureComponent {
    pub fn new(asset_path: String) -> (r: Self)
        ensures
            r.asset_path@ == asset_path@,
    {
        TextureComponent { asset_path }
    }
}

} // verus!
