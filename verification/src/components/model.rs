//! Model component: which mesh asset an entity is drawn with.

use vstd::prelude::*;

verus! {

#[derive(Debug, Clone, PartialEq)]
pub struct ModelComponent {
    pub asset_path: String,
}

impl ModelComponent {
    pub fn new(asset_path: String) -> (r: Self)
        ensures
            r.asset_path@ == asset_path@,
    {
        ModelComponent { asset_path }
    }
}

} // verus!
