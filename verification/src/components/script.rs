//! Script component: names the behavior driving an entity, with its
//! parameters.

use vstd::prelude::*;

verus! {

/// Behavior reference. `base_height` holds an IEEE-754 bit pattern (the
/// entity's spawn height, which scripts oscillate around); `params` is a
/// key/value parameter list.
#[derive(Debug, Clone, PartialEq)]
pub struct ScriptComponent {
    pub name: String,
    pub base_height: u32,
    pub params: Vec<(String, String)>,
}

impl ScriptComponent {
    pub fn new(name: String, base_height: u32) -> (r: Self)
        ensures
            r.name@ == name@,
            r.base_height == base_height,
            r.params@ == Seq::<(String, String)>::empty(),
    {
        ScriptComponent { name, base_height, params: Vec::new() }
    }

    pub fn with_params(name: String, base_height: u32, params: Vec<(String, String)>) -> (r: Self)
        ensures
            r.name@ == name@,
            r.base_height == base_height,
            r.params@ == params@,
    {
        ScriptComponent { name, base_height, params }
    }
}

} // verus!
