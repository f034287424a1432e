//! Spawner component: periodically instantiates a named template entity.

use vstd::prelude::*;

verus! {

/// Spawning schedule. `interval` and `timer` hold IEEE-754 bit patterns;
/// the store never interprets them.
#[derive(Debug, Clone, PartialEq)]
pub struct SpawnerComponent {
    pub template: String,
    pub interval: u32,
    pub spawn_on_load: bool,
    pub timer: u32,
}

impl SpawnerComponent {
    pub fn new(template: String, interval: u32, spawn_on_load: bool) -> (r: Self)
        ensures
            r == (SpawnerComponent { template, interval, spawn_on_load, timer: 0u32 }),
    {
        SpawnerComponent { template, interval, spawn_on_load, timer: 0 }
    }
}

} // verus!
