//! Memory accounting report types. The estimation pass itself walks the
//! store's public tables from the surrounding engine.

use vstd::prelude::*;

verus! {

/// Estimated bytes attributed to one component of an entity.
#[derive(Debug, Clone, PartialEq)]
pub struct ComponentMemoryUsage {
    pub label: &'static str,
    pub estimated_bytes: usize,
}

/// Estimated bytes attributed to one entity, with its breakdown.
#[derive(Debug, Clone, PartialEq)]
pub struct EntityMemoryUsage {
    pub id: u32,
    pub name: String,
    pub estimated_bytes: usize,
    pub components: Vec<ComponentMemoryUsage>,
}

} // verus!
