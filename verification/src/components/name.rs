//! Display name, one of the mandatory columns of every archetype table.

use vstd::prelude::*;

verus! {

/// Human-readable entity name. Names need not be unique; lookups by name
/// return the first match found.
#[derive(Debug, Clone, PartialEq)]
pub struct Name(pub String);

} // verus!
