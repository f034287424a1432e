//! Integrates movement intent into world positions.
//!
//! The pass itself works on floating-point data and platform input, so
//! it runs outside the verified library; this marker type names it.

use vstd::prelude::*;

verus! {

pub struct MovementSystem;

} // verus!
