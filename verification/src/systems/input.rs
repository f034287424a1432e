//! Translates pressed keys into per-entity movement intent.
//!
//! The pass itself works on floating-point data and platform input, so
//! it runs outside the verified library; this marker type names it.

use vstd::prelude::*;

verus! {

pub struct InputSystem;

} // verus!
