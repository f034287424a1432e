//! Renderer-facing accounting values. The renderer itself lives in the
//! surrounding engine.

use vstd::prelude::*;

verus! {

/// GPU memory attributed to one entity's assets, in bytes.
#[derive(Debug, Clone, Copy, PartialEq, Eq, Structural)]
pub struct GpuMemoryUsage {
    pub model_bytes: usize,
    pub texture_bytes: usize,
}

impl GpuMemoryUsage {
    /// The total over both asset kinds.
    pub fn total_bytes(&self) -> (r: usize)
        requires
            self.model_bytes + self.texture_bytes <= usize::MAX,
        ensures
            r == self.model_bytes + self.texture_bytes,
    {
        self.model_bytes + self.texture_bytes
    }
}

} // verus!
