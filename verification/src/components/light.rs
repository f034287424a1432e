//! Light component: a directional light source.

use vstd::prelude::*;

verus! {

/// What [`LightComponent::directional`] stores as direction: the given
/// vector scaled to unit length, or the vector itself when its length is
/// zero or not finite.
pub uninterp spec fn unit_direction(direction: [u32; 3]) -> [u32; 3];

/// Light source. `direction`, `color` and `intensity` hold IEEE-754 bit
/// patterns; the store never interprets them.
#[derive(Debug, Clone, Copy, PartialEq, Eq)]
pub struct LightComponent {
    pub direction: [u32; 3],
    pub color: [u32; 3],
    pub intensity: u32,
}

impl LightComponent {
    /// Builds a directional light whose direction is scaled to unit
    /// length.
    ///
    /// Relies on glam's `Vec3::normalize_or`: the result depends on the
    /// arguments alone, and the call returns on every input.
    #[verifier::external_body]
    pub fn directional(direction: [u32; 3], color: [u32; 3], intensity: u32) -> (r: Self)
        ensures
            r.direction == unit_direction(direction),
            r.color == color,
            r.intensity == intensity,
    {
        let v = glam::Vec3::from_array(bytemuck::cast(direction));
        let out: [u32; 3] = bytemuck::cast(v.normalize_or(v).to_array());
        LightComponent { direction: out, color, intensity }
    }
}

} // verus!
