//! World orientation, one of the mandatory columns of every archetype
//! table, stored as a quaternion.

use vstd::prelude::*;

verus! {

/// Bit pattern of 1.0f32.
pub const ONE_BITS: u32 = 0x3f800000;

/// A rotation, stored as the four raw IEEE-754 bit patterns of a
/// quaternion (x, y, z, w). The verified store carries the pattern
/// through untouched; quaternion arithmetic happens only behind the
/// trusted bridge functions below and in [`crate::transform`].
#[derive(Debug, Clone, Copy, PartialEq, Eq, Structural)]
pub struct Orientation {
    pub x: u32,
    pub y: u32,
    pub z: u32,
    pub w: u32,
}

/// What [`Orientation::from_quat`] returns for the given raw quaternion:
/// the quaternion scaled to unit length, or the identity rotation when
/// its length is zero or not finite.
pub uninterp spec fn unit_orientation(x: u32, y: u32, z: u32, w: u32) -> Orientation;

/// What [`Orientation::from_yaw_pitch_roll`] returns: the rotation that
/// applies roll, then pitch, then yaw (intrinsic Y-X-Z order), from the
/// three angles given in radians as IEEE-754 bit patterns.
pub uninterp spec fn euler_orientation(yaw: u32, pitch: u32, roll: u32) -> Orientation;

impl Orientation {
    /// The rotation that leaves every vector unchanged.
    pub fn identity() -> (r: Self)
        ensures
            r == Orientation::identity_spec(),
    {
        Orientation { x: 0, y: 0, z: 0, w: ONE_BITS }
    }

    /// The identity quaternion (0, 0, 0, 1).
    pub open spec fn identity_spec() -> Self {
        Orientation { x: 0u32, y: 0u32, z: 0u32, w: ONE_BITS }
    }

    /// Builds an orientation from raw quaternion bit patterns, scaling
    /// to unit length and falling back to the identity for degenerate
    /// input.
    ///
    /// Relies on glam's `Vec4::normalize_or` and `Quat::from_vec4`: the
    /// result depends on the four bit patterns alone, and glam's
    /// feature-gated debug assertions are disabled, so the call returns
    /// on every input.
    #[verifier::external_body]
    pub fn from_quat(x: u32, y: u32, z: u32, w: u32) -> (r: Self)
        ensures
            r == unit_orientation(x, y, z, w),
    {
        let v = glam::Vec4::from_array(bytemuck::cast([x, y, z, w]));
        let q = glam::Quat::from_vec4(v.normalize_or(glam::Vec4::W));
        let out: [u32; 4] = bytemuck::cast(q.to_array());
        Orientation { x: out[0], y: out[1], z: out[2], w: out[3] }
    }

    /// Builds an orientation from yaw, pitch and roll angles given in
    /// radians as IEEE-754 bit patterns.
    ///
    /// Relies on glam's `Quat::from_euler` with the intrinsic Y-X-Z
    /// rotation order: the result depends on the three bit patterns
    /// alone, and the call returns on every input.
    #[verifier::external_body]
    pub fn from_yaw_pitch_roll(yaw: u32, pitch: u32, roll: u32) -> (r: Self)
        ensures
            r == euler_orientation(yaw, pitch, roll),
    {
        let [y, p, ro]: [_; 3] = bytemuck::cast([yaw, pitch, roll]);
        let q = glam::Quat::from_euler(glam::EulerRot::YXZ, y, p, ro);
        let v = glam::Vec4::from(q).normalize_or(glam::Vec4::W);
        let out: [u32; 4] = bytemuck::cast(glam::Quat::from_vec4(v).to_array());
        Orientation { x: out[0], y: out[1], z: out[2], w: out[3] }
    }

    pub fn as_array(&self) -> (r: [u32; 4])
        ensures
            r[0] == self.x,
            r[1] == self.y,
            r[2] == self.z,
            r[3] == self.w,
    {
        [self.x, self.y, self.z, self.w]
    }

    /// Replaces this orientation with one built from the raw quaternion
    /// bit patterns, scaled to unit length as in [`Orientation::from_quat`].
    pub fn set_quat(&mut self, x: u32, y: u32, z: u32, w: u32)
        ensures
            *final(self) == unit_orientation(x, y, z, w),
    {
        *self = Orientation::from_quat(x, y, z, w);
    }
}

impl Default for Orientation {
    fn default() -> (r: Self)
        ensures
            r == Orientation::identity_spec(),
    {
        Orientation::identity()
    }
}

} // verus!
