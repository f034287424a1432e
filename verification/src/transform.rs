//! Trusted bridge to quaternion/vector arithmetic.
//!
//! The verified store carries positions and orientations as raw IEEE-754
//! bit patterns and never computes with them. The hierarchy resolver,
//! however, must compose a child's world transform from its parent's.
//! Each composition step is performed by glam behind one of the trusted
//! functions below, and each result is given a name that the resolver's
//! contracts speak of exactly.

use crate::components::orientation::Orientation;
use crate::components::position::Position;
use vstd::prelude::*;

verus! {

/// What [`rotate_by`] returns: the vector `v` rotated by `rot`.
pub uninterp spec fn rotated(rot: Orientation, v: Position) -> Position;

/// What [`translate_by`] returns: the componentwise sum `a + b`.
pub uninterp spec fn translated(a: Position, b: Position) -> Position;

/// What [`combine`] returns: the rotation `parent * local`, scaled to
/// unit length (identity for degenerate input).
pub uninterp spec fn combined(parent: Orientation, local: Orientation) -> Orientation;

/// What [`difference_of`] returns: the componentwise difference `a - b`.
pub uninterp spec fn difference(a: Position, b: Position) -> Position;

/// What [`inverse_rotate_by`] returns: the vector `v` rotated by the
/// inverse of `rot`.
pub uninterp spec fn inverse_rotated(rot: Orientation, v: Position) -> Position;

/// What [`inverse_combine`] returns: the rotation `parent⁻¹ * child`,
/// scaled to unit length (identity for degenerate input).
pub uninterp spec fn inverse_combined(parent: Orientation, child: Orientation) -> Orientation;

/// Where a child with local offset `local` stands in world space, given
/// its parent's world position and orientation: the offset rotated by
/// the parent's orientation, added to the parent's position.
pub open spec fn composed_position(
    parent_pos: Position,
    parent_rot: Orientation,
    local: Position,
) -> Position {
    translated(parent_pos, rotated(parent_rot, local))
}

/// How a child with local orientation offset `local` is oriented in
/// world space: the parent's world orientation multiplied by the offset.
pub open spec fn composed_orientation(parent_rot: Orientation, local: Orientation) -> Orientation {
    combined(parent_rot, local)
}

/// Relies on glam's `Quat::mul_vec3`: the result depends on the two
/// arguments alone, and glam's feature-gated debug assertions are
/// disabled, so the call returns on every input.
#[verifier::external_body]
pub(crate) fn rotate_by(rot: &Orientation, v: &Position) -> (r: Position)
    ensures
        r == rotated(*rot, *v),
{
    let q = glam::Quat::from_array(bytemuck::cast([rot.x, rot.y, rot.z, rot.w]));
    let p = glam::Vec3::from_array(bytemuck::cast([v.x, v.y, v.z]));
    let out: [u32; 3] = bytemuck::cast(q.mul_vec3(p).to_array());
    Position { x: out[0], y: out[1], z: out[2] }
}

/// Relies on glam's `Vec3` addition: the result depends on the two
/// arguments alone, and the call returns on every input.
#[verifier::external_body]
pub(crate) fn translate_by(a: &Position, b: &Position) -> (r: Position)
    ensures
        r == translated(*a, *b),
{
    let va = glam::Vec3::from_array(bytemuck::cast([a.x, a.y, a.z]));
    let vb = glam::Vec3::from_array(bytemuck::cast([b.x, b.y, b.z]));
    let out: [u32; 3] = bytemuck::cast((va + vb).to_array());
    Position { x: out[0], y: out[1], z: out[2] }
}

/// Relies on glam's `Quat::mul_quat` and `Vec4::normalize_or`: the
/// result depends on the two arguments alone, and the calls return on
/// every input.
#[verifier::external_body]
pub(crate) fn combine(parent: &Orientation, local: &Orientation) -> (r: Orientation)
    ensures
        r == combined(*parent, *local),
{
    let p = glam::Quat::from_array(bytemuck::cast([parent.x, parent.y, parent.z, parent.w]));
    let l = glam::Quat::from_array(bytemuck::cast([local.x, local.y, local.z, local.w]));
    let v = glam::Vec4::from(p.mul_quat(l)).normalize_or(glam::Vec4::W);
    let out: [u32; 4] = bytemuck::cast(glam::Quat::from_vec4(v).to_array());
    Orientation { x: out[0], y: out[1], z: out[2], w: out[3] }
}

/// Relies on glam's `Vec3` subtraction: the result depends on the two
/// arguments alone, and the call returns on every input.
#[verifier::external_body]
pub(crate) fn difference_of(a: &Position, b: &Position) -> (r: Position)
    ensures
        r == difference(*a, *b),
{
    let va = glam::Vec3::from_array(bytemuck::cast([a.x, a.y, a.z]));
    let vb = glam::Vec3::from_array(bytemuck::cast([b.x, b.y, b.z]));
    let out: [u32; 3] = bytemuck::cast((va - vb).to_array());
    Position { x: out[0], y: out[1], z: out[2] }
}

/// Relies on glam's `Quat::conjugate` and `Quat::mul_vec3`: the result
/// depends on the two arguments alone, and glam's feature-gated debug
/// assertions are disabled, so the calls return on every input.
#[verifier::external_body]
pub(crate) fn inverse_rotate_by(rot: &Orientation, v: &Position) -> (r: Position)
    ensures
        r == inverse_rotated(*rot, *v),
{
    let q = glam::Quat::from_array(bytemuck::cast([rot.x, rot.y, rot.z, rot.w]));
    let p = glam::Vec3::from_array(bytemuck::cast([v.x, v.y, v.z]));
    let out: [u32; 3] = bytemuck::cast(q.conjugate().mul_vec3(p).to_array());
    Position { x: out[0], y: out[1], z: out[2] }
}

/// Relies on glam's `Quat::conjugate`, `Quat::mul_quat` and
/// `Vec4::normalize_or`: the result depends on the two arguments alone,
/// and the calls return on every input.
#[verifier::external_body]
pub(crate) fn inverse_combine(parent: &Orientation, child: &Orientation) -> (r: Orientation)
    ensures
        r == inverse_combined(*parent, *child),
{
    let p = glam::Quat::from_array(bytemuck::cast([parent.x, parent.y, parent.z, parent.w]));
    let c = glam::Quat::from_array(bytemuck::cast([child.x, child.y, child.z, child.w]));
    let v = glam::Vec4::from(p.conjugate().mul_quat(c)).normalize_or(glam::Vec4::W);
    let out: [u32; 4] = bytemuck::cast(glam::Quat::from_vec4(v).to_array());
    Orientation { x: out[0], y: out[1], z: out[2], w: out[3] }
}

} // verus!
