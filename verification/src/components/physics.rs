//! Physics component: rigid-body description consumed by the physics
//! backend. The backend's handles are carried as raw index pairs.

use vstd::prelude::*;

verus! {

/// Bit pattern of 0.2f32, the default restitution.
pub const DEFAULT_RESTITUTION_BITS: u32 = 0x3e4ccccd;

/// Bit pattern of 0.7f32, the default friction.
pub const DEFAULT_FRICTION_BITS: u32 = 0x3f333333;

#[derive(Debug, Clone, Copy, PartialEq, Eq)]
pub enum PhysicsBodyType {
    Dynamic,
    Static,
    Kinematic,
}

/// Rigid-body description. `half_extents`, `restitution` and `friction`
/// hold IEEE-754 bit patterns; the handle fields hold the raw parts of
/// the physics backend's arena handles, or `None` before registration.
#[derive(Debug, Clone, Copy, PartialEq, Eq)]
pub struct PhysicsComponent {
    pub body_type: PhysicsBodyType,
    pub half_extents: [u32; 3],
    pub restitution: u32,
    pub friction: u32,
    pub body_handle: Option<(u32, u32)>,
    pub collider_handle: Option<(u32, u32)>,
}

impl PhysicsComponent {
    pub fn new(body_type: PhysicsBodyType, half_extents: [u32; 3]) -> (r: Self)
        ensures
            r == (PhysicsComponent {
                body_type,
                half_extents,
                restitution: DEFAULT_RESTITUTION_BITS,
                friction: DEFAULT_FRICTION_BITS,
                body_handle: None::<(u32, u32)>,
                collider_handle: None::<(u32, u32)>,
            }),
    {
        PhysicsComponent {
            body_type,
            half_extents,
            restitution: DEFAULT_RESTITUTION_BITS,
            friction: DEFAULT_FRICTION_BITS,
            body_handle: None,
            collider_handle: None,
        }
    }

    pub fn dynamic_box(half_extents: [u32; 3]) -> (r: Self)
        ensures
            r == PhysicsComponent::new_spec(PhysicsBodyType::Dynamic, half_extents),
    {
        Self::new(PhysicsBodyType::Dynamic, half_extents)
    }

    pub fn fixed_box(half_extents: [u32; 3]) -> (r: Self)
        ensures
            r == PhysicsComponent::new_spec(PhysicsBodyType::Static, half_extents),
    {
        Self::new(PhysicsBodyType::Static, half_extents)
    }

    /// The value [`PhysicsComponent::new`] constructs.
    pub open spec fn new_spec(body_type: PhysicsBodyType, half_extents: [u32; 3]) -> Self {
        PhysicsComponent {
            body_type,
            half_extents,
            restitution: DEFAULT_RESTITUTION_BITS,
            friction: DEFAULT_FRICTION_BITS,
            body_handle: None,
            collider_handle: None,
        }
    }
}

} // verus!
