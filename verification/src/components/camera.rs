//! Camera component: view angles and control parameters.

use vstd::prelude::*;

verus! {

/// Bit pattern of 0.05f32, the default movement speed.
pub const DEFAULT_MOVE_SPEED_BITS: u32 = 0x3d4ccccd;

/// Bit pattern of 0.0025f32, the default mouse-look sensitivity.
pub const DEFAULT_LOOK_SENSITIVITY_BITS: u32 = 0x3b23d70a;

/// First-person camera state. Every field holds the raw bit pattern of
/// an IEEE-754 single-precision number; the store never interprets them.
#[derive(Debug, Clone, Copy, PartialEq, Eq, Structural)]
pub struct CameraComponent {
    pub yaw: u32,
    pub pitch: u32,
    pub move_speed: u32,
    pub look_sensitivity: u32,
}

impl CameraComponent {
    pub fn new(yaw: u32, pitch: u32) -> (r: Self)
        ensures
            r == (CameraComponent {
                yaw,
                pitch,
                move_speed: DEFAULT_MOVE_SPEED_BITS,
                look_sensitivity: DEFAULT_LOOK_SENSITIVITY_BITS,
            }),
    {
        CameraComponent {
            yaw,
            pitch,
            move_speed: DEFAULT_MOVE_SPEED_BITS,
            look_sensitivity: DEFAULT_LOOK_SENSITIVITY_BITS,
        }
    }
}

} // verus!
