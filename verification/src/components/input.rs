//! Input component: the movement intent written by the input system.

use vstd::prelude::*;

verus! {

/// Bit pattern of 0.05f32, the default movement speed.
pub const DEFAULT_INPUT_SPEED_BITS: u32 = 0x3d4ccccd;

/// Movement intent. `direction` holds three IEEE-754 bit patterns and
/// `speed` one; the store never interprets them.
#[derive(Debug, Clone, Copy, PartialEq, Eq)]
pub struct InputComponent {
    pub direction: [u32; 3],
    pub speed: u32,
    pub jump_requested: bool,
}

impl InputComponent {
    pub fn new(speed: u32) -> (r: Self)
        ensures
            r == (InputComponent { direction: [0u32, 0u32, 0u32], speed, jump_requested: false }),
    {
        InputComponent { direction: [0, 0, 0], speed, jump_requested: false }
    }

    pub fn set_direction(&mut self, direction: [u32; 3])
        ensures
            *final(self) == (InputComponent { direction, ..*old(self) }),
    {
        self.direction = direction;
    }

    pub fn request_jump(&mut self)
        ensures
            *final(self) == (InputComponent { jump_requested: true, ..*old(self) }),
    {
        self.jump_requested = true;
    }

    /// Consumes a pending jump request, reporting whether one was pending.
    pub fn take_jump_request(&mut self) -> (r: bool)
        ensures
            r == old(self).jump_requested,
            *final(self) == (InputComponent { jump_requested: false, ..*old(self) }),
    {
        if self.jump_requested {
            self.jump_requested = false;
            true
        } else {
            false
        }
    }
}

impl Default for InputComponent {
    fn default() -> (r: Self)
        ensures
            r == (InputComponent {
                direction: [0u32, 0u32, 0u32],
                speed: DEFAULT_INPUT_SPEED_BITS,
                jump_requested: false,
            }),
    {
        InputComponent {
            direction: [0, 0, 0],
            speed: DEFAULT_INPUT_SPEED_BITS,
            jump_requested: false,
        }
    }
}

} // verus!
