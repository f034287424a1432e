//! Particle components: emitters, live particles, and burst requests.

use vstd::prelude::*;

verus! {

/// Multiplier of the linear congruential generator stepping emitter seeds.
pub const LCG_MULTIPLIER: u32 = 1664525;

/// Increment of the linear congruential generator stepping emitter seeds.
pub const LCG_INCREMENT: u32 = 1013904223;

/// The next state of the linear congruential generator.
pub open spec fn lcg_next(seed: u32) -> u32 {
    ((seed * LCG_MULTIPLIER + LCG_INCREMENT) % 0x1_0000_0000) as u32
}

/// Particle source. All rate/shape fields hold IEEE-754 bit patterns;
/// the store never interprets them. `seed` drives a deterministic
/// pseudo-random sequence for per-particle jitter.
#[derive(Debug, Clone, PartialEq)]
pub struct ParticleEmitterComponent {
    pub rate: u32,
    pub lifetime: u32,
    pub speed: u32,
    pub spread: u32,
    pub direction: [u32; 3],
    pub size: u32,
    pub size_jitter: u32,
    pub color: [u32; 3],
    pub color_jitter: u32,
    pub model_asset: String,
    pub texture_asset: Option<String>,
    pub max_particles: usize,
    pub spawn_accumulator: u32,
    pub seed: u32,
}

impl ParticleEmitterComponent {
    pub fn new(
        rate: u32,
        lifetime: u32,
        speed: u32,
        spread: u32,
        direction: [u32; 3],
        size: u32,
        size_jitter: u32,
        color: [u32; 3],
        color_jitter: u32,
        model_asset: String,
        texture_asset: Option<String>,
        max_particles: usize,
    ) -> (r: Self)
        ensures
            r == (ParticleEmitterComponent {
                rate,
                lifetime,
                speed,
                spread,
                direction,
                size,
                size_jitter,
                color,
                color_jitter,
                model_asset,
                texture_asset,
                max_particles,
                spawn_accumulator: 0u32,
                seed: 1u32,
            }),
    {
        ParticleEmitterComponent {
            rate,
            lifetime,
            speed,
            spread,
            direction,
            size,
            size_jitter,
            color,
            color_jitter,
            model_asset,
            texture_asset,
            max_particles,
            spawn_accumulator: 0,
            seed: 1,
        }
    }

    /// Steps the emitter's pseudo-random seed and returns the new state.
    pub fn advance_seed(&mut self) -> (r: u32)
        ensures
            final(self).seed == lcg_next(old(self).seed),
            r == final(self).seed,
            *final(self) == (ParticleEmitterComponent { seed: final(self).seed, ..*old(self) }),
    {
        self.seed = self.seed.wrapping_mul(LCG_MULTIPLIER).wrapping_add(LCG_INCREMENT);
        self.seed
    }
}

/// One live particle spawned by an emitter. `velocity`, `age` and
/// `lifetime` hold IEEE-754 bit patterns.
#[derive(Debug, Clone, Copy, PartialEq, Eq)]
pub struct ParticleComponent {
    pub emitter_id: u32,
    pub velocity: [u32; 3],
    pub age: u32,
    pub lifetime: u32,
}

impl ParticleComponent {
    pub fn new(emitter_id: u32, velocity: [u32; 3], lifetime: u32) -> (r: Self)
        ensures
            r == (ParticleComponent { emitter_id, velocity, age: 0u32, lifetime }),
    {
        ParticleComponent { emitter_id, velocity, age: 0, lifetime }
    }
}

/// A one-shot request, published on the event channel, for a burst of
/// particles at a point. All scalar fields hold IEEE-754 bit patterns.
#[derive(Debug, Clone, PartialEq)]
pub struct ParticleBurstRequest {
    pub position: [u32; 3],
    pub direction: [u32; 3],
    pub count: usize,
    pub speed: u32,
    pub spread: u32,
    pub lifetime: u32,
    pub size: u32,
    pub size_jitter: u32,
    pub color: [u32; 3],
    pub color_jitter: u32,
    pub model_asset: String,
    pub texture_asset: Option<String>,
    pub seed: u32,
}

} // verus!
