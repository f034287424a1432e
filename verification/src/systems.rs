//! Per-tick system passes. Only the hierarchy resolver touches the
//! store's invariants; the remaining systems are bulk float passes and
//! platform plumbing that live outside the verified library, named here
//! by their marker types.

pub mod camera;
pub mod hierarchy;
pub mod input;
pub mod movement;
pub mod particle;
pub mod rendering;
pub mod spawner;

pub use camera::CameraSystem;
pub use hierarchy::HierarchySystem;
pub use input::InputSystem;
pub use movement::MovementSystem;
pub use particle::ParticleSystem;
pub use rendering::RenderPrepSystem;
pub use spawner::SpawnerSystem;
