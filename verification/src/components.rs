//! Component value types stored in the archetype tables.
//!
//! The store itself never interprets scalar numeric payload; every field
//! that the surrounding engine treats as an IEEE-754 single-precision
//! number is carried here as its raw 32-bit pattern (`u32`), so that the
//! verified core works over plain values only. Conversion to and from
//! native floats happens outside the verified library.

pub mod attributes;
pub mod camera;
pub mod hierarchy;
pub mod input;
pub mod light;
pub mod model;
pub mod name;
pub mod orientation;
pub mod particle;
pub mod physics;
pub mod position;
pub mod render;
pub mod script;
pub mod spawner;
pub mod terrain;
pub mod texture;

pub use attributes::AttributesComponent;
pub use camera::CameraComponent;
pub use hierarchy::HierarchyComponent;
pub use input::InputComponent;
pub use light::LightComponent;
pub use model::ModelComponent;
pub use name::Name;
pub use orientation::Orientation;
pub use particle::{ParticleBurstRequest, ParticleComponent, ParticleEmitterComponent};
pub use physics::{PhysicsBodyType, PhysicsComponent};
pub use position::Position;
pub use render::RenderComponent;
pub use script::ScriptComponent;
pub use spawner::SpawnerComponent;
pub use terrain::TerrainComponent;
pub use texture::TextureComponent;
