//! Entity/component storage core of a real-time simulation.
//!
//! The store keeps every entity's data in schema-partitioned columnar
//! tables (one table per distinct component signature), so that systems
//! can iterate same-kind data contiguously while component attach and
//! detach stay O(1) amortised through swap-remove migration.

pub mod app;
pub mod archetypes;
pub mod components;
pub mod ecs;
pub mod rendering;
pub mod scene;
pub mod scripts;
pub mod systems;
pub mod text;
pub mod transform;

