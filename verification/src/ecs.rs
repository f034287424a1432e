//! Core entity/component store: identifiers, signatures, tables and
//! the directory that owns them.

pub mod directory;
pub mod entity_manager;
pub mod memory;
pub mod event_bus;
pub mod signature;
pub mod tag_manager;

pub use directory::ECS;
pub use entity_manager::EntityManager;
pub use event_bus::EventBus;
pub use memory::{ComponentMemoryUsage, EntityMemoryUsage};
pub use signature::{ComponentKind, ComponentSignature};
pub use tag_manager::TagManager;
