//! An archetype-based entity-component store.
//!
//! Records ("entities") carry a dynamic set of typed fields ("components").
//! Entities with the same component set share one archetype, which stores each
//! component in a contiguous byte column. Queries intersect the per-component
//! archetype membership sets and walk the live rows of the surviving
//! archetypes.

pub mod bits;
pub mod sorting;
pub mod component;
pub mod entity;
pub mod archetype;
pub mod arch_store;
pub mod world;
pub mod laws;

pub use component::{ComponentId, ComponentRegistry, FlagId};
pub use entity::{EntityId, EntityStore};
pub use archetype::ArchRowId;
pub use arch_store::{ArchStore, ArchetypeId, NewEntityResult};
pub use world::World;
