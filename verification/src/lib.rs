use vstd::prelude::*;

pub mod component_storage;
pub mod entity;
pub mod entity_allocator;
pub mod world;

pub use component_storage::ComponentStorage;
pub use entity::Entity;
pub use entity_allocator::EntityAllocator;
pub use world::World2D;

verus! {

} // verus!
