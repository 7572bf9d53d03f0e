# core_ecs

A small entity-component store for a 2D scene, verified with Verus.

- `src/entity.rs`: `Entity`, a handle made of a slot and a generation.
- `src/entity_allocator.rs`: `EntityAllocator`, which hands out handles and reuses
  the slots of handles given back at the next generation, so that old handles stay
  dead. Its behaviour is stated over `AllocatorModel`.
- `src/component_storage.rs`: `ComponentStorage<T>`, one component per entity, seen
  as a `Map<Entity, T>`.
- `src/world.rs`: `World2D<P, V, C>`, an allocator and three storages in which only
  alive entities have components, stated over `WorldModel`.
- `app/`: the egui editor, the `f32` components and the physics step, which work
  through the verified world.
