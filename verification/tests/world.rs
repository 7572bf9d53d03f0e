use core_ecs::World2D;

#[derive(Debug, Clone, Copy, PartialEq)]
struct Position {
    x: f32,
    y: f32,
}

#[derive(Debug, Clone, Copy, PartialEq)]
struct Velocity {
    dx: f32,
    dy: f32,
}

#[derive(Debug, Clone, Copy, PartialEq)]
struct Circle {
    radius: f32,
}

type World = World2D<Position, Velocity, Circle>;

#[test]
fn spawn_creates_alive_entity() {
    let mut world = World::new();

    let entity = world.spawn();

    assert!(world.is_alive(entity));
}

#[test]
fn can_add_and_get_position() {
    let mut world = World::new();
    let entity = world.spawn();

    let old = world.add_position(entity, Position { x: 10.0, y: 20.0 });

    assert_eq!(old, None);
    assert_eq!(
        world.get_position(entity),
        Some(&Position { x: 10.0, y: 20.0 })
    );
}

#[test]
fn can_add_and_get_velocity() {
    let mut world = World::new();
    let entity = world.spawn();

    let old = world.add_velocity(entity, Velocity { dx: 1.5, dy: -2.0 });

    assert_eq!(old, None);
    assert_eq!(
        world.get_velocity(entity),
        Some(&Velocity { dx: 1.5, dy: -2.0 })
    );
}

#[test]
fn can_add_and_get_circle() {
    let mut world = World::new();
    let entity = world.spawn();

    let old = world.add_circle(entity, Circle { radius: 5.0 });

    assert_eq!(old, None);
    assert_eq!(world.get_circle(entity), Some(&Circle { radius: 5.0 }));
}

#[test]
fn can_mutate_position_through_position_mut() {
    let mut world = World::new();
    let entity = world.spawn();

    world.add_position(entity, Position { x: 1.0, y: 2.0 });

    let position = world.get_position_mut(entity).unwrap();
    position.x = 100.0;
    position.y = 200.0;

    assert_eq!(
        world.get_position(entity),
        Some(&Position { x: 100.0, y: 200.0 })
    );
}

#[test]
fn can_mutate_velocity_through_velocity_mut() {
    let mut world = World::new();
    let entity = world.spawn();

    world.add_velocity(entity, Velocity { dx: 10.0, dy: 20.0 });

    let velocity = world.get_velocity_mut(entity).unwrap();
    velocity.dx = 100.0;
    velocity.dy = 200.0;

    assert_eq!(
        world.get_velocity(entity),
        Some(&Velocity {
            dx: 100.0,
            dy: 200.0
        })
    );
}

#[test]
fn can_mutate_circle_through_circle_mut() {
    let mut world = World::new();
    let entity = world.spawn();

    world.add_circle(entity, Circle { radius: 5.0 });

    let circle = world.get_circle_mut(entity).unwrap();
    circle.radius = 100.0;

    assert_eq!(world.get_circle(entity), Some(&Circle { radius: 100.0 }));
}

#[test]
fn despawn_removes_components_and_kills_entity() {
    let mut world = World::new();
    let entity = world.spawn();

    world.add_position(entity, Position { x: 5.0, y: 6.0 });
    world.add_velocity(entity, Velocity { dx: 7.0, dy: 8.0 });
    world.add_circle(entity, Circle { radius: 5.0 });

    assert!(world.despawn(entity));

    assert!(!world.is_alive(entity));
    assert_eq!(world.get_position(entity), None);
    assert_eq!(world.get_velocity(entity), None);
    assert_eq!(world.get_circle(entity), None);
}

#[test]
fn cannot_add_position_to_dead_entity() {
    let mut world = World::new();
    let entity = world.spawn();

    assert!(world.despawn(entity));

    let result = world.add_position(entity, Position { x: 1.0, y: 2.0 });

    assert_eq!(result, None);
    assert_eq!(world.get_position(entity), None);
}

#[test]
fn cannot_add_velocity_to_dead_entity() {
    let mut world = World::new();
    let entity = world.spawn();

    assert!(world.despawn(entity));

    let result = world.add_velocity(entity, Velocity { dx: 3.0, dy: 4.0 });

    assert_eq!(result, None);
    assert_eq!(world.get_velocity(entity), None);
}

#[test]
fn cannot_add_circle_to_dead_entity() {
    let mut world = World::new();
    let entity = world.spawn();

    assert!(world.despawn(entity));

    let result = world.add_circle(entity, Circle { radius: 5.0 });

    assert_eq!(result, None);
    assert_eq!(world.get_circle(entity), None);
}

#[test]
fn despawning_same_entity_twice_returns_false() {
    let mut world = World::new();
    let entity = world.spawn();

    assert!(world.despawn(entity));
    assert!(!world.despawn(entity));
}

fn populated_world() -> (World, [core_ecs::Entity; 6]) {
    let mut world = World::new();

    let e1 = world.spawn();
    let e2 = world.spawn();
    let e3 = world.spawn();
    let e4 = world.spawn();
    let e5 = world.spawn();
    let e6 = world.spawn();

    world.add_position(e1, Position { x: 5.0, y: 5.0 });
    world.add_position(e2, Position { x: 10.0, y: 10.0 });
    world.add_velocity(e3, Velocity { dx: 1.0, dy: 1.0 });
    world.add_velocity(e4, Velocity { dx: 20.0, dy: 20.0 });
    world.add_circle(e5, Circle { radius: 5.0 });
    world.add_circle(e6, Circle { radius: 15.0 });

    (world, [e1, e2, e3, e4, e5, e6])
}

#[test]
fn positions_iter_returns_all_entities_with_positions() {
    let (world, [e1, e2, _e3, _e4, _e5, _e6]) = populated_world();

    let mut count = 0;
    for (entity, _pos) in world.positions_iter() {
        count += 1;
        assert!(*entity == e1 || *entity == e2);
    }

    assert_eq!(count, 2);
}

#[test]
fn velocities_iter_returns_all_entities_with_velocities() {
    let (world, [_e1, _e2, e3, e4, _e5, _e6]) = populated_world();

    let mut count = 0;
    for (entity, _pos) in world.velocities_iter() {
        count += 1;
        assert!(*entity == e3 || *entity == e4);
    }

    assert_eq!(count, 2);
}

#[test]
fn circles_iter_returns_all_entities_with_circles() {
    let (world, [_e1, _e2, _e3, _e4, e5, e6]) = populated_world();

    let mut count = 0;
    for (entity, _pos) in world.circles_iter() {
        count += 1;
        assert!(*entity == e5 || *entity == e6);
    }

    assert_eq!(count, 2);
}

#[test]
fn add_replaces_and_hands_back_previous_component() {
    let mut world = World::new();
    let entity = world.spawn();

    assert_eq!(world.add_circle(entity, Circle { radius: 1.0 }), None);
    assert_eq!(
        world.add_circle(entity, Circle { radius: 2.0 }),
        Some(Circle { radius: 1.0 })
    );
    assert_eq!(world.get_circle(entity), Some(&Circle { radius: 2.0 }));
}

#[test]
fn despawn_leaves_other_entities_alone() {
    let mut world = World::new();
    let a = world.spawn();
    let b = world.spawn();
    world.add_position(a, Position { x: 1.0, y: 1.0 });
    world.add_position(b, Position { x: 2.0, y: 2.0 });

    assert!(world.despawn(a));

    assert!(world.is_alive(b));
    assert_eq!(world.get_position(b), Some(&Position { x: 2.0, y: 2.0 }));
    assert_eq!(world.positions_iter().len(), 1);
}

#[test]
fn respawned_slot_starts_without_components() {
    let mut world = World::new();
    let a = world.spawn();
    world.add_velocity(a, Velocity { dx: 1.0, dy: 0.0 });
    assert!(world.despawn(a));

    let b = world.spawn();
    assert_eq!(b.get_index(), a.get_index());
    assert_eq!(b.get_generation(), a.get_generation() + 1);
    assert_eq!(world.get_velocity(b), None);
    assert_eq!(world.get_velocity(a), None);
    assert!(world.get_velocity_mut(a).is_none());
}

#[test]
fn getters_of_dead_entity_find_nothing() {
    let mut world = World::new();
    let a = world.spawn();
    world.add_position(a, Position { x: 1.0, y: 1.0 });
    assert!(world.despawn(a));

    assert!(world.get_position_mut(a).is_none());
    assert!(world.get_circle_mut(a).is_none());
    assert!(world.positions_iter().is_empty());
}

#[test]
fn can_spawn_on_new_world() {
    let world = World::new();
    assert!(world.can_spawn());
}

#[test]
fn listed_entities_are_alive() {
    let (mut world, [e1, e2, _e3, _e4, _e5, _e6]) = populated_world();
    assert!(world.despawn(e1));
    for (entity, _pos) in world.positions_iter() {
        assert!(world.is_alive(*entity));
        assert_eq!(*entity, e2);
    }
}

#[test]
fn spawn_with_attaches_all_three_components() {
    let mut world = World::new();
    let e = world.spawn_with(
        Position { x: 1.0, y: 2.0 },
        Velocity { dx: 0.0, dy: 0.0 },
        Circle { radius: 3.0 },
    );
    assert!(world.is_alive(e));
    assert_eq!(world.get_position(e), Some(&Position { x: 1.0, y: 2.0 }));
    assert_eq!(world.get_velocity(e), Some(&Velocity { dx: 0.0, dy: 0.0 }));
    assert_eq!(world.get_circle(e), Some(&Circle { radius: 3.0 }));
}
