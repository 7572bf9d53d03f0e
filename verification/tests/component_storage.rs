use core_ecs::{ComponentStorage, Entity};

// example component
#[derive(Debug, PartialEq)]
struct Position {
    x: f32,
    y: f32,
}

#[test]
fn new_storage_is_empty() {
    let storage = <ComponentStorage<Position>>::new();
    assert!(storage.is_empty());
    assert_eq!(storage.len(), 0);
}

#[test]
fn insert_and_get_component() {
    let mut storage = ComponentStorage::new();
    let entity = Entity::new(0, 0);

    storage.insert(entity, Position { x: 1.0, y: 2.0 });

    let position = storage.get(entity);
    assert_eq!(position, Some(&Position { x: 1.0, y: 2.0 }));
}

#[test]
fn insert_replaces_existing_component() {
    let mut storage = ComponentStorage::new();
    let entity = Entity::new(0, 0);

    let old = storage.insert(entity, Position { x: 1.0, y: 2.0 });
    assert_eq!(old, None);

    let old = storage.insert(entity, Position { x: 5.0, y: 6.0 });
    assert_eq!(old, Some(Position { x: 1.0, y: 2.0 }));

    assert_eq!(storage.get(entity), Some(&Position { x: 5.0, y: 6.0 }));
}

#[test]
fn get_mut_allows_modification() {
    let mut storage = ComponentStorage::new();
    let entity = Entity::new(0, 0);

    storage.insert(entity, Position { x: 1.0, y: 2.0 });

    let position = storage.get_mut(entity).unwrap();
    position.x = 10.0;
    position.y = 20.0;

    assert_eq!(storage.get(entity), Some(&Position { x: 10.0, y: 20.0 }));
}

#[test]
fn remove_deletes_component() {
    let mut storage = ComponentStorage::new();
    let entity = Entity::new(0, 0);

    storage.insert(entity, Position { x: 1.0, y: 2.0 });

    let removed = storage.remove(entity);
    assert_eq!(removed, Some(Position { x: 1.0, y: 2.0 }));
    assert_eq!(storage.get(entity), None);
    assert!(!storage.contains(entity));
}

#[test]
fn iter_returns_all_components() {
    let mut storage = ComponentStorage::new();
    let e1 = Entity::new(0, 0);
    let e2 = Entity::new(1, 0);

    storage.insert(e1, Position { x: 1.0, y: 2.0 });
    storage.insert(e2, Position { x: 3.0, y: 4.0 });

    let mut count = 0;
    for (entity, pos) in storage.iter() {
        count += 1;
        assert!(entity.get_index() == 0 || entity.get_index() == 1);
        assert!(pos.x == 1.0 || pos.x == 3.0);
    }

    assert_eq!(count, 2);
}

#[test]
fn iter_mut_allows_mutation_of_all_components() {
    let mut storage = ComponentStorage::new();
    let e1 = Entity::new(0, 0);
    let e2 = Entity::new(1, 0);

    storage.insert(e1, Position { x: 1.0, y: 2.0 });
    storage.insert(e2, Position { x: 3.0, y: 4.0 });

    for (_entity, pos) in storage.iter_mut() {
        pos.x += 10.0;
    }

    assert_eq!(storage.get(e1), Some(&Position { x: 11.0, y: 2.0 }));
    assert_eq!(storage.get(e2), Some(&Position { x: 13.0, y: 4.0 }));
}

#[test]
fn storage_keeps_entities_of_one_slot_apart() {
    let mut storage = ComponentStorage::new();
    let old = Entity::new(3, 0);
    let new = Entity::new(3, 1);

    storage.insert(old, 7u32);
    assert!(storage.contains(old));
    assert!(!storage.contains(new));
    assert_eq!(storage.get(new), None);

    storage.insert(new, 9u32);
    assert_eq!(storage.len(), 2);
    assert_eq!(storage.get(old), Some(&7));
    assert_eq!(storage.get(new), Some(&9));
}

#[test]
fn remove_after_insert_restores_storage() {
    let mut storage = ComponentStorage::new();
    let a = Entity::new(0, 0);
    let b = Entity::new(1, 0);
    storage.insert(a, 1u8);

    assert_eq!(storage.insert(b, 2u8), None);
    assert_eq!(storage.len(), 2);
    assert_eq!(storage.remove(b), Some(2u8));
    assert_eq!(storage.len(), 1);
    assert_eq!(storage.get(a), Some(&1u8));
    assert_eq!(storage.remove(b), None);
    assert!(!storage.is_empty());
}

#[test]
fn get_mut_of_missing_entity_is_none() {
    let mut storage: ComponentStorage<u8> = ComponentStorage::new();
    assert!(storage.get_mut(Entity::new(5, 5)).is_none());
    assert!(storage.is_empty());
}

#[test]
fn iter_mut_passes_each_entity() {
    let mut storage = ComponentStorage::new();
    storage.insert(Entity::new(0, 0), 0u32);
    storage.insert(Entity::new(4, 2), 0u32);

    for (entity, value) in storage.iter_mut() {
        *value = entity.get_index() * 10 + entity.get_generation();
    }

    assert_eq!(storage.get(Entity::new(0, 0)), Some(&0));
    assert_eq!(storage.get(Entity::new(4, 2)), Some(&42));
    assert_eq!(storage.len(), 2);
}

#[test]
fn iter_of_empty_storage_is_empty() {
    let storage: ComponentStorage<u8> = ComponentStorage::new();
    assert!(storage.iter().is_empty());
}
