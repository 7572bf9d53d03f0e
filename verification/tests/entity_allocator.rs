use core_ecs::{Entity, EntityAllocator};

#[test]
fn entity_keeps_its_parts() {
    let e = Entity::new(7, 3);
    assert_eq!(e.get_index(), 7);
    assert_eq!(e.get_generation(), 3);
    assert_eq!(e, Entity::new(7, 3));
    assert_ne!(e, Entity::new(7, 4));
}

#[test]
fn entity_key_places_slot_above_generation() {
    assert_eq!(Entity::new(0, 0).key(), 0);
    assert_eq!(Entity::new(0, 5).key(), 5);
    assert_eq!(Entity::new(1, 0).key(), 0x1_0000_0000);
    assert_eq!(Entity::new(2, 3).key(), 0x2_0000_0003);
    assert_eq!(Entity::new(u32::MAX, u32::MAX).key(), u64::MAX);
}

#[test]
fn fresh_allocations_take_new_slots_at_generation_zero() {
    let mut allocator = EntityAllocator::new();
    let a = allocator.allocate();
    let b = allocator.allocate();
    let c = allocator.allocate();
    assert_eq!(a, Entity::new(0, 0));
    assert_eq!(b, Entity::new(1, 0));
    assert_eq!(c, Entity::new(2, 0));
    assert!(allocator.is_alive(a) && allocator.is_alive(b) && allocator.is_alive(c));
}

#[test]
fn unknown_entity_is_not_alive() {
    let allocator = EntityAllocator::new();
    assert!(!allocator.is_alive(Entity::new(0, 0)));
}

#[test]
fn deallocate_kills_and_refuses_twice() {
    let mut allocator = EntityAllocator::new();
    let a = allocator.allocate();
    let b = allocator.allocate();

    assert!(allocator.deallocate(a));
    assert!(!allocator.is_alive(a));
    assert!(allocator.is_alive(b));
    assert!(!allocator.deallocate(a));
}

#[test]
fn deallocate_of_unknown_entity_is_refused() {
    let mut allocator = EntityAllocator::new();
    allocator.allocate();
    assert!(!allocator.deallocate(Entity::new(5, 0)));
    assert!(!allocator.deallocate(Entity::new(0, 1)));
}

#[test]
fn freed_slot_is_reused_at_next_generation() {
    let mut allocator = EntityAllocator::new();
    let a = allocator.allocate();
    let _b = allocator.allocate();
    assert!(allocator.deallocate(a));

    let reused = allocator.allocate();
    assert_eq!(reused.get_index(), a.get_index());
    assert_eq!(reused.get_generation(), a.get_generation() + 1);
    assert_ne!(reused, a);
    assert!(allocator.is_alive(reused));
    assert!(!allocator.is_alive(a));
}

#[test]
fn last_freed_slot_is_reused_first() {
    let mut allocator = EntityAllocator::new();
    let a = allocator.allocate();
    let b = allocator.allocate();
    let c = allocator.allocate();
    assert!(allocator.deallocate(a));
    assert!(allocator.deallocate(c));

    assert_eq!(allocator.allocate(), Entity::new(2, 1));
    assert_eq!(allocator.allocate(), Entity::new(0, 1));
    assert_eq!(allocator.allocate(), Entity::new(3, 0));
    assert!(allocator.is_alive(b));
}

#[test]
fn stale_handle_stays_dead() {
    let mut allocator = EntityAllocator::new();
    let a = allocator.allocate();
    assert!(allocator.deallocate(a));
    let again = allocator.allocate();
    assert!(allocator.deallocate(again));
    let third = allocator.allocate();

    assert_eq!(third, Entity::new(0, 2));
    assert!(!allocator.is_alive(a));
    assert!(!allocator.is_alive(again));
    assert!(!allocator.deallocate(a));
}

#[test]
fn can_allocate_on_new_and_used_allocator() {
    let mut allocator = EntityAllocator::new();
    assert!(allocator.can_allocate());
    let a = allocator.allocate();
    assert!(allocator.deallocate(a));
    assert!(allocator.can_allocate());
}

#[test]
fn issued_handles_are_never_handed_out_twice() {
    let mut allocator = EntityAllocator::new();
    let a = allocator.allocate();
    let b = allocator.allocate();
    assert!(allocator.deallocate(a));
    let c = allocator.allocate();
    let d = allocator.allocate();

    let held = [b, c, d];
    for i in 0..held.len() {
        assert!(allocator.is_alive(held[i]));
        for j in (i + 1)..held.len() {
            assert_ne!(held[i], held[j]);
        }
    }
    assert!(!allocator.is_alive(a));
}

#[test]
fn entity_is_64_bits() {
    assert_eq!(std::mem::size_of::<Entity>(), 8);
}
