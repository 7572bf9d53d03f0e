use vstd::prelude::*;

use crate::component_storage::{enumerates, ComponentStorage};
use crate::entity::Entity;
use crate::entity_allocator::{
    law_allocate_keeps_alive, law_allocated_handle_is_alive, law_deallocate_alive,
    law_deallocate_keeps_others_alive, law_give_back_held_handle, law_issue_start,
    law_allocate_issues_fresh_handle, law_new_allocator_is_empty, issues_consistently,
    AllocatorModel, EntityAllocator,
};

verus! {

/// What a world holds, as mathematical values: its allocator, and the position,
/// velocity and circle of each entity that has one.
pub struct WorldModel<P, V, C> {
    pub allocator: AllocatorModel,
    pub positions: Map<Entity, P>,
    pub velocities: Map<Entity, V>,
    pub circles: Map<Entity, C>,
}

impl<P, V, C> WorldModel<P, V, C> {
    /// The world with no entity.
    pub open spec fn empty() -> Self {
        WorldModel {
            allocator: AllocatorModel::empty(),
            positions: Map::empty(),
            velocities: Map::empty(),
            circles: Map::empty(),
        }
    }

    pub open spec fn is_alive(self, e: Entity) -> bool {
        self.allocator.is_alive(e)
    }

    /// Only alive entities have components.
    pub open spec fn components_alive(self) -> bool {
        &&& forall|e: Entity| #[trigger] self.positions.contains_key(e) ==> self.is_alive(e)
        &&& forall|e: Entity| #[trigger] self.velocities.contains_key(e) ==> self.is_alive(e)
        &&& forall|e: Entity| #[trigger] self.circles.contains_key(e) ==> self.is_alive(e)
    }

    pub open spec fn wf(self) -> bool {
        &&& self.allocator.wf()
        &&& self.components_alive()
    }

    /// The world after a spawn, and the entity spawned: the allocator allocates,
    /// and no component changes.
    pub open spec fn spawn(self) -> (Self, Entity) {
        let (allocator, e) = self.allocator.allocate();
        (WorldModel { allocator, ..self }, e)
    }

    /// The world after despawning `e`, and whether it was alive: an alive entity
    /// is given back to the allocator and loses all its components.
    pub open spec fn despawn(self, e: Entity) -> (Self, bool) {
        if self.is_alive(e) {
            (
                WorldModel {
                    allocator: self.allocator.deallocate(e).0,
                    positions: self.positions.remove(e),
                    velocities: self.velocities.remove(e),
                    circles: self.circles.remove(e),
                },
                true,
            )
        } else {
            (self, false)
        }
    }

    /// The world after attaching a position to `e`, and the position it replaced:
    /// only an alive entity gets one.
    pub open spec fn add_position(self, e: Entity, p: P) -> (Self, Option<P>) {
        if self.is_alive(e) {
            (WorldModel { positions: self.positions.insert(e, p), ..self }, stored(self.positions, e))
        } else {
            (self, None)
        }
    }

    /// The world after attaching a velocity to `e`, and the velocity it replaced:
    /// only an alive entity gets one.
    pub open spec fn add_velocity(self, e: Entity, v: V) -> (Self, Option<V>) {
        if self.is_alive(e) {
            (WorldModel { velocities: self.velocities.insert(e, v), ..self }, stored(self.velocities, e))
        } else {
            (self, None)
        }
    }

    /// The world after attaching a circle to `e`, and the circle it replaced: only
    /// an alive entity gets one.
    pub open spec fn add_circle(self, e: Entity, c: C) -> (Self, Option<C>) {
        if self.is_alive(e) {
            (WorldModel { circles: self.circles.insert(e, c), ..self }, stored(self.circles, e))
        } else {
            (self, None)
        }
    }

    /// What a component map holds for `e`, when `e` is alive.
    pub open spec fn lookup<X>(self, m: Map<Entity, X>, e: Entity) -> Option<X> {
        if self.is_alive(e) {
            stored(m, e)
        } else {
            None
        }
    }
}

/// The component that `m` holds for `e`, if any.
pub open spec fn stored<X>(m: Map<Entity, X>, e: Entity) -> Option<X> {
    if m.contains_key(e) {
        Some(m[e])
    } else {
        None
    }
}

/// Every operation keeps a world well formed: whatever is done, only alive
/// entities have components.
pub proof fn law_operations_keep_wf<P, V, C>(w: WorldModel<P, V, C>, e: Entity, p: P, v: V, c: C)
    requires
        w.wf(),
    ensures
        w.allocator.can_allocate() ==> w.spawn().0.wf(),
        w.allocator.can_deallocate(e) ==> w.despawn(e).0.wf(),
        w.add_position(e, p).0.wf(),
        w.add_velocity(e, v).0.wf(),
        w.add_circle(e, c).0.wf(),
{
    if w.allocator.can_allocate() {
        assert forall|x: Entity| w.is_alive(x) implies #[trigger] w.spawn().0.is_alive(x) by {
            law_allocate_keeps_alive(w.allocator, x);
        }
    }
    if w.allocator.can_deallocate(e) && w.is_alive(e) {
        let after = w.despawn(e).0;
        assert forall|x: Entity| w.is_alive(x) && x != e implies #[trigger] after.is_alive(x) by {
            law_deallocate_keeps_others_alive(w.allocator, e, x);
        }
        assert forall|x: Entity| #[trigger] after.positions.contains_key(x) implies after.is_alive(x) by {
            assert(w.positions.contains_key(x));
        }
        assert forall|x: Entity| #[trigger] after.velocities.contains_key(x) implies after.is_alive(x) by {
            assert(w.velocities.contains_key(x));
        }
        assert forall|x: Entity| #[trigger] after.circles.contains_key(x) implies after.is_alive(x) by {
            assert(w.circles.contains_key(x));
        }
    }
}

/// In a well formed world the liveness check of the getters hides nothing: an
/// entity's component is found exactly when the entity has one.
pub proof fn law_only_alive_entities_have_components<P, V, C>(w: WorldModel<P, V, C>, e: Entity)
    requires
        w.wf(),
    ensures
        w.positions.contains_key(e) ==> w.is_alive(e),
        w.velocities.contains_key(e) ==> w.is_alive(e),
        w.circles.contains_key(e) ==> w.is_alive(e),
        w.lookup(w.positions, e) == stored(w.positions, e),
        w.lookup(w.velocities, e) == stored(w.velocities, e),
        w.lookup(w.circles, e) == stored(w.circles, e),
{
}

/// A spawned entity is alive, and spawning kills no entity and changes no component.
pub proof fn law_spawned_entity_is_alive<P, V, C>(w: WorldModel<P, V, C>, other: Entity)
    requires
        w.wf(),
        w.allocator.can_allocate(),
    ensures
        w.spawn().0.is_alive(w.spawn().1),
        w.is_alive(other) ==> w.spawn().0.is_alive(other),
        w.spawn().0.positions == w.positions,
        w.spawn().0.velocities == w.velocities,
        w.spawn().0.circles == w.circles,
{
    law_allocated_handle_is_alive(w.allocator);
    if w.is_alive(other) {
        law_allocate_keeps_alive(w.allocator, other);
    }
}

/// A component attached to an alive entity is what the getter finds afterwards,
/// and the attachment hands back the component it replaced.
pub proof fn law_get_after_add<P, V, C>(w: WorldModel<P, V, C>, e: Entity, p: P, v: V, c: C)
    requires
        w.is_alive(e),
    ensures
        ({
            let after = w.add_position(e, p).0;
            after.lookup(after.positions, e) == Some(p)
        }),
        ({
            let after = w.add_velocity(e, v).0;
            after.lookup(after.velocities, e) == Some(v)
        }),
        ({
            let after = w.add_circle(e, c).0;
            after.lookup(after.circles, e) == Some(c)
        }),
        w.add_position(e, p).1 == stored(w.positions, e),
        w.add_velocity(e, v).1 == stored(w.velocities, e),
        w.add_circle(e, c).1 == stored(w.circles, e),
{
}

/// Nothing can be attached to an entity that is not alive: the attachment hands
/// back nothing, changes nothing, and the getter still finds nothing.
pub proof fn law_cannot_add_to_dead<P, V, C>(w: WorldModel<P, V, C>, e: Entity, p: P, v: V, c: C)
    requires
        w.wf(),
        !w.is_alive(e),
    ensures
        w.add_position(e, p) == (w, None::<P>),
        w.add_velocity(e, v) == (w, None::<V>),
        w.add_circle(e, c) == (w, None::<C>),
        w.lookup(w.positions, e) is None,
        w.lookup(w.velocities, e) is None,
        w.lookup(w.circles, e) is None,
{
}

/// Despawning an alive entity succeeds, kills it, and takes all its components;
/// the components of other entities stay. Despawning it again fails.
pub proof fn law_despawn_removes_everything<P, V, C>(w: WorldModel<P, V, C>, e: Entity, other: Entity)
    requires
        w.wf(),
        w.is_alive(e),
        w.allocator.can_deallocate(e),
        other != e,
    ensures
        ({
            let (after, was_alive) = w.despawn(e);
            &&& was_alive
            &&& !after.is_alive(e)
            &&& after.lookup(after.positions, e) is None
            &&& after.lookup(after.velocities, e) is None
            &&& after.lookup(after.circles, e) is None
            &&& stored(after.positions, other) == stored(w.positions, other)
            &&& stored(after.velocities, other) == stored(w.velocities, other)
            &&& stored(after.circles, other) == stored(w.circles, other)
            &&& after.despawn(e) == (after, false)
        }),
{
    law_deallocate_alive(w.allocator, e, e);
}

/// A record of the handles a world has issued (`issued`) and of those not despawned
/// since (`held`) agrees with the world: the allocator issues consistently, and
/// every entity that has a component is held.
pub open spec fn world_record<P, V, C>(
    w: WorldModel<P, V, C>,
    held: Set<Entity>,
    issued: Set<Entity>,
) -> bool {
    &&& issues_consistently(w.allocator, held, issued)
    &&& forall|e: Entity| #[trigger] w.positions.contains_key(e) ==> held.contains(e)
    &&& forall|e: Entity| #[trigger] w.velocities.contains_key(e) ==> held.contains(e)
    &&& forall|e: Entity| #[trigger] w.circles.contains_key(e) ==> held.contains(e)
}

/// A new world has no alive entity and no component, agrees with the empty
/// record, and its first spawn gives slot 0 at generation 0.
pub proof fn law_new_world_is_empty<P, V, C>(e: Entity)
    ensures
        !WorldModel::<P, V, C>::empty().is_alive(e),
        !WorldModel::<P, V, C>::empty().positions.contains_key(e),
        !WorldModel::<P, V, C>::empty().velocities.contains_key(e),
        !WorldModel::<P, V, C>::empty().circles.contains_key(e),
        WorldModel::<P, V, C>::empty().wf(),
        world_record(WorldModel::<P, V, C>::empty(), Set::empty(), Set::empty()),
        WorldModel::<P, V, C>::empty().allocator.can_allocate(),
        WorldModel::<P, V, C>::empty().spawn().1.index_spec() == 0,
        WorldModel::<P, V, C>::empty().spawn().1.generation_spec() == 0,
{
    law_issue_start();
    law_new_allocator_is_empty(e);
}

/// A spawn hands out what the allocator's allocation hands out. While only held
/// entities are despawned, that entity is new: it is not held, it has no component,
/// it is alive afterwards, every held entity stays alive with its components, and
/// the record stays consistent with the entity added.
pub proof fn law_spawn_gives_new_entity<P, V, C>(
    w: WorldModel<P, V, C>,
    held: Set<Entity>,
    issued: Set<Entity>,
    h: Entity,
)
    requires
        w.wf(),
        world_record(w, held, issued),
        w.allocator.can_allocate(),
    ensures
        ({
            let (after, e) = w.spawn();
            &&& e == w.allocator.allocate().1
            &&& after.allocator == w.allocator.allocate().0
            &&& !held.contains(e)
            &&& after.is_alive(e)
            &&& stored(after.positions, e) is None
            &&& stored(after.velocities, e) is None
            &&& stored(after.circles, e) is None
            &&& held.contains(h) ==> after.is_alive(h)
            &&& stored(after.positions, h) == stored(w.positions, h)
            &&& stored(after.velocities, h) == stored(w.velocities, h)
            &&& stored(after.circles, h) == stored(w.circles, h)
            &&& after.wf()
            &&& world_record(after, held.insert(e), issued.insert(e))
        }),
{
    law_allocate_issues_fresh_handle(w.allocator, held, issued);
    law_operations_keep_wf(w, h, arbitrary(), arbitrary(), arbitrary());
    if held.contains(h) {
        law_allocate_keeps_alive(w.allocator, h);
    }
    let (after, e) = w.spawn();
    assert forall|x: Entity| #[trigger] after.positions.contains_key(x) implies held.insert(e).contains(x) by {
        assert(held.contains(x));
    }
    assert forall|x: Entity| #[trigger] after.velocities.contains_key(x) implies held.insert(e).contains(x) by {
        assert(held.contains(x));
    }
    assert forall|x: Entity| #[trigger] after.circles.contains_key(x) implies held.insert(e).contains(x) by {
        assert(held.contains(x));
    }
}

/// Despawning kills no other entity: an entity alive before, other than the one
/// despawned, is alive after; and an entity on another slot keeps its liveness.
pub proof fn law_despawn_keeps_others_alive<P, V, C>(w: WorldModel<P, V, C>, e: Entity, other: Entity)
    requires
        w.wf(),
        w.allocator.can_deallocate(e),
        other != e,
    ensures
        w.is_alive(other) ==> w.despawn(e).0.is_alive(other),
        other.index_spec() != e.index_spec() ==> w.despawn(e).0.is_alive(other) == w.is_alive(other),
{
    if w.is_alive(e) {
        law_deallocate_alive(w.allocator, e, other);
        if w.is_alive(other) {
            law_deallocate_keeps_others_alive(w.allocator, e, other);
        }
    }
}

/// Despawning a held entity succeeds, kills it, takes its components, and keeps the
/// record consistent with the entity no longer held.
pub proof fn law_despawn_held_entity<P, V, C>(
    w: WorldModel<P, V, C>,
    held: Set<Entity>,
    issued: Set<Entity>,
    e: Entity,
)
    requires
        w.wf(),
        world_record(w, held, issued),
        held.contains(e),
        w.allocator.can_deallocate(e),
    ensures
        ({
            let (after, was_alive) = w.despawn(e);
            &&& was_alive
            &&& !after.is_alive(e)
            &&& !after.positions.contains_key(e)
            &&& !after.velocities.contains_key(e)
            &&& !after.circles.contains_key(e)
            &&& after.wf()
            &&& world_record(after, held.remove(e), issued)
        }),
{
    law_give_back_held_handle(w.allocator, held, issued, e);
    law_deallocate_alive(w.allocator, e, e);
    law_operations_keep_wf(w, e, arbitrary(), arbitrary(), arbitrary());
    let after = w.despawn(e).0;
    assert forall|x: Entity| #[trigger] after.positions.contains_key(x) implies held.remove(e).contains(x) by {
        assert(w.positions.contains_key(x));
    }
    assert forall|x: Entity| #[trigger] after.velocities.contains_key(x) implies held.remove(e).contains(x) by {
        assert(w.velocities.contains_key(x));
    }
    assert forall|x: Entity| #[trigger] after.circles.contains_key(x) implies held.remove(e).contains(x) by {
        assert(w.circles.contains_key(x));
    }
}

/// Attaching components to a held entity keeps the record consistent.
pub proof fn law_add_to_held_keeps_record<P, V, C>(
    w: WorldModel<P, V, C>,
    held: Set<Entity>,
    issued: Set<Entity>,
    e: Entity,
    p: P,
    v: V,
    c: C,
)
    requires
        world_record(w, held, issued),
        held.contains(e),
    ensures
        world_record(w.add_position(e, p).0, held, issued),
        world_record(w.add_velocity(e, v).0, held, issued),
        world_record(w.add_circle(e, c).0, held, issued),
{
}

/// The entities of a 2D scene and their components: a position, a velocity and a
/// circle, each of its own type.
pub struct World2D<P, V, C> {
    allocator: EntityAllocator,
    positions: ComponentStorage<P>,
    velocities: ComponentStorage<V>,
    circles: ComponentStorage<C>,
}

impl<P, V, C> View for World2D<P, V, C> {
    type V = WorldModel<P, V, C>;

    closed spec fn view(&self) -> WorldModel<P, V, C> {
        WorldModel {
            allocator: self.allocator@,
            positions: self.positions@,
            velocities: self.velocities@,
            circles: self.circles@,
        }
    }
}

impl<P, V, C> World2D<P, V, C> {
    /// The parts are well formed, and only alive entities have components.
    pub closed spec fn wf(&self) -> bool {
        &&& self@.wf()
        &&& self.positions.wf()
        &&& self.velocities.wf()
        &&& self.circles.wf()
    }

    /// A well formed world satisfies its model's invariant: its allocator is well
    /// formed and only alive entities have components; and each kind of component
    /// is held by finitely many entities.
    pub proof fn lemma_wf(&self)
        requires
            self.wf(),
        ensures
            self@.wf(),
            self@.positions.dom().finite(),
            self@.velocities.dom().finite(),
            self@.circles.dom().finite(),
    {
        self.positions.lemma_finite();
        self.velocities.lemma_finite();
        self.circles.lemma_finite();
    }

    pub fn new() -> (w: Self)
        ensures
            w.wf(),
            w@ == WorldModel::<P, V, C>::empty(),
    {
        Self {
            allocator: EntityAllocator::new(),
            positions: ComponentStorage::new(),
            velocities: ComponentStorage::new(),
            circles: ComponentStorage::new(),
        }
    }

    pub fn spawn(&mut self) -> (e: Entity)
        requires
            old(self).wf(),
            old(self)@.allocator.can_allocate(),
        ensures
            final(self).wf(),
            (final(self)@, e) == old(self)@.spawn(),
    {
        let e = self.allocator.allocate();
        proof {
            let pre = old(self)@;
            assert forall|x: Entity| pre.is_alive(x) implies #[trigger] self@.is_alive(x) by {
                law_allocate_keeps_alive(pre.allocator, x);
            }
            assert(pre.components_alive());
            assert(self@.positions == pre.positions);
            assert(self@.velocities == pre.velocities);
            assert(self@.circles == pre.circles);
        }
        e
    }

    /// Spawns an entity and attaches a position, a velocity and a circle to it.
    pub fn spawn_with(&mut self, position: P, velocity: V, circle: C) -> (e: Entity)
        requires
            old(self).wf(),
            old(self)@.allocator.can_allocate(),
        ensures
            final(self).wf(),
            e == old(self)@.spawn().1,
            final(self)@ == old(self)@.spawn().0.add_position(e, position).0.add_velocity(
                e,
                velocity,
            ).0.add_circle(e, circle).0,
    {
        let e = self.spawn();
        proof {
            law_allocated_handle_is_alive(old(self)@.allocator);
        }
        self.add_position(e, position);
        self.add_velocity(e, velocity);
        self.add_circle(e, circle);
        e
    }

    pub fn despawn(&mut self, entity: Entity) -> (was_alive: bool)
        requires
            old(self).wf(),
            old(self)@.allocator.can_deallocate(entity),
        ensures
            final(self).wf(),
            (final(self)@, was_alive) == old(self)@.despawn(entity),
    {
        if !self.allocator.deallocate(entity) {
            return false;
        }
        self.positions.remove(entity);
        self.velocities.remove(entity);
        self.circles.remove(entity);
        proof {
            let pre = old(self)@;
            assert forall|x: Entity| pre.is_alive(x) && x != entity implies #[trigger] self@.is_alive(
                x,
            ) by {
                law_deallocate_keeps_others_alive(pre.allocator, entity, x);
            }
            assert(pre.components_alive());
            assert(self@.positions == pre.positions.remove(entity));
            assert(self@.velocities == pre.velocities.remove(entity));
            assert(self@.circles == pre.circles.remove(entity));
            assert forall|x: Entity| #[trigger] self@.positions.contains_key(x) implies self@.is_alive(x) by {
                assert(pre.positions.contains_key(x) && x != entity);
            }
            assert forall|x: Entity| #[trigger] self@.velocities.contains_key(x) implies self@.is_alive(x) by {
                assert(pre.velocities.contains_key(x) && x != entity);
            }
            assert forall|x: Entity| #[trigger] self@.circles.contains_key(x) implies self@.is_alive(x) by {
                assert(pre.circles.contains_key(x) && x != entity);
            }
        }
        true
    }

    /// Whether an entity can be spawned: the allocator can still allocate.
    pub fn can_spawn(&self) -> (possible: bool)
        ensures
            possible == self@.allocator.can_allocate(),
    {
        self.allocator.can_allocate()
    }

    pub fn is_alive(&self, entity: Entity) -> (alive: bool)
        ensures
            alive == self@.is_alive(entity),
    {
        self.allocator.is_alive(entity)
    }

    pub fn add_position(&mut self, entity: Entity, position: P) -> (previous: Option<P>)
        requires
            old(self).wf(),
        ensures
            final(self).wf(),
            (final(self)@, previous) == old(self)@.add_position(entity, position),
    {
        if !self.is_alive(entity) {
            return None;
        }
        let previous = self.positions.insert(entity, position);
        proof {
            let pre = old(self)@;
            assert(pre.components_alive());
            assert forall|x: Entity| #[trigger] self@.positions.contains_key(x) implies self@.is_alive(
                x,
            ) by {
                if x != entity {
                    assert(pre.positions.contains_key(x));
                }
            }
            assert(self@ == pre.add_position(entity, position).0);
        }
        previous
    }

    pub fn get_position(&self, entity: Entity) -> (found: Option<&P>)
        requires
            self.wf(),
        ensures
            match found {
                Some(x) => self@.lookup(self@.positions, entity) == Some(*x),
                None => self@.lookup(self@.positions, entity) is None,
            },
    {
        if !self.is_alive(entity) {
            return None;
        }
        self.positions.get(entity)
    }

    pub fn get_position_mut(&mut self, entity: Entity) -> (found: Option<&mut P>)
        requires
            old(self).wf(),
        ensures
            final(self).wf(),
            match found {
                Some(x) => {
                    &&& old(self)@.lookup(old(self)@.positions, entity) == Some(*x)
                    &&& final(self)@ == WorldModel {
                        positions: old(self)@.positions.insert(entity, *final(x)),
                        ..old(self)@
                    }
                },
                None => {
                    &&& old(self)@.lookup(old(self)@.positions, entity) is None
                    &&& final(self)@ == old(self)@
                },
            },
    {
        if !self.is_alive(entity) {
            return None;
        }
        let found = self.positions.get_mut(entity);
        proof {
            let pre = old(self)@;
            assert(pre.components_alive());
            assert(pre.positions.contains_key(entity) ==> pre.positions.insert(entity, pre.positions[entity]).dom() =~= pre.positions.dom());
            assert forall|x: Entity| #[trigger] pre.positions.insert(entity, pre.positions[entity]).contains_key(x) implies pre.is_alive(x) by {
                if x != entity {
                    assert(pre.positions.contains_key(x));
                }
            }
        }
        found
    }

    /// Every entity that has a position, with its position, each once, in an order
    /// that the world does not fix.
    pub fn positions_iter(&self) -> (items: Vec<(&Entity, &P)>)
        requires
            self.wf(),
        ensures
            enumerates(items@, self@.positions),
            forall|i: int| 0 <= i < items.len() ==> self@.is_alive(*#[trigger] items[i].0),
    {
        let items = self.positions.iter();
        proof {
            assert forall|i: int| 0 <= i < items.len() implies self@.is_alive(
                *#[trigger] items[i].0,
            ) by {
                assert(self@.positions.contains_key(*items[i].0));
            }
        }
        items
    }

    pub fn add_velocity(&mut self, entity: Entity, velocity: V) -> (previous: Option<V>)
        requires
            old(self).wf(),
        ensures
            final(self).wf(),
            (final(self)@, previous) == old(self)@.add_velocity(entity, velocity),
    {
        if !self.is_alive(entity) {
            return None;
        }
        let previous = self.velocities.insert(entity, velocity);
        proof {
            let pre = old(self)@;
            assert(pre.components_alive());
            assert forall|x: Entity| #[trigger] self@.velocities.contains_key(x) implies self@.is_alive(
                x,
            ) by {
                if x != entity {
                    assert(pre.velocities.contains_key(x));
                }
            }
            assert(self@ == pre.add_velocity(entity, velocity).0);
        }
        previous
    }

    pub fn get_velocity(&self, entity: Entity) -> (found: Option<&V>)
        requires
            self.wf(),
        ensures
            match found {
                Some(x) => self@.lookup(self@.velocities, entity) == Some(*x),
                None => self@.lookup(self@.velocities, entity) is None,
            },
    {
        if !self.is_alive(entity) {
            return None;
        }
        self.velocities.get(entity)
    }

    pub fn get_velocity_mut(&mut self, entity: Entity) -> (found: Option<&mut V>)
        requires
            old(self).wf(),
        ensures
            final(self).wf(),
            match found {
                Some(x) => {
                    &&& old(self)@.lookup(old(self)@.velocities, entity) == Some(*x)
                    &&& final(self)@ == WorldModel {
                        velocities: old(self)@.velocities.insert(entity, *final(x)),
                        ..old(self)@
                    }
                },
                None => {
                    &&& old(self)@.lookup(old(self)@.velocities, entity) is None
                    &&& final(self)@ == old(self)@
                },
            },
    {
        if !self.is_alive(entity) {
            return None;
        }
        let found = self.velocities.get_mut(entity);
        proof {
            let pre = old(self)@;
            assert(pre.components_alive());
            assert(pre.velocities.contains_key(entity) ==> pre.velocities.insert(entity, pre.velocities[entity]).dom() =~= pre.velocities.dom());
            assert forall|x: Entity| #[trigger] pre.velocities.insert(entity, pre.velocities[entity]).contains_key(x) implies pre.is_alive(x) by {
                if x != entity {
                    assert(pre.velocities.contains_key(x));
                }
            }
        }
        found
    }

    /// Every entity that has a velocity, with its velocity, each once, in an order
    /// that the world does not fix.
    pub fn velocities_iter(&self) -> (items: Vec<(&Entity, &V)>)
        requires
            self.wf(),
        ensures
            enumerates(items@, self@.velocities),
            forall|i: int| 0 <= i < items.len() ==> self@.is_alive(*#[trigger] items[i].0),
    {
        let items = self.velocities.iter();
        proof {
            assert forall|i: int| 0 <= i < items.len() implies self@.is_alive(
                *#[trigger] items[i].0,
            ) by {
                assert(self@.velocities.contains_key(*items[i].0));
            }
        }
        items
    }

    pub fn add_circle(&mut self, entity: Entity, circle: C) -> (previous: Option<C>)
        requires
            old(self).wf(),
        ensures
            final(self).wf(),
            (final(self)@, previous) == old(self)@.add_circle(entity, circle),
    {
        if !self.is_alive(entity) {
            return None;
        }
        let previous = self.circles.insert(entity, circle);
        proof {
            let pre = old(self)@;
            assert(pre.components_alive());
            assert forall|x: Entity| #[trigger] self@.circles.contains_key(x) implies self@.is_alive(
                x,
            ) by {
                if x != entity {
                    assert(pre.circles.contains_key(x));
                }
            }
            assert(self@ == pre.add_circle(entity, circle).0);
        }
        previous
    }

    pub fn get_circle(&self, entity: Entity) -> (found: Option<&C>)
        requires
            self.wf(),
        ensures
            match found {
                Some(x) => self@.lookup(self@.circles, entity) == Some(*x),
                None => self@.lookup(self@.circles, entity) is None,
            },
    {
        if !self.is_alive(entity) {
            return None;
        }
        self.circles.get(entity)
    }

    pub fn get_circle_mut(&mut self, entity: Entity) -> (found: Option<&mut C>)
        requires
            old(self).wf(),
        ensures
            final(self).wf(),
            match found {
                Some(x) => {
                    &&& old(self)@.lookup(old(self)@.circles, entity) == Some(*x)
                    &&& final(self)@ == WorldModel {
                        circles: old(self)@.circles.insert(entity, *final(x)),
                        ..old(self)@
                    }
                },
                None => {
                    &&& old(self)@.lookup(old(self)@.circles, entity) is None
                    &&& final(self)@ == old(self)@
                },
            },
    {
        if !self.is_alive(entity) {
            return None;
        }
        let found = self.circles.get_mut(entity);
        proof {
            let pre = old(self)@;
            assert(pre.components_alive());
            assert(pre.circles.contains_key(entity) ==> pre.circles.insert(entity, pre.circles[entity]).dom() =~= pre.circles.dom());
            assert forall|x: Entity| #[trigger] pre.circles.insert(entity, pre.circles[entity]).contains_key(x) implies pre.is_alive(x) by {
                if x != entity {
                    assert(pre.circles.contains_key(x));
                }
            }
        }
        found
    }

    /// Every entity that has a circle, with its circle, each once, in an order
    /// that the world does not fix.
    pub fn circles_iter(&self) -> (items: Vec<(&Entity, &C)>)
        requires
            self.wf(),
        ensures
            enumerates(items@, self@.circles),
            forall|i: int| 0 <= i < items.len() ==> self@.is_alive(*#[trigger] items[i].0),
    {
        let items = self.circles.iter();
        proof {
            assert forall|i: int| 0 <= i < items.len() implies self@.is_alive(
                *#[trigger] items[i].0,
            ) by {
                assert(self@.circles.contains_key(*items[i].0));
            }
        }
        items
    }
}

} // verus!
