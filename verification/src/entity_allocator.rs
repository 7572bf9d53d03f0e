use vstd::prelude::*;

use crate::entity::Entity;

verus! {

broadcast use crate::entity::group_entity;

/// What an allocator holds, as mathematical values: the current generation of each
/// slot, and the slots handed back, the last one handed back at the end.
pub struct AllocatorModel {
    pub generations: Seq<u32>,
    pub free_indices: Seq<u32>,
}

/// The largest number of slots an allocator can have: a slot is named by a `u32`.
pub open spec fn max_slots() -> nat {
    0x1_0000_0000
}

impl AllocatorModel {
    /// The allocator with no slots.
    pub open spec fn empty() -> AllocatorModel {
        AllocatorModel { generations: Seq::empty(), free_indices: Seq::empty() }
    }

    /// The slots fit in `u32`, and every slot handed back exists.
    pub open spec fn wf(self) -> bool {
        &&& self.generations.len() <= max_slots()
        &&& forall|k: int|
            0 <= k < self.free_indices.len() ==> #[trigger] self.free_indices[k]
                < self.generations.len()
    }

    /// A handle is alive when its slot exists and the slot is at the handle's generation.
    pub open spec fn is_alive(self, e: Entity) -> bool {
        &&& e.index_spec() < self.generations.len()
        &&& self.generations[e.index_spec() as int] == e.generation_spec()
    }

    /// A handle is stale when its slot has moved past the handle's generation:
    /// such a handle can never be alive again.
    pub open spec fn is_stale(self, e: Entity) -> bool {
        &&& e.index_spec() < self.generations.len()
        &&& e.generation_spec() < self.generations[e.index_spec() as int]
    }

    /// An allocation can be made: a slot was handed back, or a new one can be named.
    pub open spec fn can_allocate(self) -> bool {
        self.free_indices.len() > 0 || self.generations.len() < max_slots()
    }

    /// The state after an allocation and the handle it gives: the slot handed back
    /// last, at its current generation, or else a new slot at generation 0.
    pub open spec fn allocate(self) -> (AllocatorModel, Entity) {
        if self.free_indices.len() > 0 {
            let index = self.free_indices.last();
            (
                AllocatorModel {
                    generations: self.generations,
                    free_indices: self.free_indices.drop_last(),
                },
                Entity::from_parts(index, self.generations[index as int]),
            )
        } else {
            let index = self.generations.len() as u32;
            (
                AllocatorModel {
                    generations: self.generations.push(0),
                    free_indices: self.free_indices,
                },
                Entity::from_parts(index, 0),
            )
        }
    }

    /// A handle may be given back when, if alive, its generation can still grow.
    pub open spec fn can_deallocate(self, e: Entity) -> bool {
        self.is_alive(e) ==> e.generation_spec() < u32::MAX
    }

    /// The state after giving back a handle, and whether it was taken: an alive
    /// handle moves its slot to the next generation and hands the slot back;
    /// any other handle changes nothing.
    pub open spec fn deallocate(self, e: Entity) -> (AllocatorModel, bool) {
        if self.is_alive(e) {
            let i = e.index_spec() as int;
            (
                AllocatorModel {
                    generations: self.generations.update(i, (self.generations[i] + 1) as u32),
                    free_indices: self.free_indices.push(e.index_spec()),
                },
                true,
            )
        } else {
            (self, false)
        }
    }
}

/// An allocation leaves the allocator well formed, and the handle it gives is alive.
pub proof fn law_allocated_handle_is_alive(a: AllocatorModel)
    requires
        a.wf(),
        a.can_allocate(),
    ensures
        a.allocate().0.wf(),
        a.allocate().0.is_alive(a.allocate().1),
{
}

/// An allocation kills no handle: every handle alive before is alive after.
pub proof fn law_allocate_keeps_alive(a: AllocatorModel, e: Entity)
    requires
        a.wf(),
        a.can_allocate(),
        a.is_alive(e),
    ensures
        a.allocate().0.is_alive(e),
{
}

/// With no slot handed back, an allocation names a new slot, at generation 0, that
/// no handle was alive on before.
pub proof fn law_fresh_slot(a: AllocatorModel)
    requires
        a.wf(),
        a.can_allocate(),
        a.free_indices.len() == 0,
    ensures
        a.allocate().1.index_spec() == a.generations.len(),
        a.allocate().1.generation_spec() == 0,
        !a.is_alive(a.allocate().1),
{
}

/// Giving back an alive handle is taken, kills it for good (it becomes stale), and
/// leaves the liveness of handles on other slots as it was.
pub proof fn law_deallocate_alive(a: AllocatorModel, e: Entity, other: Entity)
    requires
        a.wf(),
        a.is_alive(e),
        a.can_deallocate(e),
    ensures
        a.deallocate(e).1,
        a.deallocate(e).0.wf(),
        !a.deallocate(e).0.is_alive(e),
        a.deallocate(e).0.is_stale(e),
        other.index_spec() != e.index_spec() ==> a.deallocate(e).0.is_alive(other) == a.is_alive(
            other,
        ),
{
}

/// Giving back a handle kills no other handle: every other handle alive before is
/// alive after.
pub proof fn law_deallocate_keeps_others_alive(a: AllocatorModel, e: Entity, other: Entity)
    requires
        a.wf(),
        a.can_deallocate(e),
        a.is_alive(other),
        other != e,
    ensures
        a.deallocate(e).0.is_alive(other),
{
    Entity::lemma_parts_determine(e, other);
}

/// Giving back a handle that is not alive is refused and changes nothing; in
/// particular, giving back the same handle twice is refused the second time.
pub proof fn law_deallocate_dead(a: AllocatorModel, e: Entity)
    requires
        !a.is_alive(e),
    ensures
        a.deallocate(e) == (a, false),
{
}

/// The second return of the same handle is refused.
pub proof fn law_deallocate_twice(a: AllocatorModel, e: Entity)
    requires
        a.wf(),
        a.can_deallocate(e),
    ensures
        a.deallocate(e).0.deallocate(e).1 == false,
{
}

/// A stale handle is not alive, and stays stale through any allocation and any
/// return of a handle: a reused slot never revives an old handle.
pub proof fn law_stale_stays_dead(a: AllocatorModel, e: Entity, given_back: Entity)
    requires
        a.wf(),
        a.is_stale(e),
    ensures
        !a.is_alive(e),
        a.can_allocate() ==> a.allocate().0.is_stale(e),
        a.can_deallocate(given_back) ==> a.deallocate(given_back).0.is_stale(e),
{
}

/// A slot given back is the next one reused, at the next generation: the new
/// handle shares the slot of the old one but is a different handle.
pub proof fn law_slot_reused_at_next_generation(a: AllocatorModel, e: Entity)
    requires
        a.wf(),
        a.is_alive(e),
        a.can_deallocate(e),
    ensures
        ({
            let after = a.deallocate(e).0;
            let reused = after.allocate().1;
            &&& after.can_allocate()
            &&& reused.index_spec() == e.index_spec()
            &&& reused.generation_spec() == e.generation_spec() + 1
            &&& reused != e
            &&& after.allocate().0.is_alive(reused)
            &&& !after.allocate().0.is_alive(e)
        }),
{
    let after = a.deallocate(e).0;
    let i = e.index_spec() as int;
    assert(after.free_indices.len() > 0);
    assert(after.free_indices.last() == e.index_spec());
    assert(after.generations[i] == e.generation_spec() + 1);
    let reused = after.allocate().1;
    assert(reused == Entity::from_parts(e.index_spec(), after.generations[i]));
    assert(reused.generation_spec() != e.generation_spec());
}

/// The allocator agrees with a record of the handles it has issued (`issued`) and
/// of those of them not given back since (`held`): no slot is handed back twice,
/// each held handle is alive on a slot that is not handed back, and each issued
/// handle no longer held is stale.
pub open spec fn issues_consistently(a: AllocatorModel, held: Set<Entity>, issued: Set<Entity>) -> bool {
    &&& a.wf()
    &&& a.free_indices.no_duplicates()
    &&& held.subset_of(issued)
    &&& forall|h: Entity| #[trigger] held.contains(h) ==> {
        &&& a.is_alive(h)
        &&& !a.free_indices.contains(h.index_spec())
    }
    &&& forall|x: Entity| #[trigger] issued.contains(x) && !held.contains(x) ==> a.is_stale(x)
    &&& forall|i: u32|
        #![trigger a.free_indices.contains(i)]
        #![trigger slot_held(held, i)]
        i < a.generations.len() ==> a.free_indices.contains(i) || slot_held(held, i)
}

/// Some handle of `held` is on slot `i`.
pub open spec fn slot_held(held: Set<Entity>, i: u32) -> bool {
    exists|h: Entity| #[trigger] held.contains(h) && h.index_spec() == i
}

/// A new allocator has issued nothing, consistently.
pub proof fn law_issue_start()
    ensures
        issues_consistently(AllocatorModel::empty(), Set::empty(), Set::empty()),
{
}

/// While only issued handles are given back, an allocation never hands out a handle
/// that is held: the handle it gives is new to `held`, alive, and the record stays
/// consistent with it added to both sets.
pub proof fn law_allocate_issues_fresh_handle(
    a: AllocatorModel,
    held: Set<Entity>,
    issued: Set<Entity>,
)
    requires
        issues_consistently(a, held, issued),
        a.can_allocate(),
    ensures
        !held.contains(a.allocate().1),
        a.allocate().0.is_alive(a.allocate().1),
        issues_consistently(a.allocate().0, held.insert(a.allocate().1), issued.insert(a.allocate().1)),
{
    let (after, e) = a.allocate();
    let held2 = held.insert(e);
    if a.free_indices.len() > 0 {
        let last = a.free_indices.len() - 1;
        assert(a.free_indices[last] == e.index_spec());
        assert(a.free_indices.contains(e.index_spec()));
        assert forall|k: int| 0 <= k < after.free_indices.len() implies after.free_indices[k]
            != e.index_spec() by {
            assert(after.free_indices[k] == a.free_indices[k]);
        }
        assert forall|h: Entity| #[trigger] held.contains(h) implies !after.free_indices.contains(
            h.index_spec(),
        ) by {
            if after.free_indices.contains(h.index_spec()) {
                let k = choose|k: int|
                    0 <= k < after.free_indices.len() && after.free_indices[k] == h.index_spec();
                assert(a.free_indices[k] == h.index_spec());
            }
        }
        assert forall|i: u32| i < after.generations.len() implies #[trigger] after.free_indices.contains(i)
            || #[trigger] slot_held(held2, i) by {
            if i == e.index_spec() {
                assert(held2.contains(e));
            } else if a.free_indices.contains(i) {
                let k = choose|k: int| 0 <= k < a.free_indices.len() && a.free_indices[k] == i;
                assert(k != last);
                assert(after.free_indices[k] == i);
            } else {
                assert(slot_held(held, i));
                let h = choose|h: Entity| #[trigger] held.contains(h) && h.index_spec() == i;
                assert(held2.contains(h));
            }
        }
    } else {
        assert forall|i: u32| i < after.generations.len() implies #[trigger] after.free_indices.contains(i)
            || #[trigger] slot_held(held2, i) by {
            if i == e.index_spec() {
                assert(held2.contains(e));
            } else {
                assert(i < a.generations.len());
                if !a.free_indices.contains(i) {
                    assert(slot_held(held, i));
                    let h = choose|h: Entity| #[trigger] held.contains(h) && h.index_spec() == i;
                    assert(held2.contains(h));
                }
            }
        }
    }
    assert forall|h: Entity| #[trigger] held2.contains(h) implies after.is_alive(h) by {
        if h != e {
            law_allocate_keeps_alive(a, h);
        }
    }
    assert forall|x: Entity| #[trigger] issued.insert(e).contains(x) && !held2.contains(
        x,
    ) implies after.is_stale(x) by {
        law_stale_stays_dead(a, x, x);
    }
}

/// While only issued handles are given back, giving back a held handle is taken,
/// makes it stale, and keeps the record consistent with it no longer held.
pub proof fn law_give_back_held_handle(
    a: AllocatorModel,
    held: Set<Entity>,
    issued: Set<Entity>,
    e: Entity,
)
    requires
        issues_consistently(a, held, issued),
        held.contains(e),
        a.can_deallocate(e),
    ensures
        a.deallocate(e).1,
        a.deallocate(e).0.is_stale(e),
        issues_consistently(a.deallocate(e).0, held.remove(e), issued),
{
    let after = a.deallocate(e).0;
    law_deallocate_alive(a, e, e);
    assert(after.free_indices == a.free_indices.push(e.index_spec()));
    assert(after.free_indices.no_duplicates()) by {
        assert forall|i: int, j: int|
            0 <= i < after.free_indices.len() && 0 <= j < after.free_indices.len() && i != j
            implies after.free_indices[i] != after.free_indices[j] by {
            let n = a.free_indices.len() as int;
            if i == n {
                assert(!a.free_indices.contains(e.index_spec()));
                assert(after.free_indices[j] == a.free_indices[j]);
            } else if j == n {
                assert(!a.free_indices.contains(e.index_spec()));
                assert(after.free_indices[i] == a.free_indices[i]);
            }
        }
    }
    assert forall|h: Entity| #[trigger] held.remove(e).contains(h) implies {
        &&& after.is_alive(h)
        &&& !after.free_indices.contains(h.index_spec())
    } by {
        law_deallocate_keeps_others_alive(a, e, h);
        if h.index_spec() == e.index_spec() {
            Entity::lemma_parts_determine(h, e);
        }
        if after.free_indices.contains(h.index_spec()) {
            let k = choose|k: int|
                0 <= k < after.free_indices.len() && after.free_indices[k] == h.index_spec();
            if k < a.free_indices.len() {
                assert(a.free_indices[k] == h.index_spec());
            }
        }
    }
    assert forall|x: Entity| #[trigger] issued.contains(x) && !held.remove(e).contains(x)
        implies after.is_stale(x) by {
        if x != e {
            law_stale_stays_dead(a, x, e);
        }
    }
    let held2 = held.remove(e);
    assert forall|i: u32| i < after.generations.len() implies #[trigger] after.free_indices.contains(i)
        || #[trigger] slot_held(held2, i) by {
        let n = a.free_indices.len() as int;
        if i == e.index_spec() {
            assert(after.free_indices[n] == i);
        } else if a.free_indices.contains(i) {
            let k = choose|k: int| 0 <= k < n && a.free_indices[k] == i;
            assert(after.free_indices[k] == i);
        } else {
            assert(slot_held(held, i));
            let h = choose|h: Entity| #[trigger] held.contains(h) && h.index_spec() == i;
            assert(h != e);
            assert(held2.contains(h));
        }
    }
}

/// In a consistent record, an issued handle is alive exactly when it is held.
pub proof fn law_issued_alive_iff_held(
    a: AllocatorModel,
    held: Set<Entity>,
    issued: Set<Entity>,
    x: Entity,
)
    requires
        issues_consistently(a, held, issued),
        issued.contains(x),
    ensures
        a.is_alive(x) <==> held.contains(x),
{
    if !held.contains(x) {
        law_stale_stays_dead(a, x, x);
    }
}

/// A new allocator has no alive handle, and its first allocation is slot 0 at
/// generation 0.
pub proof fn law_new_allocator_is_empty(e: Entity)
    ensures
        !AllocatorModel::empty().is_alive(e),
        AllocatorModel::empty().wf(),
        AllocatorModel::empty().can_allocate(),
        AllocatorModel::empty().allocate().1.index_spec() == 0,
        AllocatorModel::empty().allocate().1.generation_spec() == 0,
{
}

/// Each allocation uses exactly one slot: one handed back if there is any, which
/// leaves the others handed back, or else one new slot.
pub proof fn law_allocation_uses_one_slot(a: AllocatorModel)
    requires
        a.wf(),
        a.can_allocate(),
    ensures
        a.free_indices.len() > 0 ==> {
            &&& a.allocate().0.free_indices.len() == a.free_indices.len() - 1
            &&& a.allocate().0.generations == a.generations
            &&& a.allocate().0.free_indices.push(a.allocate().1.index_spec()) == a.free_indices
        },
        a.free_indices.len() == 0 ==> {
            &&& a.allocate().0.free_indices == a.free_indices
            &&& a.allocate().0.generations.len() == a.generations.len() + 1
            &&& a.allocate().1.index_spec() == a.generations.len()
        },
{
    if a.free_indices.len() > 0 {
        let after = a.allocate().0;
        assert(after.free_indices.push(a.free_indices.last()) =~= a.free_indices);
    }
}

/// Giving back the handle just allocated hands its slot back and leaves the other
/// slots handed back as they were.
pub proof fn law_allocate_then_deallocate(a: AllocatorModel)
    requires
        a.wf(),
        a.can_allocate(),
        a.allocate().0.can_deallocate(a.allocate().1),
    ensures
        ({
            let (mid, e) = a.allocate();
            let (after, taken) = mid.deallocate(e);
            &&& taken
            &&& after.is_stale(e)
            &&& after.generations.len() == mid.generations.len()
            &&& a.free_indices.len() > 0 ==> after.free_indices == a.free_indices
            &&& a.free_indices.len() == 0 ==> after.free_indices == a.free_indices.push(e.index_spec())
        }),
{
    law_allocated_handle_is_alive(a);
    law_allocation_uses_one_slot(a);
}

/// Hands out entity handles, reusing the slots of handles given back.
pub struct EntityAllocator {
    generations: Vec<u32>,
    free_indices: Vec<u32>,
}

impl View for EntityAllocator {
    type V = AllocatorModel;

    closed spec fn view(&self) -> AllocatorModel {
        AllocatorModel { generations: self.generations@, free_indices: self.free_indices@ }
    }
}

impl EntityAllocator {
    pub fn new() -> (a: Self)
        ensures
            a@ == AllocatorModel::empty(),
            a@.wf(),
    {
        Self { generations: Vec::new(), free_indices: Vec::new() }
    }

    pub fn allocate(&mut self) -> (e: Entity)
        requires
            old(self)@.wf(),
            old(self)@.can_allocate(),
        ensures
            (final(self)@, e) == old(self)@.allocate(),
            final(self)@.wf(),
    {
        if let Some(index) = self.free_indices.pop() {
            proof {
                assert(old(self)@.free_indices.last() == index);
            }
            let generation = self.generations[index as usize];
            Entity::new(index, generation)
        } else {
            let index = self.generations.len() as u32;
            self.generations.push(0);
            Entity::new(index, 0)
        }
    }

    pub fn deallocate(&mut self, entity: Entity) -> (taken: bool)
        requires
            old(self)@.wf(),
            old(self)@.can_deallocate(entity),
        ensures
            (final(self)@, taken) == old(self)@.deallocate(entity),
            final(self)@.wf(),
    {
        let index = entity.get_index() as usize;

        if index < self.generations.len() && self.generations[index] == entity.get_generation() {
            let next = self.generations[index] + 1;
            self.generations.set(index, next);
            self.free_indices.push(entity.get_index());
            true
        } else {
            false
        }
    }

    /// Whether an allocation can be made: a slot was handed back, or a new one can
    /// still be named by a `u32`.
    pub fn can_allocate(&self) -> (possible: bool)
        ensures
            possible == self@.can_allocate(),
    {
        self.free_indices.len() > 0 || self.generations.len() <= u32::MAX as usize
    }

    pub fn is_alive(&self, entity: Entity) -> (alive: bool)
        ensures
            alive == self@.is_alive(entity),
    {
        let index = entity.get_index() as usize;
        index < self.generations.len() && self.generations[index] == entity.get_generation()
    }
}

} // verus!
