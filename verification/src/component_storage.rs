use std::collections::HashMap;
use std::collections::hash_map::Entry;
use vstd::prelude::*;
use vstd::set_lib::lemma_map_size;
use vstd::std_specs::hash::spec_hash_map_iter;
use vstd::std_specs::iter::IteratorSpec;

use crate::entity::Entity;

verus! {

broadcast use vstd::std_specs::hash::group_hash_axioms;

/// What `get` finds after `insert`: the component just stored for that entity,
/// while every other entity keeps what it had.
pub proof fn law_get_after_insert<T>(m: Map<Entity, T>, e: Entity, c: T, other: Entity)
    requires
        other != e,
    ensures
        m.insert(e, c).contains_key(e),
        m.insert(e, c)[e] == c,
        m.insert(e, c).contains_key(other) == m.contains_key(other),
        m.contains_key(other) ==> m.insert(e, c)[other] == m[other],
{
}

/// A second `insert` for the same entity replaces the first: it hands back the
/// component stored by the first and leaves only the second.
pub proof fn law_insert_replaces<T>(m: Map<Entity, T>, e: Entity, first: T, second: T)
    ensures
        m.insert(e, first).contains_key(e),
        m.insert(e, first)[e] == first,
        m.insert(e, first).insert(e, second) == m.insert(e, second),
{
    assert(m.insert(e, first).insert(e, second) =~= m.insert(e, second));
}

/// `remove` undoes `insert`: it hands back the component inserted, and afterwards
/// the entity has no component, whatever it had before.
pub proof fn law_remove_after_insert<T>(m: Map<Entity, T>, e: Entity, c: T)
    ensures
        m.insert(e, c)[e] == c,
        m.insert(e, c).remove(e) == m.remove(e),
        !m.insert(e, c).remove(e).contains_key(e),
{
    assert(m.insert(e, c).remove(e) =~= m.remove(e));
}

/// Storing a component for an entity that had none adds one to the count; storing
/// one for an entity that had one leaves the count as it was.
pub proof fn law_len_after_insert<T>(m: Map<Entity, T>, e: Entity, c: T)
    requires
        m.dom().finite(),
    ensures
        m.contains_key(e) ==> m.insert(e, c).len() == m.len(),
        !m.contains_key(e) ==> m.insert(e, c).len() == m.len() + 1,
{
    if m.contains_key(e) {
        assert(m.insert(e, c).dom() =~= m.dom());
    }
}

/// Every entry of `m`, with the value open to change: each key once, with the value
/// it holds; what is written through a reference is what `m` holds under its key
/// afterwards, and the keys stay the same.
///
/// Wraps `std::collections::HashMap::iter_mut`, collected into a `Vec`; the contract
/// is what std documents of it: an iterator over all key-value pairs, the values
/// mutable, in arbitrary order.
#[verifier::external_body]
fn entries_mut<'a, V>(m: &'a mut HashMap<u64, V>) -> (r: Vec<(&'a u64, &'a mut V)>)
    ensures
        r.len() == old(m)@.len(),
        forall|i: int|
            #![trigger r[i]]
            0 <= i < r.len() ==> old(m)@.contains_key(*r[i].0) && *r[i].1 == old(m)@[*r[i].0],
        forall|i: int, j: int| 0 <= i < j < r.len() ==> *#[trigger] r[i].0 != *#[trigger] r[j].0,
        forall|k: u64| #[trigger]
            old(m)@.contains_key(k) ==> exists|i: int| 0 <= i < r.len() && *#[trigger] r[i].0 == k,
        final(m)@.dom() == old(m)@.dom(),
        forall|i: int| #![trigger r[i]] 0 <= i < r.len() ==> final(m)@[*r[i].0] == *final(r[i].1),
{
    m.iter_mut().collect()
}

/// `items` lists each component of `m` with its entity, each entity once.
pub open spec fn enumerates<T>(items: Seq<(&Entity, &T)>, m: Map<Entity, T>) -> bool {
    &&& items.len() == m.len()
    &&& forall|i: int|
        0 <= i < items.len() ==> {
            &&& m.contains_key(*#[trigger] items[i].0)
            &&& *items[i].1 == m[*items[i].0]
        }
    &&& forall|e: Entity|
        #[trigger] m.contains_key(e) ==> exists|i: int| 0 <= i < items.len() && *#[trigger] items[i].0 == e
    &&& forall|i: int, j: int|
        0 <= i < j < items.len() ==> *#[trigger] items[i].0 != *#[trigger] items[j].0
}

/// The components of one kind, each attached to the entity that owns it; an entity
/// owns at most one component of the kind.
pub struct ComponentStorage<T> {
    components: HashMap<u64, (Entity, T)>,
}

impl<T> View for ComponentStorage<T> {
    type V = Map<Entity, T>;

    /// The component of each entity that has one.
    closed spec fn view(&self) -> Map<Entity, T> {
        by_entity(self.components@)
    }
}

/// The components filed by key, seen by the entity recorded with each.
spec fn by_entity<T>(m: Map<u64, (Entity, T)>) -> Map<Entity, T> {
    Map::new(|e: Entity| m.contains_key(e.key_spec()), |e: Entity| m[e.key_spec()].1)
}

/// Each component is filed under the key of the entity recorded with it.
spec fn filed_by_key<T>(m: Map<u64, (Entity, T)>) -> bool {
    forall|k: u64| #[trigger] m.contains_key(k) ==> m[k].0.key_spec() == k
}

/// Filing a component under the key of its entity files it for that entity.
proof fn lemma_file<T>(m: Map<u64, (Entity, T)>, e: Entity, x: T)
    requires
        filed_by_key(m),
    ensures
        filed_by_key(m.insert(e.key_spec(), (e, x))),
        by_entity(m.insert(e.key_spec(), (e, x))) == by_entity(m).insert(e, x),
{
    let m2 = m.insert(e.key_spec(), (e, x));
    assert forall|d: Entity| #[trigger] by_entity(m2).contains_key(d) == by_entity(m).insert(
        e,
        x,
    ).contains_key(d) by {
        Entity::lemma_key_injective(d, e);
    }
    assert forall|d: Entity| #[trigger] by_entity(m2).contains_key(d) implies by_entity(m2)[d]
        == by_entity(m).insert(e, x)[d] by {
        Entity::lemma_key_injective(d, e);
    }
    assert(by_entity(m2) =~= by_entity(m).insert(e, x));
}

/// Taking out what is filed under the key of an entity takes out its component.
proof fn lemma_unfile<T>(m: Map<u64, (Entity, T)>, e: Entity)
    requires
        filed_by_key(m),
    ensures
        filed_by_key(m.remove(e.key_spec())),
        by_entity(m.remove(e.key_spec())) == by_entity(m).remove(e),
{
    let m2 = m.remove(e.key_spec());
    assert forall|d: Entity| #[trigger] by_entity(m2).contains_key(d) == by_entity(m).remove(
        e,
    ).contains_key(d) by {
        Entity::lemma_key_injective(d, e);
    }
    assert(by_entity(m2) =~= by_entity(m).remove(e));
}

/// In a well filed map, the component under the key of `e` is recorded with `e`.
proof fn lemma_owner<T>(m: Map<u64, (Entity, T)>, e: Entity)
    requires
        filed_by_key(m),
        m.contains_key(e.key_spec()),
    ensures
        m[e.key_spec()].0 == e,
{
    Entity::lemma_key_injective(m[e.key_spec()].0, e);
}

impl<T> ComponentStorage<T> {
    /// Each component is filed under the key of the entity that owns it.
    pub closed spec fn wf(&self) -> bool {
        filed_by_key(self.components@)
    }

    /// A well formed storage holds finitely many components.
    pub proof fn lemma_finite(&self)
        requires
            self.wf(),
        ensures
            self@.dom().finite(),
    {
        self.lemma_len();
    }

    /// The stored entities are as many as the filed keys.
    proof fn lemma_len(&self)
        requires
            self.wf(),
        ensures
            self@.dom().finite(),
            self@.len() == self.components@.len(),
    {
        let keys = self.components@.dom();
        let owner = |k: u64| self.components@[k].0;
        assert(vstd::relations::injective_on(owner, keys)) by {
            assert forall|a: u64, b: u64|
                keys.contains(a) && keys.contains(b) && #[trigger] owner(a) == #[trigger] owner(
                    b,
                ) implies a == b by {
                assert(self.components@[a].0.key_spec() == a);
                assert(self.components@[b].0.key_spec() == b);
            }
        }
        assert(keys.map(owner) =~= self@.dom()) by {
            assert forall|e: Entity| #[trigger] self@.dom().contains(e) implies keys.map(
                owner,
            ).contains(e) by {
                let k = e.key_spec();
                Entity::lemma_key_injective(e, self.components@[k].0);
                assert(owner(k) == e);
            }
        }
        lemma_map_size(keys, self@.dom(), owner);
    }

    pub fn new() -> (s: Self)
        ensures
            s.wf(),
            s@ == Map::<Entity, T>::empty(),
    {
        let s = Self { components: HashMap::new() };
        assert(s@ =~= Map::<Entity, T>::empty());
        s
    }

    pub fn insert(&mut self, entity: Entity, component: T) -> (previous: Option<T>)
        requires
            old(self).wf(),
        ensures
            final(self).wf(),
            final(self)@ == old(self)@.insert(entity, component),
            previous == (if old(self)@.contains_key(entity) {
                Some(old(self)@[entity])
            } else {
                None
            }),
    {
        let key = entity.key();
        proof {
            lemma_file(self.components@, entity, component);
        }
        let result = self.components.insert(key, (entity, component));
        match result {
            Some(pair) => Some(pair.1),
            None => None,
        }
    }

    pub fn get(&self, entity: Entity) -> (component: Option<&T>)
        requires
            self.wf(),
        ensures
            match component {
                Some(c) => self@.contains_key(entity) && *c == self@[entity],
                None => !self@.contains_key(entity),
            },
    {
        let key = entity.key();
        match self.components.get(&key) {
            Some(pair) => Some(&pair.1),
            None => None,
        }
    }

    pub fn get_mut(&mut self, entity: Entity) -> (component: Option<&mut T>)
        requires
            old(self).wf(),
        ensures
            final(self).wf(),
            match component {
                Some(c) => {
                    &&& old(self)@.contains_key(entity)
                    &&& *c == old(self)@[entity]
                    &&& final(self)@ == old(self)@.insert(entity, *final(c))
                },
                None => {
                    &&& !old(self)@.contains_key(entity)
                    &&& final(self)@ == old(self)@
                },
            },
    {
        let key = entity.key();
        match self.components.entry(key) {
            Entry::Occupied(slot) => {
                proof {
                    lemma_owner(old(self).components@, entity);
                }
                let pair = slot.into_mut();
                let c = &mut pair.1;
                proof {
                    lemma_file(old(self).components@, entity, *final(c));
                }
                Some(c)
            },
            Entry::Vacant(_) => None,
        }
    }

    pub fn remove(&mut self, entity: Entity) -> (removed: Option<T>)
        requires
            old(self).wf(),
        ensures
            final(self).wf(),
            final(self)@ == old(self)@.remove(entity),
            removed == (if old(self)@.contains_key(entity) {
                Some(old(self)@[entity])
            } else {
                None
            }),
    {
        let key = entity.key();
        proof {
            lemma_unfile(self.components@, entity);
        }
        let result = self.components.remove(&key);
        match result {
            Some(pair) => Some(pair.1),
            None => None,
        }
    }

    pub fn contains(&self, entity: Entity) -> (present: bool)
        requires
            self.wf(),
        ensures
            present == self@.contains_key(entity),
    {
        let key = entity.key();
        self.components.contains_key(&key)
    }

    pub fn len(&self) -> (n: usize)
        requires
            self.wf(),
        ensures
            n == self@.len(),
    {
        proof {
            self.lemma_len();
        }
        self.components.len()
    }

    pub fn is_empty(&self) -> (empty: bool)
        requires
            self.wf(),
        ensures
            empty == (self@.len() == 0),
    {
        proof {
            self.lemma_len();
        }
        self.components.is_empty()
    }

    /// Every stored component with its entity, each once, in an order that the
    /// storage does not fix.
    pub fn iter(&self) -> (items: Vec<(&Entity, &T)>)
        requires
            self.wf(),
        ensures
            enumerates(items@, self@),
    {
        let ghost walk = spec_hash_map_iter(&self.components).remaining();
        let mut items: Vec<(&Entity, &T)> = Vec::new();
        for entry in it: self.components.iter()
            invariant
                self.wf(),
                it.seq() == walk,
                items.len() == it.index(),
                forall|i: int|
                    0 <= i < it.index() ==> *#[trigger] items[i].0 == (*walk[i].1).0
                        && *items[i].1 == (*walk[i].1).1,
        {
            let (_key, pair) = entry;
            items.push((&pair.0, &pair.1));
        }
        proof {
            self.lemma_len();
            let m = self.components@;
            assert(items.len() == walk.len());
            assert(items.len() == self@.len());
            assert forall|i: int| 0 <= i < items.len() implies {
                &&& self@.contains_key(*#[trigger] items[i].0)
                &&& *items[i].1 == self@[*items[i].0]
            } by {
                let k = *walk[i].0;
                assert(m.contains_key(k) && m[k] == *walk[i].1);
                assert(m[k].0.key_spec() == k);
            }
            assert forall|e: Entity| #[trigger] self@.contains_key(e) implies exists|i: int|
                0 <= i < items.len() && *#[trigger] items[i].0 == e by {
                let k = e.key_spec();
                lemma_owner(m, e);
                assert(walk.contains((&k, &m[k])));
                let i = choose|i: int| 0 <= i < walk.len() && walk[i] == (&k, &m[k]);
                assert(*items[i].0 == e);
            }
            assert forall|i: int, j: int| 0 <= i < j < items.len() implies *#[trigger] items[i].0
                != *#[trigger] items[j].0 by {
                let ki = *walk[i].0;
                let kj = *walk[j].0;
                assert(m.contains_key(ki) && m[ki] == *walk[i].1);
                assert(m.contains_key(kj) && m[kj] == *walk[j].1);
                assert(m[ki].0.key_spec() == ki);
                assert(m[kj].0.key_spec() == kj);
                if *items[i].0 == *items[j].0 {
                    assert(walk[i] == walk[j]);
                    assert(walk.no_duplicates());
                }
            }
        }
        items
    }

    /// Every stored component, open to change, with its entity, each once, in an
    /// order that the storage does not fix. What is written through the references
    /// is what the storage holds afterwards; the entities stay the same.
    pub fn iter_mut(&mut self) -> (items: Vec<(&Entity, &mut T)>)
        requires
            old(self).wf(),
        ensures
            final(self).wf(),
            items.len() == old(self)@.len(),
            forall|i: int|
                #![trigger items[i]]
                0 <= i < items.len() ==> {
                    &&& old(self)@.contains_key(*items[i].0)
                    &&& *items[i].1 == old(self)@[*items[i].0]
                },
            forall|e: Entity|
                #[trigger] old(self)@.contains_key(e) ==> exists|i: int|
                    0 <= i < items.len() && *#[trigger] items[i].0 == e,
            forall|i: int, j: int|
                0 <= i < j < items.len() ==> *#[trigger] items[i].0 != *#[trigger] items[j].0,
            final(self)@.dom() == old(self)@.dom(),
            forall|i: int|
                #![trigger items[i]]
                0 <= i < items.len() ==> final(self)@[*items[i].0] == *final(items[i].1),
    {
        proof {
            self.lemma_len();
        }
        let ghost start = self.components@;
        let mut entries = entries_mut(&mut self.components);
        let ghost all = entries@;
        let mut items: Vec<(&Entity, &mut T)> = Vec::new();
        while entries.len() > 0
            invariant
                entries@ == all.take(entries.len() as int),
                items.len() + entries.len() == all.len(),
                forall|j: int|
                    #![trigger items[j]]
                    0 <= j < items.len() ==> {
                        let src = all[all.len() - 1 - j];
                        &&& *items[j].0 == (*src.1).0
                        &&& *items[j].1 == (*src.1).1
                        &&& *final(src.1) == ((*src.1).0, *final(items[j].1))
                    },
            decreases entries.len(),
        {
            let (_key, pair) = entries.pop().unwrap();
            let (entity, component) = pair;
            items.push((&*entity, component));
        }
        proof {
            let n = all.len();
            assert(old(self)@ == by_entity(start));
            assert forall|i: int| #![trigger items[i]] 0 <= i < items.len() implies {
                &&& by_entity(start).contains_key(*items[i].0)
                &&& *items[i].1 == by_entity(start)[*items[i].0]
                &&& (*items[i].0).key_spec() == *all[n - 1 - i].0
            } by {
                let src = all[n - 1 - i];
                assert(start.contains_key(*src.0) && *src.1 == start[*src.0]);
                assert(start[*src.0].0.key_spec() == *src.0);
            }
            assert forall|i: int| #![trigger all[i]] 0 <= i < n implies (*final(all[i].1)).0 == (
            *all[i].1).0 by {
                let j = n - 1 - i;
                assert(all[n - 1 - j] == all[i]);
                assert(*final(all[n - 1 - j].1) == ((*all[n - 1 - j].1).0, *final(items[j].1)));
            }
            assert forall|e: Entity| #[trigger] by_entity(start).contains_key(e) implies exists|
                i: int,
            | 0 <= i < items.len() && *#[trigger] items[i].0 == e by {
                let k = e.key_spec();
                lemma_owner(start, e);
                let i = choose|i: int| 0 <= i < n && *#[trigger] all[i].0 == k;
                let j = n - 1 - i;
                assert(all[n - 1 - j] == all[i]);
                assert(*items[j].0 == e);
            }
            assert forall|i: int, j: int| 0 <= i < j < items.len() implies *#[trigger] items[i].0
                != *#[trigger] items[j].0 by {
                if *items[i].0 == *items[j].0 {
                    assert(*all[n - 1 - i].0 == *all[n - 1 - j].0);
                    assert(n - 1 - j < n - 1 - i);
                }
            }
        }
        items
    }
}

} // verus!
