use vstd::prelude::*;

verus! {

/// A handle to an object of the world: the slot it occupies (`index`) and the
/// generation of that slot at the time the handle was made. When a slot is reused,
/// its generation grows, so that handles to the object that held it before no
/// longer match.
#[derive(Debug, Clone, Copy, PartialEq, Eq, Hash, Structural)]
pub struct Entity {
    index: u32,
    generation: u32,
}

/// Number of distinct generations of one slot; the key of a handle places its
/// slot above its generation.
pub const KEY_SLOT_FACTOR: u64 = 0x1_0000_0000u64;

impl Entity {
    /// The slot of this handle.
    pub closed spec fn index_spec(self) -> u32 {
        self.index
    }

    /// The generation of the slot that this handle names.
    pub closed spec fn generation_spec(self) -> u32 {
        self.generation
    }

    /// The handle made of a slot and a generation.
    pub closed spec fn from_parts(index: u32, generation: u32) -> Entity {
        Entity { index, generation }
    }

    /// The integer that identifies this handle among all handles.
    pub open spec fn key_spec(self) -> u64 {
        (self.index_spec() as int * KEY_SLOT_FACTOR as int + self.generation_spec() as int) as u64
    }

    /// A handle is determined by its slot and its generation.
    pub proof fn lemma_parts_determine(a: Entity, b: Entity)
        ensures
            (a.index_spec() == b.index_spec() && a.generation_spec() == b.generation_spec())
                <==> a == b,
    {
    }

    /// What `from_parts` builds has the given slot and generation.
    pub broadcast proof fn lemma_from_parts(index: u32, generation: u32)
        ensures
            (#[trigger] Entity::from_parts(index, generation)).index_spec() == index,
            Entity::from_parts(index, generation).generation_spec() == generation,
    {
    }

    /// Two handles have the same key exactly when they are the same handle.
    pub proof fn lemma_key_injective(a: Entity, b: Entity)
        ensures
            (a.key_spec() == b.key_spec()) <==> a == b,
    {
        let ai = a.index_spec() as int;
        let bi = b.index_spec() as int;
        let ag = a.generation_spec() as int;
        let bg = b.generation_spec() as int;
        assert(0 <= ai * 0x1_0000_0000 + ag < 0x1_0000_0000 * 0x1_0000_0000) by (nonlinear_arith)
            requires
                0 <= ai < 0x1_0000_0000,
                0 <= ag < 0x1_0000_0000,
        ;
        assert(0 <= bi * 0x1_0000_0000 + bg < 0x1_0000_0000 * 0x1_0000_0000) by (nonlinear_arith)
            requires
                0 <= bi < 0x1_0000_0000,
                0 <= bg < 0x1_0000_0000,
        ;
        if ai * 0x1_0000_0000 + ag == bi * 0x1_0000_0000 + bg {
            assert(ai == bi && ag == bg) by (nonlinear_arith)
                requires
                    ai * 0x1_0000_0000 + ag == bi * 0x1_0000_0000 + bg,
                    0 <= ag < 0x1_0000_0000,
                    0 <= bg < 0x1_0000_0000,
            ;
        }
        Self::lemma_parts_determine(a, b);
    }

    pub fn new(index: u32, generation: u32) -> (e: Self)
        ensures
            e.index_spec() == index,
            e.generation_spec() == generation,
            e == Entity::from_parts(index, generation),
    {
        Self { index, generation }
    }

    pub fn get_index(&self) -> (i: u32)
        ensures
            i == self.index_spec(),
    {
        self.index
    }

    pub fn get_generation(&self) -> (g: u32)
        ensures
            g == self.generation_spec(),
    {
        self.generation
    }

    /// The key of this handle: its slot times `KEY_SLOT_FACTOR` plus its generation.
    pub fn key(&self) -> (k: u64)
        ensures
            k == self.key_spec(),
    {
        proof {
            let i = self.index as int;
            let g = self.generation as int;
            assert(0 <= i * 0x1_0000_0000 + g < 0x1_0000_0000 * 0x1_0000_0000) by (nonlinear_arith)
                requires
                    0 <= i < 0x1_0000_0000,
                    0 <= g < 0x1_0000_0000,
            ;
        }
        self.index as u64 * KEY_SLOT_FACTOR + self.generation as u64
    }
}

/// The facts about handles that contracts over them need: what `from_parts` builds.
pub broadcast group group_entity {
    Entity::lemma_from_parts,
}

} // verus!
