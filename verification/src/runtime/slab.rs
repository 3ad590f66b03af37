//! Operations by generation-checked key.
//!
//! A key holds the index of a slot and the slot's generation. The generation moves on when a
//! slot is freed and again when it is reused, so a completion that carries an old key is not
//! taken for one of the slot's new occupant. No key is zero, which leaves zero for operations
//! that are not tracked.

use vstd::prelude::*;

verus! {

/// The key of an operation, as the kernel carries it.
#[derive(Clone, Copy, Debug, PartialEq, Eq, Hash, Structural)]
pub struct OpKey(u64);

/// The generation after `g`: never zero.
pub open spec fn next_generation(g: u32) -> u32 {
    if g == u32::MAX {
        1
    } else {
        (g + 1) as u32
    }
}

impl OpKey {
    /// The key as a number.
    pub closed spec fn raw(self) -> u64 {
        self.0
    }

    /// The key that a number stands for.
    pub closed spec fn of_raw(raw: u64) -> OpKey {
        OpKey(raw)
    }

    /// The index of the slot.
    pub open spec fn slot(self) -> int {
        self.raw() as int / 0x1_0000_0000
    }

    /// The generation of the slot.
    pub open spec fn generation_of(self) -> int {
        self.raw() as int % 0x1_0000_0000
    }

    fn new(index: u32, generation: u32) -> (r: OpKey)
        ensures
            r.slot() == index,
            r.generation_of() == generation,
            r.raw() == index * 0x1_0000_0000 + generation,
    {
        let raw: u64 = (index as u64) << 32 | generation as u64;
        proof {
            let i = index as u64;
            let g = generation as u64;
            assert((i << 32 | g) == i * 0x1_0000_0000 + g) by (bit_vector)
                requires
                    i <= 0xffff_ffff,
                    g <= 0xffff_ffff,
            ;
        }
        OpKey(raw)
    }

    /// The key as a number.
    pub fn as_u64(self) -> (r: u64)
        ensures
            r == self.raw(),
    {
        self.0
    }

    /// The key that a number stands for.
    pub fn from_u64(raw: u64) -> (r: OpKey)
        ensures
            r.raw() == raw,
            r == OpKey::of_raw(raw),
    {
        OpKey(raw)
    }

    fn index(self) -> (r: u32)
        ensures
            r == self.slot(),
    {
        (self.0 / 0x1_0000_0000) as u32
    }

    fn generation(self) -> (r: u32)
        ensures
            r == self.generation_of(),
    {
        (self.0 % 0x1_0000_0000) as u32
    }
}

/// Two keys with the same slot and generation are the same.
pub proof fn lemma_key_parts(a: OpKey, b: OpKey)
    requires
        a.slot() == b.slot(),
        a.generation_of() == b.generation_of(),
    ensures
        a == b,
{
}

struct Slot<T> {
    generation: u32,
    value: Option<T>,
}

/// Live operations by key.
pub struct OpSlab<T> {
    slots: Vec<Slot<T>>,
    free: Vec<u32>,
}

impl<T> OpSlab<T> {
    /// How many slots there are.
    pub closed spec fn slot_count(&self) -> nat {
        self.slots@.len()
    }

    /// The generation of a slot.
    pub closed spec fn generation_at(&self, index: int) -> u32 {
        self.slots@[index].generation
    }

    /// Whether the key is that of an occupied slot in its present generation.
    closed spec fn live(&self, key: OpKey) -> bool {
        &&& key.slot() < self.slots@.len()
        &&& self.slots@[key.slot()].generation == key.generation_of()
        &&& self.slots@[key.slot()].value.is_some()
    }

    /// The operations by key.
    pub closed spec fn view(&self) -> Map<OpKey, T> {
        Map::new(|k: OpKey| self.live(k), |k: OpKey| self.slots@[k.slot()].value->0)
    }

    /// The free slots; the one that was freed last stands last.
    pub closed spec fn free_list(&self) -> Seq<u32> {
        self.free@
    }

    /// The free slots hold nothing.
    pub closed spec fn cleared(&self) -> bool {
        forall|i: int|
            0 <= i < self.free@.len() ==> (#[trigger] self.free@[i]) < self.slots@.len()
                && self.slots@[self.free@[i] as int].value.is_none()
    }

    /// Each slot is occupied or on the free list once; a live key has the generation of its
    /// slot, and no generation is zero.
    pub open spec fn wf(&self) -> bool {
        &&& self.cleared()
        &&& self.slot_count() <= 0x1_0000_0000
        &&& self@.dom().finite()
        &&& self@.dom().len() + self.free_list().len() == self.slot_count()
        &&& self.free_list().no_duplicates()
        &&& forall|i: int|
            0 <= i < self.free_list().len() ==> (#[trigger] self.free_list()[i])
                < self.slot_count()
        &&& forall|i: int| 0 <= i < self.slot_count() ==> (#[trigger] self.generation_at(i)) > 0
        &&& forall|k: OpKey| #[trigger]
            self@.contains_key(k) ==> 0 <= k.slot() < self.slot_count() && self.generation_at(
                k.slot(),
            ) == k.generation_of() && !self.free_list().contains(k.slot() as u32)
    }

    /// Whether one more operation can be told apart from those that are live.
    pub open spec fn room(&self) -> bool {
        self@.dom().len() < 0x1_0000_0000
    }

    /// Whether one more operation can be told apart from those that are live.
    pub fn has_room(&self) -> (r: bool)
        requires
            self.wf(),
        ensures
            r == self.room(),
    {
        self.free.len() > 0 || (self.slots.len() as u64) < 0x1_0000_0000
    }

    /// Whether no operation was ever stored.
    pub open spec fn fresh(&self) -> bool {
        &&& self@ == Map::<OpKey, T>::empty()
        &&& self.slot_count() == 0
        &&& self.free_list() == Seq::<u32>::empty()
    }

    /// No operations.
    pub fn new() -> (r: OpSlab<T>)
        ensures
            r.wf(),
            r.fresh(),
            r.room(),
    {
        let r = OpSlab { slots: Vec::new(), free: Vec::new() };
        proof {
            assert(r@ =~= Map::<OpKey, T>::empty());
            assert(r.free_list() =~= Seq::<u32>::empty());
        }
        r
    }

    /// No operations, with memory for `cap` of them.
    pub fn with_capacity(cap: usize) -> (r: OpSlab<T>)
        ensures
            r.wf(),
            r.fresh(),
            r.room(),
    {
        let r = OpSlab { slots: Vec::with_capacity(cap), free: Vec::with_capacity(cap) };
        proof {
            assert(r@ =~= Map::<OpKey, T>::empty());
            assert(r.free_list() =~= Seq::<u32>::empty());
        }
        r
    }

    /// How many operations are live.
    pub fn len(&self) -> (n: usize)
        requires
            self.wf(),
        ensures
            n == self@.dom().len(),
    {
        self.slots.len() - self.free.len()
    }

    /// Whether no operation is live.
    pub fn is_empty(&self) -> (r: bool)
        requires
            self.wf(),
        ensures
            r == (self@.dom().len() == 0),
            r == forall|k: OpKey| !self@.contains_key(k),
    {
        proof {
            if self@.dom().len() == 0 {
                assert(self@.dom() =~= Set::empty());
            } else {
                let k = self@.dom().choose();
                assert(self@.contains_key(k));
            }
        }
        self.len() == 0
    }

    /// `value` was stored under `key`: in the slot that was freed last, in the generation after
    /// its last; and in a new slot in generation one only where no slot was free.
    pub open spec fn stored(before: Self, after: Self, key: OpKey, value: T) -> bool {
        &&& !before@.contains_key(key)
        &&& after@ == before@.insert(key, value)
        &&& key.raw() != 0
        &&& if before.free_list().len() > 0 {
            &&& key.slot() == before.free_list().last()
            &&& key.generation_of() == next_generation(before.generation_at(key.slot()))
            &&& after.free_list() == before.free_list().drop_last()
            &&& after.slot_count() == before.slot_count()
        } else {
            &&& key.slot() == before.slot_count()
            &&& key.generation_of() == 1
            &&& after.free_list() == before.free_list()
            &&& after.slot_count() == before.slot_count() + 1
        }
        &&& after.generation_at(key.slot()) == key.generation_of()
        &&& forall|i: int|
            0 <= i < before.slot_count() && i != key.slot() ==> (#[trigger] after.generation_at(i))
                == before.generation_at(i)
    }

    /// Stores `value`, in a free slot where there is one.
    pub fn insert(&mut self, value: T) -> (key: OpKey)
        requires
            old(self).wf(),
            old(self).room(),
        ensures
            final(self).wf(),
            Self::stored(*old(self), *final(self), key, value),
            final(self)@.dom().len() == old(self)@.dom().len() + 1,
    {
        let ghost before = *self;
        if let Some(index) = self.free.pop() {
            proof {
                assert(before.free@[before.free@.len() - 1] == index);
                assert(self.free@ =~= before.free@.drop_last());
            }
            let i: usize = index as usize;
            let generation: u32 = if self.slots[i].generation == u32::MAX {
                1
            } else {
                self.slots[i].generation + 1
            };
            self.slots[i] = Slot { generation, value: Some(value) };
            let key = OpKey::new(index, generation);
            proof {
                before.lemma_store(*self, key, value);
            }
            key
        } else {
            let n: usize = self.slots.len();
            self.slots.push(Slot { generation: 1, value: Some(value) });
            let key = OpKey::new(n as u32, 1);
            proof {
                before.lemma_store(*self, key, value);
            }
            key
        }
    }

    proof fn lemma_store(self, after: Self, key: OpKey, value: T)
        requires
            self.wf(),
            0 <= key.slot() < after.slots@.len(),
            key.slot() < self.slots@.len() ==> self.slots@[key.slot()].value.is_none()
                && after.slots@ == self.slots@.update(key.slot(), after.slots@[key.slot()])
                && key.generation_of() == next_generation(self.slots@[key.slot()].generation)
                && self.free@.len() > 0 && after.free@ == self.free@.drop_last()
                && self.free@.last() == key.slot(),
            key.slot() >= self.slots@.len() ==> key.slot() == self.slots@.len() && after.slots@
                == self.slots@.push(after.slots@[key.slot()]) && key.generation_of() == 1
                && self.free@.len() == 0 && after.free@ == self.free@ && self.slots@.len()
                < 0x1_0000_0000,
            after.slots@[key.slot()].generation == key.generation_of(),
            after.slots@[key.slot()].value == Some(value),
        ensures
            after.wf(),
            Self::stored(self, after, key, value),
    {
        assert(!self@.contains_key(key));
        assert forall|k: OpKey| after.live(k) <==> self.live(k) || k == key by {
            if k.slot() == key.slot() {
                if after.live(k) {
                    lemma_key_parts(k, key);
                }
            } else if 0 <= k.slot() < self.slots@.len() {
                assert(after.slots@[k.slot()] == self.slots@[k.slot()]);
            }
        }
        assert(after@ =~= self@.insert(key, value)) by {
            assert forall|k: OpKey| after.live(k) implies after@[k] == self@.insert(key, value)[k] by {
                if k != key {
                    assert(self.live(k));
                    if k.slot() == key.slot() {
                        lemma_key_parts(k, key);
                    }
                }
            }
        }
        assert(after@.dom() =~= self@.dom().insert(key));
        assert forall|i: int| 0 <= i < after.free@.len() implies (#[trigger] after.free@[i])
            < after.slots@.len() && after.slots@[after.free@[i] as int].value.is_none() by {
            assert(after.free@[i] == self.free@[i]);
            if key.slot() < self.slots@.len() {
                assert(self.free@[i] != self.free@[self.free@.len() - 1]);
            }
        }
        assert forall|i: int, j: int| 0 <= i < j < after.free@.len() implies (
        #[trigger] after.free@[i]) != (#[trigger] after.free@[j]) by {
            assert(self.free@[i] != self.free@[j]);
        }
        assert forall|i: int| 0 <= i < after.slot_count() implies (
        #[trigger] after.generation_at(i)) > 0 by {
            if i != key.slot() {
                assert(after.slots@[i] == self.slots@[i]);
                assert(self.generation_at(i) > 0);
            } else if i < self.slot_count() {
                assert(self.generation_at(i) > 0);
            }
        }
        assert forall|i: int| 0 <= i < self.slot_count() && i != key.slot() implies (
        #[trigger] after.generation_at(i)) == self.generation_at(i) by {
            assert(after.slots@[i] == self.slots@[i]);
        }
    }

    /// The operation under `key` became `value`, and nothing else changed.
    pub open spec fn changed(before: Self, after: Self, key: OpKey, value: T) -> bool {
        after@ == before@.insert(key, value) && same_slots(before, after)
    }

    /// The operation under `key`, where the key is not stale.
    pub fn get_mut(&mut self, key: OpKey) -> (r: Option<&mut T>)
        requires
            old(self).wf(),
        ensures
            final(self).wf(),
            r.is_some() <==> old(self)@.contains_key(key),
            r matches Some(v) ==> *v == old(self)@[key] && Self::changed(
                *old(self),
                *final(self),
                key,
                *final(v),
            ),
            r is None ==> *final(self) == *old(self),
            final(self)@.dom() == old(self)@.dom(),
    {
        let ghost before = *self;
        let i: usize = key.index() as usize;
        if i >= self.slots.len() {
            return None;
        }
        if self.slots[i].generation != key.generation() {
            return None;
        }
        if self.slots[i].value.is_none() {
            return None;
        }
        let r = self.slots[i].value.as_mut();
        proof {
            let after = *after_borrow(self);
            before.lemma_change(after, key, *final(r->0));
        }
        r
    }

    proof fn lemma_change(self, after: Self, key: OpKey, value: T)
        requires
            self.wf(),
            self.live(key),
            after.free == self.free,
            after.slots@ == self.slots@.update(key.slot(), after.slots@[key.slot()]),
            after.slots@[key.slot()].value == Some(value),
            after.slots@[key.slot()].generation == self.slots@[key.slot()].generation,
        ensures
            after.wf(),
            Self::changed(self, after, key, value),
            after@.dom() == self@.dom(),
    {
        assert forall|k: OpKey| after.live(k) <==> self.live(k) by {
            if 0 <= k.slot() < self.slots@.len() && k.slot() != key.slot() {
                assert(after.slots@[k.slot()] == self.slots@[k.slot()]);
            }
        }
        assert(after@ =~= self@.insert(key, value)) by {
            assert forall|k: OpKey| after.live(k) implies after@[k] == self@.insert(key, value)[k] by {
                if k.slot() == key.slot() {
                    lemma_key_parts(k, key);
                }
            }
        }
        assert(after@.dom() =~= self@.dom());
        assert forall|i: int| 0 <= i < after.slot_count() implies (
        #[trigger] after.generation_at(i)) > 0 by {
            if i != key.slot() {
                assert(after.slots@[i] == self.slots@[i]);
                assert(self.generation_at(i) > 0);
            } else if i < self.slot_count() {
                assert(self.generation_at(i) > 0);
            }
        }
        assert forall|i: int| 0 <= i < after.free@.len() implies (#[trigger] after.free@[i])
            < after.slots@.len() && after.slots@[after.free@[i] as int].value.is_none() by {
            assert(after.free@[i] == self.free@[i]);
        }
    }

    /// The operation under `key` was taken out, and the slot moved on to its next generation.
    pub open spec fn taken(before: Self, after: Self, key: OpKey) -> bool {
        &&& after@ == before@.remove(key)
        &&& after.slot_count() == before.slot_count()
        &&& after.free_list() == before.free_list().push(key.slot() as u32)
        &&& 0 <= key.slot() < before.slot_count()
        &&& before.generation_at(key.slot()) == key.generation_of()
        &&& after.generation_at(key.slot()) == next_generation(before.generation_at(key.slot()))
        &&& forall|i: int|
            0 <= i < before.slot_count() && i != key.slot() ==> (#[trigger] after.generation_at(i))
                == before.generation_at(i)
    }

    /// Takes out the operation under `key`, where the key is not stale.
    pub fn remove(&mut self, key: OpKey) -> (r: Option<T>)
        requires
            old(self).wf(),
        ensures
            final(self).wf(),
            r.is_some() <==> old(self)@.contains_key(key),
            r matches Some(v) ==> v == old(self)@[key] && Self::taken(
                *old(self),
                *final(self),
                key,
            ),
            r is Some ==> final(self)@.dom().len() == old(self)@.dom().len() - 1,
            r is None ==> *final(self) == *old(self),
    {
        let ghost before = *self;
        let i: usize = key.index() as usize;
        if i >= self.slots.len() {
            return None;
        }
        if self.slots[i].generation != key.generation() {
            return None;
        }
        if self.slots[i].value.is_none() {
            return None;
        }
        let generation: u32 = if self.slots[i].generation == u32::MAX {
            1
        } else {
            self.slots[i].generation + 1
        };
        let mut slot = Slot { generation, value: None };
        std::mem::swap(&mut self.slots[i], &mut slot);
        self.free.push(key.index());
        proof {
            before.lemma_take(*self, key);
        }
        slot.value
    }

    proof fn lemma_take(self, after: Self, key: OpKey)
        requires
            self.wf(),
            self.live(key),
            after.slots@ == self.slots@.update(key.slot(), after.slots@[key.slot()]),
            after.slots@[key.slot()].value.is_none(),
            after.slots@[key.slot()].generation == next_generation(
                self.slots@[key.slot()].generation,
            ),
            after.free@ == self.free@.push(key.slot() as u32),
        ensures
            after.wf(),
            Self::taken(self, after, key),
    {
        assert forall|k: OpKey| after.live(k) <==> self.live(k) && k != key by {
            if k.slot() == key.slot() {
                if self.live(k) {
                    lemma_key_parts(k, key);
                }
            } else if 0 <= k.slot() < self.slots@.len() {
                assert(after.slots@[k.slot()] == self.slots@[k.slot()]);
            }
        }
        assert(after@ =~= self@.remove(key));
        assert(after@.dom() =~= self@.dom().remove(key));
        assert forall|i: int| 0 <= i < after.free@.len() implies (#[trigger] after.free@[i])
            < after.slots@.len() && after.slots@[after.free@[i] as int].value.is_none() by {
            if i < self.free@.len() {
                assert(after.free@[i] == self.free@[i]);
            }
        }
        assert forall|i: int, j: int| 0 <= i < j < after.free@.len() implies (
        #[trigger] after.free@[i]) != (#[trigger] after.free@[j]) by {
            assert(after.free@[i] == self.free@[i]);
            if j < self.free@.len() {
                assert(after.free@[j] == self.free@[j]);
            }
        }
        assert forall|i: int| 0 <= i < after.slot_count() implies (
        #[trigger] after.generation_at(i)) > 0 by {
            if i != key.slot() {
                assert(after.slots@[i] == self.slots@[i]);
                assert(self.generation_at(i) > 0);
            } else if i < self.slot_count() {
                assert(self.generation_at(i) > 0);
            }
        }
        assert forall|i: int| 0 <= i < self.slot_count() && i != key.slot() implies (
        #[trigger] after.generation_at(i)) == self.generation_at(i) by {
            assert(after.slots@[i] == self.slots@[i]);
        }
    }

    /// Whether `key` is that of a live operation.
    pub fn contains(&self, key: OpKey) -> (r: bool)
        requires
            self.wf(),
        ensures
            r == self@.contains_key(key),
    {
        let i: usize = key.index() as usize;
        i < self.slots.len() && self.slots[i].generation == key.generation()
            && self.slots[i].value.is_some()
    }

    /// The keys of all live operations.
    pub fn live_keys(&self) -> (v: Vec<OpKey>)
        requires
            self.wf(),
        ensures
            forall|k: OpKey| #[trigger] v@.contains(k) <==> self@.contains_key(k),
            v@.no_duplicates(),
    {
        let mut v: Vec<OpKey> = Vec::new();
        let mut i: usize = 0;
        while i < self.slots.len()
            invariant
                i <= self.slots.len(),
                self.wf(),
                forall|k: OpKey| #[trigger]
                    v@.contains(k) <==> self@.contains_key(k) && k.slot() < i,
                v@.no_duplicates(),
            decreases self.slots.len() - i,
        {
            if self.slots[i].value.is_some() {
                let key = OpKey::new(i as u32, self.slots[i].generation);
                let ghost before = v@;
                proof {
                    assert(self.live(key));
                    assert(!before.contains(key));
                }
                v.push(key);
                proof {
                    assert(v@[before.len() as int] == key);
                    assert forall|k: OpKey| #[trigger]
                        v@.contains(k) <==> self@.contains_key(k) && k.slot() < i + 1 by {
                        if v@.contains(k) {
                            let j = choose|j: int| 0 <= j < v@.len() && v@[j] == k;
                            if j < before.len() {
                                assert(before[j] == k);
                                assert(before.contains(k));
                            }
                        }
                        if self@.contains_key(k) && k.slot() < i + 1 {
                            if k.slot() == i {
                                lemma_key_parts(k, key);
                            } else {
                                assert(before.contains(k));
                                let j = choose|j: int| 0 <= j < before.len() && before[j] == k;
                                assert(v@[j] == k);
                            }
                        }
                    }
                }
            } else {
                proof {
                    assert forall|k: OpKey| #[trigger]
                        v@.contains(k) <==> self@.contains_key(k) && k.slot() < i + 1 by {
                        if self@.contains_key(k) && k.slot() == i {
                            assert(self.live(k));
                        }
                    }
                }
            }
            i = i + 1;
        }
        v
    }
}

impl<T> Default for OpSlab<T> {
    fn default() -> (r: Self)
        ensures
            r.wf(),
            r.fresh(),
            r.room(),
    {
        OpSlab::new()
    }
}

/// Whether two slabs agree in their slots: how many there are, which are free, and their
/// generations.
pub open spec fn same_slots<T>(a: OpSlab<T>, b: OpSlab<T>) -> bool {
    &&& a.slot_count() == b.slot_count()
    &&& a.free_list() == b.free_list()
    &&& forall|i: int|
        0 <= i < a.slot_count() ==> (#[trigger] b.generation_at(i)) == a.generation_at(i)
}

// --------------------------------------------------------------------- histories

/// One call on a slab, with what it was given and the key that it gave.
pub ghost enum SlabStep<T> {
    /// `insert` of `value` gave `key`.
    Insert { key: OpKey, value: T },
    /// `remove` of `key`.
    Remove { key: OpKey },
    /// `get_mut` of `key`, through which the operation became `value` where there was one.
    Change { key: OpKey, value: T },
}

/// What one call makes of a slab.
pub open spec fn follows<T>(before: OpSlab<T>, after: OpSlab<T>, step: SlabStep<T>) -> bool {
    match step {
        SlabStep::Insert { key, value } => OpSlab::stored(before, after, key, value),
        SlabStep::Remove { key } => if before@.contains_key(key) {
            OpSlab::taken(before, after, key)
        } else {
            after == before
        },
        SlabStep::Change { key, value } => if before@.contains_key(key) {
            OpSlab::changed(before, after, key, value)
        } else {
            after == before
        },
    }
}

/// Whether a slab went through these states, from the first on, by these calls.
pub open spec fn history<T>(slabs: Seq<OpSlab<T>>, steps: Seq<SlabStep<T>>) -> bool {
    &&& slabs.len() == steps.len() + 1
    &&& forall|i: int| 0 <= i < slabs.len() ==> (#[trigger] slabs[i]).wf()
    &&& forall|i: int|
        0 <= i < steps.len() ==> follows(#[trigger] slabs[i], slabs[i + 1], steps[i])
}

/// How many of the calls stored something.
pub open spec fn inserts<T>(steps: Seq<SlabStep<T>>) -> nat
    decreases steps.len(),
{
    if steps.len() == 0 {
        0
    } else {
        inserts(steps.drop_last()) + if steps.last() is Insert {
            1nat
        } else {
            0
        }
    }
}

/// How many of the calls took something out.
pub open spec fn removals<T>(slabs: Seq<OpSlab<T>>, steps: Seq<SlabStep<T>>) -> nat
    decreases steps.len(),
{
    if steps.len() == 0 {
        0
    } else {
        removals(slabs, steps.drop_last()) + if steps.last() matches SlabStep::Remove { key }
            && slabs[steps.len() - 1]@.contains_key(key) {
            1nat
        } else {
            0
        }
    }
}

/// The greatest number of operations that were live at once.
pub open spec fn peak<T>(slabs: Seq<OpSlab<T>>) -> nat
    decreases slabs.len(),
{
    if slabs.len() == 0 {
        0
    } else {
        let rest = peak(slabs.drop_last());
        let now = slabs.last()@.dom().len();
        if now > rest {
            now
        } else {
            rest
        }
    }
}

proof fn lemma_earlier_history<T>(slabs: Seq<OpSlab<T>>, steps: Seq<SlabStep<T>>)
    requires
        history(slabs, steps),
        steps.len() > 0,
    ensures
        history(slabs.drop_last(), steps.drop_last()),
        follows(slabs[steps.len() - 1], slabs.last(), steps.last()),
        slabs.drop_last().last() == slabs[steps.len() - 1],
        slabs.drop_last().last().wf(),
        slabs.last().wf(),
{
    let ss = slabs.drop_last();
    let ts = steps.drop_last();
    assert forall|i: int| 0 <= i < ss.len() implies (#[trigger] ss[i]).wf() by {
        assert(slabs[i].wf());
    }
    assert forall|i: int| 0 <= i < ts.len() implies follows(#[trigger] ss[i], ss[i + 1], ts[i]) by {
        assert(follows(slabs[i], slabs[i + 1], steps[i]));
    }
    assert(follows(slabs[steps.len() - 1], slabs[steps.len() - 1 + 1], steps[steps.len() - 1]));
    assert(slabs[steps.len() - 1].wf());
    assert(slabs[slabs.len() - 1].wf());
}

proof fn lemma_removals_prefix<T>(a: Seq<OpSlab<T>>, b: Seq<OpSlab<T>>, steps: Seq<SlabStep<T>>)
    requires
        steps.len() <= a.len(),
        steps.len() <= b.len(),
        forall|i: int| 0 <= i < steps.len() ==> a[i] == b[i],
    ensures
        removals(a, steps) == removals(b, steps),
    decreases steps.len(),
{
    if steps.len() > 0 {
        lemma_removals_prefix(a, b, steps.drop_last());
    }
}

/// A slab holds as many operations as were stored in it and not taken out again.
pub proof fn length_counts_operations<T>(slabs: Seq<OpSlab<T>>, steps: Seq<SlabStep<T>>)
    requires
        history(slabs, steps),
        slabs[0].fresh(),
    ensures
        slabs.last()@.dom().len() == inserts(steps) - removals(slabs, steps),
    decreases steps.len(),
{
    if steps.len() > 0 {
        let ss = slabs.drop_last();
        lemma_earlier_history(slabs, steps);
        length_counts_operations(ss, steps.drop_last());
        lemma_removals_prefix(ss, slabs, steps.drop_last());
        if let SlabStep::Change { key, value } = steps.last() {
            if ss.last()@.contains_key(key) {
                assert(slabs.last()@.dom() =~= ss.last()@.dom());
            }
        }
    } else {
        assert(slabs.last() == slabs[0]);
    }
}

/// A slab has as many slots as there were operations live at once, and no more: no key names a
/// slot beyond.
pub proof fn slots_follow_the_peak<T>(slabs: Seq<OpSlab<T>>, steps: Seq<SlabStep<T>>)
    requires
        history(slabs, steps),
        slabs[0].fresh(),
    ensures
        slabs.last().slot_count() == peak(slabs),
        forall|k: OpKey| #[trigger] slabs.last()@.contains_key(k) ==> k.slot() < peak(slabs),
    decreases steps.len(),
{
    if steps.len() > 0 {
        let ss = slabs.drop_last();
        lemma_earlier_history(slabs, steps);
        slots_follow_the_peak(ss, steps.drop_last());
        if let SlabStep::Change { key, value } = steps.last() {
            if ss.last()@.contains_key(key) {
                assert(slabs.last()@.dom() =~= ss.last()@.dom());
            }
        }
    } else {
        assert(slabs.last() == slabs[0]);
        assert(slabs.drop_last() =~= Seq::<OpSlab<T>>::empty());
        assert(slabs.last()@.dom().len() == 0);
        assert(peak(slabs.drop_last()) == 0);
    }
}

/// No key is zero, nor is its generation, so that zero can stand for operations that are not
/// tracked.
pub proof fn no_key_is_zero<T>(slab: OpSlab<T>, key: OpKey)
    requires
        slab.wf(),
        slab@.contains_key(key),
    ensures
        key.raw() != 0,
        key.generation_of() != 0,
{
    assert(slab.generation_at(key.slot()) > 0);
}

/// Whatever was stored, changed and taken out before: no key that storing gives is zero, nor is
/// its generation, also where a slot's generations have all been used and begin again.
pub proof fn no_given_key_is_zero<T>(slabs: Seq<OpSlab<T>>, steps: Seq<SlabStep<T>>, i: int)
    requires
        history(slabs, steps),
        0 <= i < steps.len(),
    ensures
        steps[i] matches SlabStep::Insert { key, .. } ==> key.raw() != 0 && key.generation_of()
            != 0,
{
    assert(follows(slabs[i], slabs[i + 1], steps[i]));
    assert(slabs[i + 1].wf());
    if let SlabStep::Insert { key, .. } = steps[i] {
        assert(slabs[i + 1]@.contains_key(key));
        no_key_is_zero(slabs[i + 1], key);
    }
}

/// A generation after `n` steps.
#[verifier::opaque]
spec fn advanced(g: int, n: int) -> int {
    (g - 1 + n) % 0xffff_ffff + 1
}

proof fn lemma_advanced(g: int, n: int)
    requires
        1 <= g <= u32::MAX,
        n >= 0,
    ensures
        1 <= advanced(g, n) <= u32::MAX,
        advanced(g, 0) == g,
        next_generation(advanced(g, n) as u32) == advanced(g, n + 1),
{
    reveal(advanced);
}

proof fn lemma_no_return(g: int, n: int)
    requires
        1 <= g <= u32::MAX,
        0 < n < u32::MAX,
    ensures
        advanced(g, 2 * n) != g,
{
    reveal(advanced);
}

/// Whether some live operation is in the slot.
spec fn occupied<T>(slab: OpSlab<T>, slot: int) -> bool {
    exists|k: OpKey| #[trigger] slab@.contains_key(k) && k.slot() == slot
}

/// How many of the calls stored something in the slot.
spec fn inserts_at<T>(steps: Seq<SlabStep<T>>, slot: int) -> nat
    decreases steps.len(),
{
    if steps.len() == 0 {
        0
    } else {
        inserts_at(steps.drop_last(), slot) + if stores_at(steps.last(), slot) {
            1nat
        } else {
            0
        }
    }
}

proof fn lemma_inserts_at<T>(steps: Seq<SlabStep<T>>, slot: int)
    ensures
        inserts_at(steps, slot) <= inserts(steps),
    decreases steps.len(),
{
    if steps.len() > 0 {
        lemma_inserts_at(steps.drop_last(), slot);
    }
}

proof fn lemma_occupied<T>(a: OpSlab<T>, b: OpSlab<T>, step: SlabStep<T>, slot: int)
    requires
        a.wf(),
        b.wf(),
        follows(a, b, step),
    ensures
        step matches SlabStep::Insert { key, .. } && key.slot() == slot && slot < a.slot_count()
            ==> !occupied(a, slot) && occupied(b, slot),
        step matches SlabStep::Remove { key } && key.slot() == slot && a@.contains_key(key)
            ==> occupied(a, slot) && !occupied(b, slot),
        !(step matches SlabStep::Insert { key, .. } && key.slot() == slot) && !(
        step matches SlabStep::Remove { key } && key.slot() == slot && a@.contains_key(key))
            ==> occupied(a, slot) == occupied(b, slot),
{
    match step {
        SlabStep::Insert { key, .. } => {
            assert(b@.contains_key(key));
            if key.slot() == slot && slot < a.slot_count() {
                assert(a.free_list()[a.free_list().len() - 1] == slot);
                assert(a.free_list().contains(slot as u32));
            }
        },
        SlabStep::Change { key, .. } => {
            if a@.contains_key(key) {
                assert(b@.dom() =~= a@.dom());
            }
        },
        SlabStep::Remove { key } => {},
    }
    if occupied(a, slot) {
        let k = choose|k: OpKey| #[trigger] a@.contains_key(k) && k.slot() == slot;
        assert(!(step matches SlabStep::Remove { key } && key == k) ==> b@.contains_key(k));
    }
    if occupied(b, slot) {
        let k = choose|k: OpKey| #[trigger] b@.contains_key(k) && k.slot() == slot;
        assert(!(step matches SlabStep::Insert { key, .. } && key == k) ==> a@.contains_key(k));
        if let SlabStep::Remove { key } = step {
            if a@.contains_key(key) && key.slot() == slot {
                lemma_key_parts(k, key);
            }
        }
    }
}

/// How far the generation of a slot has moved on: twice for each operation stored there, but
/// once more where the slot is free.
spec fn moves<T>(slab: OpSlab<T>, slot: int, stored: int) -> int {
    2 * stored + if occupied(slab, slot) {
        0int
    } else {
        1
    }
}

/// Whether a call stored something in the slot.
spec fn stores_at<T>(step: SlabStep<T>, slot: int) -> bool {
    step matches SlabStep::Insert { key, .. } && key.slot() == slot
}

#[verifier::spinoff_prover]
proof fn lemma_generation_step<T>(
    a: OpSlab<T>,
    b: OpSlab<T>,
    step: SlabStep<T>,
    slot: int,
    g: int,
    n: int,
)
    requires
        a.wf(),
        b.wf(),
        follows(a, b, step),
        0 <= slot < a.slot_count(),
        1 <= g <= u32::MAX,
        n >= 0,
        a.generation_at(slot) == advanced(g, moves(a, slot, n)),
    ensures
        slot < b.slot_count(),
        b.generation_at(slot) == advanced(
            g,
            moves(
                b,
                slot,
                n + if stores_at(step, slot) {
                    1int
                } else {
                    0
                },
            ),
        ),
        occupied(b, slot) ==> occupied(a, slot) || stores_at(step, slot),
{
    lemma_occupied(a, b, step, slot);
    lemma_advanced(g, 2 * n);
    lemma_advanced(g, 2 * n + 1);
}

/// The generation of a slot that was free in generation `g`: it moves on once for each
/// operation stored there and once for each taken out.
#[verifier::spinoff_prover]
proof fn lemma_generation<T>(slabs: Seq<OpSlab<T>>, steps: Seq<SlabStep<T>>, slot: int, g: int)
    requires
        history(slabs, steps),
        0 <= slot < slabs[0].slot_count(),
        !occupied(slabs[0], slot),
        slabs[0].generation_at(slot) == advanced(g, 1),
        1 <= g <= u32::MAX,
    ensures
        slot < slabs.last().slot_count(),
        slabs.last().generation_at(slot) == advanced(
            g,
            moves(slabs.last(), slot, inserts_at(steps, slot) as int),
        ),
        occupied(slabs.last(), slot) ==> inserts_at(steps, slot) > 0,
    decreases steps.len(),
{
    if steps.len() == 0 {
        assert(slabs.last() == slabs[0]);
    } else {
        let ss = slabs.drop_last();
        lemma_earlier_history(slabs, steps);
        assert(ss[0] == slabs[0]);
        lemma_generation(ss, steps.drop_last(), slot, g);
        lemma_generation_step(
            ss.last(),
            slabs.last(),
            steps.last(),
            slot,
            g,
            inserts_at(steps.drop_last(), slot) as int,
        );
    }
}

proof fn lemma_freed<T>(before: OpSlab<T>, after: OpSlab<T>, key: OpKey)
    requires
        before.wf(),
        before@.contains_key(key),
        OpSlab::taken(before, after, key),
    ensures
        0 <= key.slot() < after.slot_count(),
        1 <= key.generation_of() <= u32::MAX,
        !occupied(after, key.slot()),
        after.generation_at(key.slot()) == advanced(key.generation_of(), 1),
{
    assert(before.generation_at(key.slot()) > 0);
    lemma_advanced(key.generation_of(), 0);
    if occupied(after, key.slot()) {
        let k = choose|k: OpKey| #[trigger] after@.contains_key(k) && k.slot() == key.slot();
        assert(before@.contains_key(k));
        lemma_key_parts(k, key);
    }
}

proof fn lemma_live<T>(slab: OpSlab<T>, key: OpKey)
    requires
        slab.wf(),
        slab@.contains_key(key),
    ensures
        occupied(slab, key.slot()),
        slab.generation_at(key.slot()) == key.generation_of(),
{
}

/// A completion that carries the key of an operation that is gone is not taken for one of a
/// later occupant of its slot: whatever is stored, changed and taken out after the operation
/// was taken out, its key leads nowhere, until a slot's generations have all been used up.
pub proof fn stale_keys_lead_nowhere<T>(
    before: OpSlab<T>,
    stale: OpKey,
    slabs: Seq<OpSlab<T>>,
    steps: Seq<SlabStep<T>>,
)
    requires
        before.wf(),
        before@.contains_key(stale),
        history(slabs, steps),
        OpSlab::taken(before, slabs[0], stale),
        inserts(steps) < u32::MAX,
    ensures
        !slabs.last()@.contains_key(stale),
{
    let n = inserts_at(steps, stale.slot()) as int;
    lemma_freed(before, slabs[0], stale);
    lemma_generation(slabs, steps, stale.slot(), stale.generation_of());
    lemma_inserts_at(steps, stale.slot());
    if slabs.last()@.contains_key(stale) {
        assert(slabs[slabs.len() - 1].wf());
        lemma_live(slabs.last(), stale);
        lemma_no_return(stale.generation_of(), n);
    }
}

/// Whether nothing tells two slabs apart: what they hold, and the keys that they will give.
pub open spec fn alike<T>(a: OpSlab<T>, b: OpSlab<T>) -> bool {
    a@ == b@ && same_slots(a, b)
}

/// Whether two calls were given the same.
pub open spec fn same_call<T>(a: SlabStep<T>, b: SlabStep<T>) -> bool {
    match (a, b) {
        (SlabStep::Insert { value: v, .. }, SlabStep::Insert { value: w, .. }) => v == w,
        _ => a == b,
    }
}

/// The same calls on two fresh slabs give the same keys and leave the same operations, however
/// much memory either began with.
pub proof fn same_calls_same_keys<T>(
    a: Seq<OpSlab<T>>,
    b: Seq<OpSlab<T>>,
    s: Seq<SlabStep<T>>,
    t: Seq<SlabStep<T>>,
)
    requires
        history(a, s),
        history(b, t),
        a[0].fresh(),
        b[0].fresh(),
        s.len() == t.len(),
        forall|i: int| 0 <= i < s.len() ==> same_call(#[trigger] s[i], t[i]),
    ensures
        s == t,
        alike(a.last(), b.last()),
    decreases s.len(),
{
    if s.len() > 0 {
        lemma_earlier_history(a, s);
        lemma_earlier_history(b, t);
        let s1 = s.drop_last();
        let t1 = t.drop_last();
        assert forall|i: int| 0 <= i < s1.len() implies same_call(#[trigger] s1[i], t1[i]) by {
            assert(same_call(s[i], t[i]));
        }
        same_calls_same_keys(a.drop_last(), b.drop_last(), s1, t1);
        let x = a.drop_last().last();
        let y = b.drop_last().last();
        assert(same_call(s[s.len() - 1], t[t.len() - 1]));
        match (s.last(), t.last()) {
            (SlabStep::Insert { key: k, .. }, SlabStep::Insert { key: l, .. }) => {
                if x.free_list().len() > 0 {
                    assert(x.free_list()[x.free_list().len() - 1] < x.slot_count());
                    assert(x.generation_at(k.slot()) == y.generation_at(k.slot()));
                }
                lemma_key_parts(k, l);
            },
            (SlabStep::Remove { key }, _) => {
                if x@.contains_key(key) {
                    assert(x.generation_at(key.slot()) == y.generation_at(key.slot()));
                }
            },
            _ => {},
        }
        assert forall|i: int| 0 <= i < a.last().slot_count() implies (
        #[trigger] a.last().generation_at(i)) == b.last().generation_at(i) by {
            if i < x.slot_count() {
                assert(x.generation_at(i) == y.generation_at(i));
                assert(b.last().generation_at(i) == b.last().generation_at(i));
            }
        }
        assert(s =~= s1.push(s.last()));
        assert(t =~= t1.push(t.last()));
    } else {
        assert(s =~= t);
        assert(a.last() == a[0] && b.last() == b[0]);
    }
}

/// Taking an operation out twice gives it once.
pub proof fn second_removal_finds_nothing<T>(before: OpSlab<T>, after: OpSlab<T>, key: OpKey)
    requires
        OpSlab::taken(before, after, key),
    ensures
        !after@.contains_key(key),
{
}

/// A slot that is used again is two generations on, one for being freed and one for being used;
/// a new slot is in generation one; and a key spells its slot above its generation.
pub proof fn generations_move_on_by_two<T>(
    before: OpSlab<T>,
    freed: OpSlab<T>,
    after: OpSlab<T>,
    old_key: OpKey,
    key: OpKey,
    value: T,
)
    requires
        before.wf(),
        before@.contains_key(old_key),
        OpSlab::taken(before, freed, old_key),
        OpSlab::stored(freed, after, key, value),
    ensures
        key.slot() == old_key.slot(),
        old_key.generation_of() + 2 <= u32::MAX ==> key.generation_of() == old_key.generation_of()
            + 2,
        key.raw() == key.slot() * 0x1_0000_0000 + key.generation_of(),
        after@[key] == value,
{
    assert(before.generation_at(old_key.slot()) > 0);
    assert(freed.free_list().last() == old_key.slot() as u32);
}

/// The first operation of a slab is in its first slot, in generation one; the next in the
/// second, and so on as long as none is taken out.
pub proof fn new_slots_are_in_generation_one<T>(
    before: OpSlab<T>,
    after: OpSlab<T>,
    key: OpKey,
    value: T,
)
    requires
        before.wf(),
        before.free_list().len() == 0,
        OpSlab::stored(before, after, key, value),
    ensures
        key.slot() == before.slot_count(),
        key.slot() == before@.dom().len(),
        key.generation_of() == 1,
        key.raw() == before.slot_count() * 0x1_0000_0000 + 1,
{
}

/// What is stored is found under its key until it is taken out, which gives it back; nothing else
/// changes.
pub proof fn what_is_stored_comes_back<T>(
    a: &mut OpSlab<T>,
    value: T,
    key: OpKey,
    b: &mut OpSlab<T>,
    r: Option<T>,
    other: OpKey,
)
    requires
        old(a).wf(),
        old(a).room(),
        call_ensures(OpSlab::<T>::insert, (a, value), key),
        old(b).wf(),
        *old(b) == *final(a),
        call_ensures(OpSlab::<T>::remove, (b, key), r),
        other != key,
    ensures
        !old(a)@.contains_key(key),
        final(a)@.contains_key(key),
        r == Some(value),
        !final(b)@.contains_key(key),
        final(b)@.contains_key(other) <==> old(a)@.contains_key(other),
        old(a)@.contains_key(other) ==> final(b)@[other] == old(a)@[other],
{
}

} // verus!
