//! Storages that live in a vector: one of fixed capacity, and one that grows
//! when it is pushed to while full.

use vstd::prelude::*;
use crate::buffer::{fresh_slots, successor_link, SlotBuffer};
use crate::model::StorageModel;
use crate::slot::Slot;
use crate::storage::{link_after, Id, MemoryStorage};

verus! {

/// A vector of slots.
pub type SlotVec<T> = Vec<Slot<T>>;

impl<T> SlotBuffer<T> for Vec<Slot<T>> {
    fn slot_count(&self) -> (count: usize) {
        self.len()
    }

    fn slot(&self, index: usize) -> (slot: &Slot<T>) {
        &self[index]
    }

    fn slot_mut(&mut self, index: usize) -> (slot: &mut Slot<T>) {
        &mut self[index]
    }
}

/// A vector of slots that a storage never grows.
pub struct FixedCapacitySlotVec<T>(pub(crate) SlotVec<T>);

impl<T> View for FixedCapacitySlotVec<T> {
    type V = Seq<Slot<T>>;

    closed spec fn view(&self) -> Seq<Slot<T>> {
        self.0@
    }
}

impl<T> FixedCapacitySlotVec<T> {
    /// The vector inside.
    pub fn vec(self) -> (vec: SlotVec<T>)
        ensures
            vec@ == self@,
    {
        self.0
    }
}

impl<T> SlotBuffer<T> for FixedCapacitySlotVec<T> {
    fn slot_count(&self) -> (count: usize) {
        self.0.len()
    }

    fn slot(&self, index: usize) -> (slot: &Slot<T>) {
        &self.0[index]
    }

    fn slot_mut(&mut self, index: usize) -> (slot: &mut Slot<T>) {
        &mut self.0[index]
    }
}

/// A vector of `capacity` slots, all free and chained in ascending order.
fn initiate_vec<T>(capacity: usize) -> (vec: SlotVec<T>)
    ensures
        vec@ == fresh_slots::<T>(capacity as nat),
{
    let mut vec = Vec::with_capacity(capacity);
    for i in 0..capacity
        invariant
            vec@.len() == i,
            forall|j: int| 0 <= j < i ==> #[trigger] vec@[j] == successor_link::<T>(j),
    {
        vec.push(Slot::NextFreeSlot(Some(i + 1)));
    }
    if capacity != 0 {
        vec[capacity - 1] = Slot::NextFreeSlot(None);
    }
    assert(vec@ =~= fresh_slots::<T>(capacity as nat));
    vec
}

/// Creates a storage of `capacity` slots that lives in a vector and never grows.
pub fn new_with_fixed_capacity_vec<T>(capacity: usize) -> (fresh: MemoryStorage<
    T,
    FixedCapacitySlotVec<T>,
>)
    ensures
        fresh.wf(),
        fresh@ == StorageModel::<T>::fresh(capacity as nat),
        fresh.buffer()@ == fresh_slots::<T>(capacity as nat),
{
    let fixed_capacity_slot_vec = FixedCapacitySlotVec(initiate_vec(capacity));
    MemoryStorage::with_fresh_buffer(fixed_capacity_slot_vec)
}

/// Creates a storage of `capacity` slots that lives in a vector and grows on
/// a `push` that finds it full.
pub fn new_with_vec<T>(capacity: usize) -> (fresh: MemoryStorage<T, SlotVec<T>>)
    ensures
        fresh.wf(),
        fresh@ == StorageModel::<T>::fresh(capacity as nat),
        fresh.buffer()@ == fresh_slots::<T>(capacity as nat),
{
    let vec = initiate_vec(capacity);
    MemoryStorage::with_fresh_buffer(vec)
}

/// Calls `Vec::capacity`, the number of elements that the vector has room
/// for without allocating again. How much room an allocation gives is up to
/// the vector, so the contract claims only what holds of every vector: that
/// this number is at least the vector's length.
#[verifier::external_body]
fn allocated_slots<T>(vec: &SlotVec<T>) -> (allocated: usize)
    ensures
        allocated >= vec@.len(),
{
    vec.capacity()
}

impl<T> MemoryStorage<T, SlotVec<T>> {
    /// Inserts `item`, growing the storage first if it is full. A full storage
    /// grows to the number of slots that its vector has room for once it had
    /// to hold one more; the item then goes to the first of the new slots.
    pub fn push(&mut self, item: T) -> (id: Id)
        requires
            old(self).wf(),
        ensures
            final(self).wf(),
            final(self)@.get(id@) == Some(item),
            !old(self)@.is_full() ==> {
                &&& id@ == old(self)@.next_id()
                &&& final(self)@ == old(self)@.insert(item)
            },
            old(self)@.is_full() ==> {
                &&& final(self)@.capacity() > old(self)@.capacity()
                &&& id@ == old(self)@.capacity()
                &&& final(self)@ == old(self)@.grow(final(self)@.capacity()).insert(item)
            },
    {
        let item = match self.insert(item) {
            Ok(id) => return id,
            Err(err) => err.0,
        };
        // Pushing at full capacity makes the vector allocate more space for
        // itself. Its room is read while the placeholder is still in, so that
        // it counts at least one slot more than the storage has.
        self.storage.push(Slot::NextFreeSlot(None));
        let new_capacity = allocated_slots(&self.storage);
        self.storage.pop();
        assert(self.storage@ =~= old(self).storage@);
        proof {
            old(self)@.lemma_grow(new_capacity as nat);
            old(self)@.grow(new_capacity as nat).lemma_insert(item);
        }
        self.grow_to(new_capacity);
        match self.insert(item) {
            Ok(id) => id,
            Err(_) => vstd::pervasive::unreached(),
        }
    }

    /// Raises the capacity to `new_capacity`: the slots from the old capacity
    /// up to `new_capacity` are added to the vector, chained in ascending
    /// order, and the chain is spliced onto the back of the free list. A
    /// `new_capacity` that is no rise changes nothing.
    pub fn grow_to(&mut self, new_capacity: usize)
        requires
            old(self).wf(),
        ensures
            final(self).wf(),
            final(self)@ == old(self)@.grow(new_capacity as nat),
    {
        let old_capacity = self.capacity;
        if new_capacity <= old_capacity {
            return ;
        }
        let ghost free = self.free_list@;
        let ghost slots = self.storage@;
        let mut next_free_index = old_capacity;
        while next_free_index < new_capacity
            invariant
                old_capacity <= next_free_index <= new_capacity,
                self.storage@.len() == next_free_index,
                self.storage@.subrange(0, old_capacity as int) == slots,
                forall|j: int|
                    old_capacity <= j < next_free_index ==> #[trigger] self.storage@[j]
                        == successor_link::<T>(j),
                self.next_free_slot == old(self).next_free_slot,
                self.last_free_slot == old(self).last_free_slot,
                self.taken_slots == old(self).taken_slots,
                self.free_list == old(self).free_list,
            decreases new_capacity - next_free_index,
        {
            next_free_index += 1;
            self.storage.push(Slot::NextFreeSlot(Some(next_free_index)));
            assert(self.storage@.subrange(0, old_capacity as int) =~= slots);
        }
        let ghost grown = self.storage@;
        assert forall|i: int| 0 <= i < old_capacity implies grown[i] == slots[i] by {
            assert(grown.subrange(0, old_capacity as int)[i] == grown[i]);
        }
        // The last slot must not point past the end.
        self.storage.set_slot(new_capacity - 1, Slot::NextFreeSlot(None));
        match self.last_free_slot {
            None => {
                self.next_free_slot = Some(old_capacity);
            },
            Some(last_free_slot) => {
                self.storage.set_slot(last_free_slot, Slot::NextFreeSlot(Some(old_capacity)));
            },
        }
        self.last_free_slot = Some(new_capacity - 1);
        self.capacity = new_capacity;
        proof {
            let added = (new_capacity - old_capacity) as nat;
            self.free_list@ = free + Seq::new(added, |i: int| old_capacity + i);
            old(self)@.lemma_grow(new_capacity as nat);
            assert(self@.entries =~= old(self)@.grow(new_capacity as nat).entries) by {
                let grown_model = old(self)@.grow(new_capacity as nat);
                assert forall|i: int| 0 <= i < new_capacity implies self@.entries[i]
                    == grown_model.entries[i] by {
                    if i < old_capacity {
                        assert(grown[i] == slots[i]);
                    }
                }
            }
            assert forall|k: int| 0 <= k < self.free_list@.len() implies self.storage@[
            #[trigger] self.free_list@[k]] == Slot::<T>::NextFreeSlot(
                link_after(self.free_list@, k),
            ) by {
                if k < free.len() {
                    assert(self.free_list@[k] == free[k]);
                    assert(grown[free[k]] == slots[free[k]]);
                    if k + 1 < free.len() {
                        assert(free[k] != free[free.len() - 1]);
                    }
                }
            }
        }
    }
}

} // verus!
