//! The storage itself: a slot buffer with a free list threaded through its
//! unused slots.

use vstd::prelude::*;
use core::marker::PhantomData;
use crate::buffer::{fresh_slots, successor_link, SlotArray, SlotBuffer};
use crate::model::StorageModel;
use crate::slot::Slot;

verus! {

/// The handle to a stored item: the index of the slot that holds it.
#[derive(Debug, Copy, Clone, Hash, PartialEq, Eq, Structural)]
pub struct Id(pub(crate) usize);

impl Id {
    /// The index of the slot that the handle names.
    pub closed spec fn view(self) -> int {
        self.0 as int
    }

    /// Two handles are equal exactly when they name the same index.
    pub proof fn lemma_equal_iff_same_index(self, other: Id)
        ensures
            self == other <==> self@ == other@,
    {
    }
}

/// The failure of an insertion into a storage without a free slot. It hands
/// the rejected item back.
#[derive(Debug)]
pub struct InternalStorageFullError<T>(pub T);

impl<T> InternalStorageFullError<T> {
    /// The item that found no room.
    pub fn value(self) -> (item: T)
        ensures
            item == self.0,
    {
        self.0
    }
}

/// The link that the free slot at position `k` of the free queue holds: the
/// index at the following position, but nothing at the back of the queue.
pub open spec fn link_after(free: Seq<int>, k: int) -> Option<usize> {
    if k + 1 < free.len() {
        Some(free[k + 1] as usize)
    } else {
        None
    }
}

/// The index at the front of the free queue, if there is one.
pub(crate) open spec fn front_of(free: Seq<int>) -> Option<usize> {
    if free.len() > 0 {
        Some(free[0] as usize)
    } else {
        None
    }
}

/// The index at the back of the free queue, if there is one.
pub(crate) open spec fn back_of(free: Seq<int>) -> Option<usize> {
    if free.len() > 0 {
        Some(free[free.len() - 1] as usize)
    } else {
        None
    }
}

/// A store of items in the slots of a buffer. An inserted item keeps its
/// slot, and so its `Id`, until it is removed; the free slots form a queue
/// that is threaded through the slots themselves.
pub struct MemoryStorage<T, U> where U: SlotBuffer<T> {
    pub(crate) storage: U,
    pub(crate) next_free_slot: Option<usize>,
    pub(crate) last_free_slot: Option<usize>,
    pub(crate) taken_slots: usize,
    pub(crate) capacity: usize,
    pub(crate) free_list: Ghost<Seq<int>>,
    pub(crate) _marker: PhantomData<T>,
}

impl<T, U> MemoryStorage<T, U> where U: SlotBuffer<T> {
    /// The buffer that holds the slots.
    pub closed spec fn buffer(&self) -> U {
        self.storage
    }

    /// The model of the storage: the item of each taken slot, and the free
    /// slots in the order of the free list.
    pub open(crate) spec fn view(&self) -> StorageModel<T> {
        StorageModel {
            entries: self.storage@.map_values(|slot: Slot<T>| slot.content()),
            free: self.free_list@,
        }
    }

    /// The invariant of a storage: the counters agree with the buffer, the
    /// free queue names exactly the free slots, and each of those holds the
    /// link to the one behind it, from `next_free_slot` to `last_free_slot`.
    /// Every constructor establishes it and every operation keeps it.
    pub open(crate) spec fn wf(&self) -> bool {
        let slots = self.storage@;
        let free = self.free_list@;
        &&& self.capacity == slots.len()
        &&& self.taken_slots + free.len() == self.capacity
        &&& self@.wf()
        &&& forall|k: int|
            0 <= k < free.len() ==> slots[#[trigger] free[k]] == Slot::<T>::NextFreeSlot(
                link_after(free, k),
            )
        &&& self.next_free_slot == front_of(free)
        &&& self.last_free_slot == back_of(free)
    }

    /// Drops every item and rebuilds the free queue in ascending order, as in
    /// a fresh storage of the same capacity. Afterwards no handle resolves to
    /// an item.
    pub fn clear(&mut self)
        requires
            old(self).wf(),
        ensures
            final(self).wf(),
            final(self)@ == old(self)@.clear(),
            final(self)@.capacity() == old(self)@.capacity(),
            final(self)@.taken_count() == 0,
            forall|id: Id| final(self)@.get(id@) is None,
    {
        let capacity = self.capacity;
        proof {
            old(self)@.lemma_clear();
        }
        if capacity == 0 {
            assert(self@.entries =~= StorageModel::<T>::fresh(0).entries);
            assert(self@.free =~= StorageModel::<T>::fresh(0).free);
            return ;
        }
        for i in 0..capacity
            invariant
                self.capacity == capacity,
                self.storage@.len() == capacity,
                forall|j: int| 0 <= j < i ==> #[trigger] self.storage@[j] == successor_link::<T>(j),
        {
            self.storage.set_slot(i, Slot::NextFreeSlot(Some(i + 1)));
        }
        self.storage.set_slot(capacity - 1, Slot::NextFreeSlot(None));
        self.next_free_slot = Some(0);
        self.last_free_slot = Some(capacity - 1);
        self.taken_slots = 0;
        proof {
            self.free_list@ = Seq::new(capacity as nat, |i: int| i);
            assert(self@.entries =~= StorageModel::<T>::fresh(capacity as nat).entries);
            assert(self@ == StorageModel::<T>::fresh(capacity as nat));
        }
    }

    /// Tries to insert `item`. With a free slot left, the item goes to the slot
    /// at the front of the free queue and the slot's handle comes back. With
    /// none left, nothing changes and the item comes back in the error.
    pub fn insert(&mut self, item: T) -> (result: Result<Id, InternalStorageFullError<T>>)
        requires
            old(self).wf(),
        ensures
            final(self).wf(),
            match result {
                Ok(id) => {
                    &&& !old(self)@.is_full()
                    &&& id@ == old(self)@.next_id()
                    &&& final(self)@ == old(self)@.insert(item)
                    &&& final(self)@.get(id@) == Some(item)
                },
                Err(error) => {
                    &&& old(self)@.is_full()
                    &&& error.0 == item
                    &&& *final(self) == *old(self)
                },
            },
    {
        match self.next_free_slot {
            None => Err(InternalStorageFullError(item)),
            Some(next_free_slot) => Ok(self.fill_free_slot(next_free_slot, item)),
        }
    }

    /// Puts `item` into the slot at the front of the free queue and takes that
    /// slot off the queue.
    fn fill_free_slot(&mut self, free_slot: usize, item: T) -> (id: Id)
        requires
            old(self).wf(),
            old(self).next_free_slot == Some(free_slot),
        ensures
            final(self).wf(),
            !old(self)@.is_full(),
            id@ == old(self)@.next_id(),
            id@ == free_slot,
            final(self)@ == old(self)@.insert(item),
            final(self)@.get(id@) == Some(item),
    {
        let ghost free = self.free_list@;
        assert(free[0] == free_slot);
        let next_free_slot = self.storage.slot(free_slot).next_free();
        self.taken_slots += 1;
        match next_free_slot {
            None => {
                self.next_free_slot = None;
                self.last_free_slot = None;
            },
            Some(_) => self.next_free_slot = next_free_slot,
        }
        self.storage.set_slot(free_slot, Slot::Taken(item));
        proof {
            self.free_list@ = free.drop_first();
            assert(self@.entries =~= old(self)@.insert(item).entries);
            old(self)@.lemma_insert(item);
            assert forall|k: int| 0 <= k < self.free_list@.len() implies self.storage@[
            #[trigger] self.free_list@[k]] == Slot::<T>::NextFreeSlot(
                link_after(self.free_list@, k),
            ) by {
                assert(self.free_list@[k] == free[k + 1]);
                assert(free[k + 1] != free[0]);
            }
        }
        Id(free_slot)
    }

    /// Removes the item that `id` names and hands it out. The slot joins the
    /// back of the free queue; every other item stays in its slot.
    pub fn remove(&mut self, id: Id) -> (item: T)
        requires
            old(self).wf(),
            old(self)@.get(id@) is Some,
        ensures
            final(self).wf(),
            old(self)@.get(id@) == Some(item),
            final(self)@ == old(self)@.remove(id@),
    {
        let ghost free = self.free_list@;
        let id = id.0;
        let mut slot = Slot::NextFreeSlot(None);
        core::mem::swap(self.storage.slot_mut(id), &mut slot);
        let item = slot.unwrap_taken();
        proof {
            old(self)@.lemma_remove(id as int);
            old(self)@.lemma_counts();
            assert(old(self)@.occupied().contains(id as int));
        }
        self.taken_slots -= 1;
        match self.last_free_slot {
            Some(free_slot) => {
                self.storage.set_slot(free_slot, Slot::NextFreeSlot(Some(id)));
                self.last_free_slot = Some(id);
            },
            None => {
                self.next_free_slot = Some(id);
                self.last_free_slot = Some(id);
            },
        }
        proof {
            self.free_list@ = free.push(id as int);
            assert(self@.entries =~= old(self)@.remove(id as int).entries);
            assert forall|k: int| 0 <= k < self.free_list@.len() implies self.storage@[
            #[trigger] self.free_list@[k]] == Slot::<T>::NextFreeSlot(
                link_after(self.free_list@, k),
            ) by {
                if k < free.len() {
                    assert(self.free_list@[k] == free[k]);
                    assert(free.contains(free[k]));
                    if k + 1 < free.len() {
                        assert(free[k] != free[free.len() - 1]);
                    }
                }
            }
        }
        item
    }

    /// The item that `id` names, or `None` where `id` is out of range or its
    /// slot is free.
    pub fn get(&self, id: Id) -> (item: Option<&T>)
        ensures
            match item {
                Some(value) => self@.get(id@) == Some(*value),
                None => self@.get(id@) is None,
            },
    {
        if id.0 < self.storage.slot_count() {
            self.storage.slot(id.0).taken()
        } else {
            None
        }
    }

    /// The item that `id` names, to be changed in place, or `None` where `id`
    /// is out of range or its slot is free. What the caller writes through the
    /// reference is what the storage then holds under `id`; nothing else changes.
    pub fn get_mut(&mut self, id: Id) -> (item: Option<&mut T>)
        ensures
            old(self).wf() ==> final(self).wf(),
            match item {
                Some(value) => {
                    &&& old(self)@.get(id@) == Some(*value)
                    &&& final(self)@ == old(self)@.replace(id@, *final(value))
                },
                None => {
                    &&& old(self)@.get(id@) is None
                    &&& final(self)@ == old(self)@
                },
            },
    {
        if id.0 < self.storage.slot_count() {
            let ghost after = *final(self);
            let item = self.storage.slot_mut(id.0).taken_mut();
            proof {
                Self::lemma_slot_rewritten(*old(self), after, id.0 as int);
            }
            item
        } else {
            None
        }
    }

    /// A storage in which one taken slot got a new item, or one slot was
    /// written over by itself, has the model of the old one but for that item,
    /// and is well formed if the old one was.
    proof fn lemma_slot_rewritten(before: Self, after: Self, index: int)
        requires
            0 <= index < before.storage@.len(),
            after.storage@ == before.storage@.update(index, after.storage@[index]),
            before.storage@[index] is Taken ==> after.storage@[index] is Taken,
            before.storage@[index] is NextFreeSlot ==> after.storage@[index]
                == before.storage@[index],
            after.next_free_slot == before.next_free_slot,
            after.last_free_slot == before.last_free_slot,
            after.taken_slots == before.taken_slots,
            after.capacity == before.capacity,
            after.free_list == before.free_list,
        ensures
            before.wf() ==> after.wf(),
            after.storage@[index] is NextFreeSlot ==> after@ == before@,
            after.storage@[index] matches Slot::Taken(item) ==> after@ == before@.replace(
                index,
                item,
            ),
    {
        assert(after@.entries =~= before@.entries.update(index, after.storage@[index].content()));
        if after.storage@[index] is NextFreeSlot {
            assert(after@.entries =~= before@.entries);
        }
        if before.wf() {
            assert forall|i: int| 0 <= i < after@.entries.len() implies (
            #[trigger] after@.entries[i] is None <==> after@.free.contains(i)) by {
                assert(before@.entries[i] is None <==> before@.free.contains(i));
            }
        }
    }

    /// The number of slots, taken or free.
    pub fn capacity(&self) -> (capacity: usize)
        requires
            self.wf(),
        ensures
            capacity == self@.capacity(),
    {
        self.capacity
    }

    /// The number of slots that hold an item.
    pub fn taken_slots(&self) -> (taken: usize)
        requires
            self.wf(),
        ensures
            taken == self@.taken_count(),
            taken == self@.capacity() - self@.free_count(),
            taken <= self@.capacity(),
    {
        proof {
            self@.lemma_counts();
        }
        self.taken_slots
    }

    /// The buffer, by reference.
    pub fn storage_ref(&self) -> (storage: &U)
        ensures
            *storage == self.buffer(),
    {
        &self.storage
    }

    /// The buffer, taken out of the storage.
    pub fn storage(self) -> (storage: U)
        ensures
            storage == self.buffer(),
    {
        self.storage
    }

    /// The buffer of a well-formed storage holds what the model says: a slot
    /// is taken exactly where the model has an entry, and holds that entry;
    /// the free slots are chained in the order of the free queue, the last of
    /// them linking to nothing.
    pub proof fn lemma_buffer_holds_model(self)
        requires
            self.wf(),
        ensures
            self@.wf(),
            self.buffer()@.len() == self@.capacity(),
            forall|i: int|
                0 <= i < self@.capacity() ==> (#[trigger] self.buffer()@[i]).content()
                    == self@.entries[i],
            forall|k: int|
                0 <= k < self@.free.len() ==> self.buffer()@[#[trigger] self@.free[k]]
                    == Slot::<T>::NextFreeSlot(link_after(self@.free, k)),
    {
    }

    /// The model leaves nothing about the slots open: two well-formed storages
    /// with the same model hold the same slots.
    pub proof fn lemma_model_fixes_buffer(self, other: Self)
        requires
            self.wf(),
            other.wf(),
            self@ == other@,
        ensures
            self.buffer()@ == other.buffer()@,
    {
        assert forall|i: int| 0 <= i < self.storage@.len() implies self.storage@[i]
            == other.storage@[i] by {
            assert(self@.entries[i] == self.storage@[i].content());
            assert(other@.entries[i] == other.storage@[i].content());
            if self@.entries[i] is None {
                let k = choose|k: int| 0 <= k < self@.free.len() && self@.free[k] == i;
                assert(self.storage@[self.free_list@[k]] == other.storage@[other.free_list@[k]]);
            }
        }
        assert(self.storage@ =~= other.storage@);
    }

    /// Builds the storage around a buffer whose slots are all free and chained
    /// in ascending order.
    pub(crate) fn with_fresh_buffer(storage: U) -> (fresh: Self)
        requires
            storage@ == fresh_slots::<T>(storage@.len()),
        ensures
            fresh.wf(),
            fresh@ == StorageModel::<T>::fresh(storage@.len()),
            fresh.buffer() == storage,
    {
        let capacity = storage.slot_count();
        let next_free_slot;
        let last_free_slot;
        if capacity == 0 {
            next_free_slot = None;
            last_free_slot = None;
        } else {
            next_free_slot = Some(0);
            last_free_slot = Some(capacity - 1);
        }
        let fresh = MemoryStorage {
            storage,
            next_free_slot,
            last_free_slot,
            taken_slots: 0,
            capacity,
            free_list: Ghost(Seq::new(capacity as nat, |i: int| i)),
            _marker: PhantomData,
        };
        proof {
            StorageModel::<T>::lemma_fresh(capacity as nat);
            assert(fresh@.entries =~= StorageModel::<T>::fresh(capacity as nat).entries);
        }
        fresh
    }
}

/// The free slot that links to the slot after `index`.
fn link_to_successor<T>(index: usize) -> (slot: Slot<T>)
    requires
        index < usize::MAX,
    ensures
        slot == successor_link::<T>(index as int),
{
    Slot::NextFreeSlot(Some(index + 1))
}

/// Calls `core::array::from_fn`, which builds an array by calling the given
/// closure once with each index from 0 up to the array's length. The closure
/// here maps an index to `link_to_successor` of it, so the contract claims
/// that every slot of the array is a free slot linking to the next index.
#[verifier::external_body]
fn array_of_successor_links<T, const S: usize>() -> (array: SlotArray<T, S>)
    ensures
        forall|i: int| 0 <= i < S ==> #[trigger] array@[i] == successor_link::<T>(i),
{
    core::array::from_fn(|index| link_to_successor(index))
}

/// A slot array whose slots are all free and chained in ascending order.
pub fn initiate_array<T, const S: usize>() -> (array: SlotArray<T, S>)
    ensures
        array@ == fresh_slots::<T>(S as nat),
{
    let mut array: SlotArray<T, S> = array_of_successor_links();
    if S != 0 {
        array[S - 1] = Slot::NextFreeSlot(None);
    }
    assert(array@ =~= fresh_slots::<T>(S as nat));
    array
}

/// Creates a storage of `S` slots that lives in an array.
pub fn new_with_array<T, const S: usize>() -> (fresh: MemoryStorage<T, SlotArray<T, S>>)
    ensures
        fresh.wf(),
        fresh@ == StorageModel::<T>::fresh(S as nat),
        fresh.buffer()@ == fresh_slots::<T>(S as nat),
{
    let array = initiate_array::<T, S>();
    MemoryStorage::with_fresh_buffer(array)
}

} // verus!
