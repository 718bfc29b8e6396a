//! The capability that a storage asks of its buffer: a sequence of slots of
//! fixed length that can be measured, read, written and borrowed by index.

use vstd::prelude::*;
use crate::slot::Slot;

verus! {

/// A buffer of slots. Its view is the sequence of its slots; none of the
/// operations changes the length of that sequence.
pub trait SlotBuffer<T>: View<V = Seq<Slot<T>>> {
    /// The number of slots.
    fn slot_count(&self) -> (count: usize)
        ensures
            count == self@.len(),
    ;

    /// The slot at `index`.
    fn slot(&self, index: usize) -> (slot: &Slot<T>)
        requires
            index < self@.len(),
        ensures
            *slot == self@[index as int],
    ;

    /// The slot at `index`, to be changed in place: the buffer ends up with
    /// whatever the caller leaves in that slot, and is otherwise the same.
    fn slot_mut(&mut self, index: usize) -> (slot: &mut Slot<T>)
        requires
            index < old(self)@.len(),
        ensures
            *slot == old(self)@[index as int],
            final(self)@ == old(self)@.update(index as int, *final(slot)),
    ;

    /// Writes `slot` over the slot at `index`.
    fn set_slot(&mut self, index: usize, slot: Slot<T>)
        requires
            index < old(self)@.len(),
        ensures
            final(self)@ == old(self)@.update(index as int, slot),
    {
        *self.slot_mut(index) = slot;
    }
}

/// The free slot that links to the slot after `index`.
pub open spec fn successor_link<T>(index: int) -> Slot<T> {
    Slot::NextFreeSlot(Some((index + 1) as usize))
}

/// The link that a fresh buffer of `capacity` slots holds at `index`: the
/// next index, but nothing for the last one.
pub open spec fn fresh_link(capacity: nat, index: int) -> Option<usize> {
    if index + 1 < capacity {
        Some((index + 1) as usize)
    } else {
        None
    }
}

/// The slots of a fresh buffer: all free, chained in ascending order.
pub open spec fn fresh_slots<T>(capacity: nat) -> Seq<Slot<T>> {
    Seq::new(capacity, |i: int| Slot::NextFreeSlot(fresh_link(capacity, i)))
}

/// A slot array of a length known at compile time.
pub type SlotArray<T, const S: usize> = [Slot<T>; S];

impl<T, const S: usize> SlotBuffer<T> for [Slot<T>; S] {
    fn slot_count(&self) -> (count: usize) {
        S
    }

    fn slot(&self, index: usize) -> (slot: &Slot<T>) {
        &self[index]
    }

    fn slot_mut(&mut self, index: usize) -> (slot: &mut Slot<T>) {
        &mut self[index]
    }
}

} // verus!
