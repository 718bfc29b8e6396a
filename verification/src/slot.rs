//! The cell type of a slot buffer.

use vstd::prelude::*;

verus! {

/// One cell of a slot buffer: it holds a stored value, or it is free and
/// names the free slot that follows it in the free list, if any does.
#[derive(Debug)]
pub enum Slot<T> {
    Taken(T),
    NextFreeSlot(Option<usize>),
}

impl<T> Slot<T> {
    /// The stored value, or `None` for a free slot.
    pub open spec fn content(self) -> Option<T> {
        match self {
            Slot::Taken(item) => Some(item),
            Slot::NextFreeSlot(_) => None,
        }
    }

    /// Whether the slot holds a value.
    pub fn is_taken(&self) -> (taken: bool)
        ensures
            taken == (*self is Taken),
    {
        matches!(*self, Slot::Taken(_))
    }

    /// Whether the slot is part of the free list.
    pub fn is_free(&self) -> (free: bool)
        ensures
            free == (*self is NextFreeSlot),
    {
        !self.is_taken()
    }

    /// The stored value by reference, or `None` for a free slot.
    pub fn taken(&self) -> (item: Option<&T>)
        ensures
            match item {
                Some(value) => *self == Slot::Taken(*value),
                None => *self is NextFreeSlot,
            },
    {
        if let Slot::Taken(item) = self {
            Some(item)
        } else {
            None
        }
    }

    /// The stored value by mutable reference, or `None` for a free slot. What
    /// the caller writes through the reference is what the slot then holds; a
    /// free slot stays as it was.
    pub fn taken_mut(&mut self) -> (item: Option<&mut T>)
        ensures
            match item {
                Some(value) => *old(self) == Slot::Taken(*value) && *final(self) == Slot::Taken(
                    *final(value),
                ),
                None => *old(self) is NextFreeSlot && *final(self) == *old(self),
            },
    {
        if let Slot::Taken(item) = self {
            Some(item)
        } else {
            None
        }
    }

    /// The stored value of a slot that holds one.
    pub fn unwrap_taken(self) -> (item: T)
        requires
            self is Taken,
        ensures
            self == Slot::Taken(item),
    {
        match self {
            Slot::Taken(item) => item,
            Slot::NextFreeSlot(_) => vstd::pervasive::unreached(),
        }
    }

    /// The link of a free slot, consuming the slot.
    pub fn unwrap_next_free(self) -> (next: Option<usize>)
        requires
            self is NextFreeSlot,
        ensures
            self == Slot::<T>::NextFreeSlot(next),
    {
        match self {
            Slot::NextFreeSlot(next) => next,
            Slot::Taken(_) => vstd::pervasive::unreached(),
        }
    }

    /// The link of a free slot.
    pub fn next_free(&self) -> (next: Option<usize>)
        requires
            *self is NextFreeSlot,
        ensures
            *self == Slot::<T>::NextFreeSlot(next),
    {
        match self {
            Slot::NextFreeSlot(next) => *next,
            Slot::Taken(_) => vstd::pervasive::unreached(),
        }
    }
}

} // verus!
