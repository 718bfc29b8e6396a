//! The mathematical model of a storage: which value sits at which index, and
//! in which order the unused indices will be handed out again.

use vstd::prelude::*;
use vstd::set_lib::*;

verus! {

/// What a storage holds, seen as mathematics.
///
/// `entries[i]` is `Some(v)` when index `i` holds the value `v` and `None`
/// when it is unused. `free` lists the unused indices in the order in which
/// insertions will take them: the front is allocated next, a released index
/// joins at the back.
pub struct StorageModel<T> {
    pub entries: Seq<Option<T>>,
    pub free: Seq<int>,
}

impl<T> StorageModel<T> {
    /// The free queue names exactly the unused indices, each once.
    pub open spec fn wf(self) -> bool {
        &&& self.free.no_duplicates()
        &&& forall|k: int|
            0 <= k < self.free.len() ==> 0 <= #[trigger] self.free[k] < self.entries.len()
        &&& forall|i: int|
            0 <= i < self.entries.len() ==> (#[trigger] self.entries[i] is None
                <==> self.free.contains(i))
    }

    /// The number of indices, used or not.
    pub open spec fn capacity(self) -> nat {
        self.entries.len()
    }

    /// The indices that hold a value.
    pub open spec fn occupied(self) -> Set<int> {
        Set::new(|i: int| 0 <= i < self.entries.len() && self.entries[i] is Some)
    }

    /// The indices that hold no value.
    pub open spec fn vacant(self) -> Set<int> {
        Set::new(|i: int| 0 <= i < self.entries.len() && self.entries[i] is None)
    }

    /// How many indices hold a value.
    pub open spec fn taken_count(self) -> nat {
        self.occupied().len()
    }

    /// How many indices hold no value.
    pub open spec fn free_count(self) -> nat {
        self.vacant().len()
    }

    /// No index is left to allocate.
    pub open spec fn is_full(self) -> bool {
        self.free.len() == 0
    }

    /// The value at `index`, if the index is in range and in use.
    pub open spec fn get(self, index: int) -> Option<T> {
        if 0 <= index < self.entries.len() {
            self.entries[index]
        } else {
            None
        }
    }

    /// The index that the next insertion will receive.
    pub open spec fn next_id(self) -> int
        recommends
            !self.is_full(),
    {
        self.free[0]
    }

    /// A storage of `capacity` unused indices, to be allocated in ascending order.
    pub open spec fn fresh(capacity: nat) -> Self {
        StorageModel {
            entries: Seq::new(capacity, |i: int| None),
            free: Seq::new(capacity, |i: int| i),
        }
    }

    /// The storage after `item` went to the front index of the free queue.
    pub open spec fn insert(self, item: T) -> Self
        recommends
            !self.is_full(),
    {
        StorageModel {
            entries: self.entries.update(self.free[0], Some(item)),
            free: self.free.drop_first(),
        }
    }

    /// The storage after the value at `index` was written over by `item`.
    pub open spec fn replace(self, index: int, item: T) -> Self
        recommends
            self.get(index) is Some,
    {
        StorageModel { entries: self.entries.update(index, Some(item)), free: self.free }
    }

    /// The storage after the value at `index` left and `index` joined the back
    /// of the free queue.
    pub open spec fn remove(self, index: int) -> Self
        recommends
            self.get(index) is Some,
    {
        StorageModel { entries: self.entries.update(index, None), free: self.free.push(index) }
    }

    /// The storage after every value was dropped and the free queue rebuilt in
    /// ascending order.
    pub open spec fn clear(self) -> Self {
        Self::fresh(self.capacity())
    }

    /// The storage after its capacity rose to `new_capacity`: the indices from
    /// the old capacity up to `new_capacity` join the back of the free queue in
    /// ascending order. A `new_capacity` that is no rise changes nothing.
    pub open spec fn grow(self, new_capacity: nat) -> Self {
        if new_capacity <= self.capacity() {
            self
        } else {
            let added = (new_capacity - self.capacity()) as nat;
            StorageModel {
                entries: self.entries + Seq::new(added, |i: int| None),
                free: self.free + Seq::new(added, |i: int| self.capacity() + i),
            }
        }
    }

    /// The used and the unused indices split the capacity between them, and
    /// the free queue is as long as there are unused indices.
    pub proof fn lemma_counts(self)
        requires
            self.wf(),
        ensures
            self.occupied().finite(),
            self.vacant().finite(),
            self.taken_count() + self.free_count() == self.capacity(),
            self.free_count() == self.free.len(),
            self.taken_count() <= self.capacity(),
    {
        let all = set_int_range(0, self.entries.len() as int);
        lemma_int_range(0, self.entries.len() as int);
        assert(self.occupied() + self.vacant() =~= all);
        lemma_set_union_finite_iff(self.occupied(), self.vacant());
        assert(self.occupied().disjoint(self.vacant()));
        lemma_set_disjoint_lens(self.occupied(), self.vacant());
        assert(self.vacant() =~= self.free.to_set()) by {
            assert forall|i: int| self.free.to_set().contains(i) implies self.vacant().contains(
                i,
            ) by {
                let k = choose|k: int| 0 <= k < self.free.len() && self.free[k] == i;
                assert(0 <= self.free[k] < self.entries.len());
            }
        }
        self.free.unique_seq_to_set();
    }

    /// A fresh storage is well formed and holds nothing: every index resolves
    /// to no value.
    pub proof fn lemma_fresh(capacity: nat)
        ensures
            Self::fresh(capacity).wf(),
            Self::fresh(capacity).capacity() == capacity,
            Self::fresh(capacity).taken_count() == 0,
            forall|index: int| Self::fresh(capacity).get(index) is None,
    {
        let fresh = Self::fresh(capacity);
        assert forall|i: int| 0 <= i < fresh.entries.len() implies (
        #[trigger] fresh.entries[i] is None <==> fresh.free.contains(i)) by {
            assert(fresh.free[i] == i);
        }
        assert(fresh.occupied() =~= Set::empty());
    }

    /// An insertion into a storage that is not full keeps it well formed, puts
    /// the item at the index that was next, leaves every other index as it was
    /// and raises the count of taken indices by one.
    pub proof fn lemma_insert(self, item: T)
        requires
            self.wf(),
            !self.is_full(),
        ensures
            self.insert(item).wf(),
            self.get(self.next_id()) is None,
            self.insert(item).get(self.next_id()) == Some(item),
            forall|index: int|
                index != self.next_id() ==> self.insert(item).get(index) == self.get(index),
            self.insert(item).capacity() == self.capacity(),
            self.insert(item).taken_count() == self.taken_count() + 1,
    {
        let after = self.insert(item);
        let id = self.free[0];
        assert(0 <= id < self.entries.len());
        assert(self.free.contains(id));
        assert forall|k: int| 0 <= k < after.free.len() implies 0 <= #[trigger] after.free[k]
            < after.entries.len() by {
            assert(after.free[k] == self.free[k + 1]);
        }
        assert forall|i: int| 0 <= i < after.entries.len() implies (
        #[trigger] after.entries[i] is None <==> after.free.contains(i)) by {
            if i == id {
                if after.free.contains(i) {
                    let k = choose|k: int| 0 <= k < after.free.len() && after.free[k] == i;
                    assert(self.free[k + 1] == self.free[0]);
                }
            } else if self.entries[i] is None {
                let k = choose|k: int| 0 <= k < self.free.len() && self.free[k] == i;
                assert(after.free[k - 1] == i);
            } else if after.free.contains(i) {
                let k = choose|k: int| 0 <= k < after.free.len() && after.free[k] == i;
                assert(self.free[k + 1] == i);
            }
        }
        self.lemma_counts();
        after.lemma_counts();
    }

    /// A removal keeps the storage well formed, empties the index, leaves
    /// every other index as it was and lowers the count of taken indices by one.
    pub proof fn lemma_remove(self, index: int)
        requires
            self.wf(),
            self.get(index) is Some,
        ensures
            self.remove(index).wf(),
            self.remove(index).get(index) is None,
            forall|other: int| other != index ==> self.remove(index).get(other) == self.get(other),
            self.remove(index).capacity() == self.capacity(),
            self.remove(index).taken_count() + 1 == self.taken_count(),
    {
        let after = self.remove(index);
        assert(!self.free.contains(index));
        assert forall|i: int| 0 <= i < after.entries.len() implies (
        #[trigger] after.entries[i] is None <==> after.free.contains(i)) by {
            if i == index {
                assert(after.free[self.free.len() as int] == index);
            } else if self.entries[i] is None {
                let k = choose|k: int| 0 <= k < self.free.len() && self.free[k] == i;
                assert(after.free[k] == i);
            } else if after.free.contains(i) {
                let k = choose|k: int| 0 <= k < after.free.len() && after.free[k] == i;
                assert(self.free[k] == i);
            }
        }
        self.lemma_counts();
        after.lemma_counts();
    }

    /// Growth keeps the storage well formed and every index of before as it
    /// was; the new indices are unused, and they are allocated in ascending
    /// order after the indices that were free before.
    pub proof fn lemma_grow(self, new_capacity: nat)
        requires
            self.wf(),
        ensures
            self.grow(new_capacity).wf(),
            self.grow(new_capacity).capacity() == if new_capacity <= self.capacity() {
                self.capacity()
            } else {
                new_capacity
            },
            forall|index: int|
                0 <= index < self.capacity() ==> self.grow(new_capacity).get(index) == self.get(
                    index,
                ),
            forall|index: int|
                index >= self.capacity() ==> self.grow(new_capacity).get(index) is None,
            self.grow(new_capacity).taken_count() == self.taken_count(),
            self.is_full() && new_capacity > self.capacity() ==> self.grow(new_capacity).next_id()
                == self.capacity(),
    {
        let after = self.grow(new_capacity);
        if new_capacity > self.capacity() {
            let old_capacity = self.capacity() as int;
            assert forall|j: int, k: int| 0 <= j < k < after.free.len() implies after.free[j]
                != after.free[k] by {
                if k < self.free.len() {
                    assert(after.free[j] == self.free[j] && after.free[k] == self.free[k]);
                } else if j < self.free.len() {
                    assert(after.free[j] == self.free[j]);
                    assert(after.free[k] >= old_capacity);
                }
            }
            assert forall|i: int| 0 <= i < after.entries.len() implies (
            #[trigger] after.entries[i] is None <==> after.free.contains(i)) by {
                if i >= old_capacity {
                    assert(after.free[self.free.len() + i - old_capacity] == i);
                } else if self.entries[i] is None {
                    let k = choose|k: int| 0 <= k < self.free.len() && self.free[k] == i;
                    assert(after.free[k] == i);
                } else if after.free.contains(i) {
                    let k = choose|k: int| 0 <= k < after.free.len() && after.free[k] == i;
                    assert(k < self.free.len());
                    assert(self.free[k] == i);
                }
            }
            assert(after.occupied() =~= self.occupied());
        }
    }

    /// An item that is inserted and removed again leaves every index as it
    /// was before: the insertion's index held nothing, held the item in
    /// between, and holds nothing again; capacity and the count of taken
    /// indices are back where they were. Only the free queue has turned: the
    /// index has moved from its front to its back.
    pub proof fn lemma_insert_then_remove(self, item: T)
        requires
            self.wf(),
            !self.is_full(),
        ensures
            self.insert(item).get(self.next_id()) == Some(item),
            self.insert(item).taken_count() == self.taken_count() + 1,
            self.insert(item).remove(self.next_id()).wf(),
            self.insert(item).remove(self.next_id()).entries == self.entries,
            self.insert(item).remove(self.next_id()).free == self.free.drop_first().push(
                self.next_id(),
            ),
            self.insert(item).remove(self.next_id()).capacity() == self.capacity(),
            self.insert(item).remove(self.next_id()).taken_count() == self.taken_count(),
    {
        self.lemma_insert(item);
        self.insert(item).lemma_remove(self.next_id());
        assert(self.insert(item).remove(self.next_id()).entries =~= self.entries);
    }

    /// Clearing leaves a well-formed storage of the same capacity in which no
    /// index holds a value.
    pub proof fn lemma_clear(self)
        ensures
            self.clear().wf(),
            self.clear().capacity() == self.capacity(),
            self.clear().taken_count() == 0,
            forall|index: int| self.clear().get(index) is None,
    {
        Self::lemma_fresh(self.capacity());
    }

    /// Growing a fresh storage gives the fresh storage of the larger capacity,
    /// whatever the capacity it started from, none at all included.
    pub proof fn lemma_grow_fresh(capacity: nat, new_capacity: nat)
        requires
            capacity <= new_capacity,
        ensures
            Self::fresh(capacity).grow(new_capacity) == Self::fresh(new_capacity),
    {
        let grown = Self::fresh(capacity).grow(new_capacity);
        assert(grown.entries =~= Self::fresh(new_capacity).entries);
        assert(grown.free =~= Self::fresh(new_capacity).free);
    }
}

} // verus!
