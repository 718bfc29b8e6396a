//! A storage that hands out a stable `Id` for each item it holds. An item
//! keeps its slot until it is removed, and removing one item moves no other,
//! so every other `Id` stays valid. Freed slots are reused oldest first.
//!
//! The slots live in a buffer of the caller's choice: an array
//! ([`new_with_array`]), a vector of fixed capacity
//! ([`vec::new_with_fixed_capacity_vec`]) or a vector that grows on `push`
//! ([`vec::new_with_vec`]).
//!
//! ```text
//! let mut storage = new_with_array::<i32, 3>();
//! let one = storage.insert(1).unwrap();
//! let two = storage.insert(2).unwrap();
//! assert_eq!(storage.remove(one), 1);
//! assert_eq!(storage.get(two), Some(&2));
//! ```
//!
//! Every operation is specified over [`model::StorageModel`], the entries and
//! the free queue of a storage seen as sequences.

pub mod buffer;
pub mod model;
pub mod slot;
pub mod storage;
pub mod vec;

pub use crate::buffer::{SlotArray, SlotBuffer};
pub use crate::storage::{
    initiate_array, new_with_array, Id, InternalStorageFullError, MemoryStorage,
};
