//! The store: the five collections, each behind a lock of its own.
//!
//! Every operation takes the lock of one collection, for reading or for
//! writing, performs one operation of that collection and lets the lock go.
//! So the operations on one collection happen one after another, in some
//! order, and each is the operation that the collection's own contract
//! describes, on the state that the one before it left. An operation on one
//! collection never waits for another collection.
//!
//! What an operation finds behind the lock depends on the other threads, so
//! the contracts here say only what holds whatever it found. The contracts
//! that fix the results are those of `Scalars`, `Lists`, `Hashes`, `Sets`
//! and `SortedSets`. In the model the store is a `StoreModel`, and an
//! operation that writes is a `Write` that leaves `after(m, w)`.
//!
//! A lock is poisoned once a writer has panicked while holding it. From
//! then on every operation on that collection returns
//! `StoreError::Poisoned`.

use crate::hashes::Hashes;
use crate::lists::Lists;
use crate::scalars::Scalars;
use crate::score::Score;
use crate::sets::Sets;
use crate::sorted_sets::SortedSets;
use crate::sync::reading;
use crate::sync::writing;
use std::sync::RwLock;
use vstd::prelude::*;

verus! {

/// The one failure of an operation: the collection's lock is poisoned.
#[derive(Clone, Copy, Debug, PartialEq, Eq, Structural)]
pub enum StoreError {
    Poisoned,
}

impl StoreError {
    /// The error in words.
    pub fn message(&self) -> (s: String)
        ensures
            s@ == "collection unavailable: its lock is poisoned"@,
    {
        "collection unavailable: its lock is poisoned".to_string()
    }
}

/// A store of scalars, lists, hashes, sets and sorted sets, shared between
/// threads by reference.
pub struct DCS {
    store: RwLock<Scalars>,
    list_store: RwLock<Lists>,
    hash_store: RwLock<Hashes>,
    set_store: RwLock<Sets>,
    zset_store: RwLock<SortedSets>,
}

impl DCS {
    /// A store in which nothing was written yet.
    pub fn new() -> (s: Self) {
        DCS {
            store: RwLock::new(Scalars::new()),
            list_store: RwLock::new(Lists::new()),
            hash_store: RwLock::new(Hashes::new()),
            set_store: RwLock::new(Sets::new()),
            zset_store: RwLock::new(SortedSets::new()),
        }
    }

    /// `Scalars::set` under the write lock of the scalars.
    pub fn set(&self, key: String, value: String) -> (r: Result<(), StoreError>) {
        match self.store.write() {
            Ok(mut guard) => {
                writing(&mut guard).set(key, value);
                Ok(())
            },
            Err(_) => Err(StoreError::Poisoned),
        }
    }

    /// `Scalars::get` under the read lock of the scalars.
    pub fn get(&self, key: &str) -> (r: Result<Option<String>, StoreError>) {
        match self.store.read() {
            Ok(guard) => Ok(reading(&guard).get(key)),
            Err(_) => Err(StoreError::Poisoned),
        }
    }

    /// `Lists::push` under the write lock of the lists. The length returned
    /// counts the value pushed.
    pub fn list_push(&self, key: String, value: String) -> (r: Result<usize, StoreError>)
        ensures
            r matches Ok(n) ==> n >= 1,
    {
        match self.list_store.write() {
            Ok(mut guard) => Ok(writing(&mut guard).push(key, value)),
            Err(_) => Err(StoreError::Poisoned),
        }
    }

    /// `Lists::push_multi` under the write lock of the lists: the values
    /// are appended as one step, with no other operation between them. The
    /// length returned counts the values pushed.
    pub fn list_push_multi(&self, key: String, values: Vec<String>) -> (r: Result<
        usize,
        StoreError,
    >)
        ensures
            r matches Ok(n) ==> n >= values.len(),
    {
        match self.list_store.write() {
            Ok(mut guard) => Ok(writing(&mut guard).push_multi(key, values)),
            Err(_) => Err(StoreError::Poisoned),
        }
    }

    /// `Lists::pop` under the write lock of the lists.
    pub fn list_pop(&self, key: &str) -> (r: Result<Option<String>, StoreError>) {
        match self.list_store.write() {
            Ok(mut guard) => Ok(writing(&mut guard).pop(key)),
            Err(_) => Err(StoreError::Poisoned),
        }
    }

    /// `Lists::len` under the read lock of the lists.
    pub fn list_len(&self, key: &str) -> (r: Result<usize, StoreError>) {
        match self.list_store.read() {
            Ok(guard) => Ok(reading(&guard).len(key)),
            Err(_) => Err(StoreError::Poisoned),
        }
    }

    /// `Hashes::set` under the write lock of the hashes.
    pub fn hash_set(&self, key: String, field: String, value: String) -> (r: Result<
        (),
        StoreError,
    >) {
        match self.hash_store.write() {
            Ok(mut guard) => {
                writing(&mut guard).set(key, field, value);
                Ok(())
            },
            Err(_) => Err(StoreError::Poisoned),
        }
    }

    /// `Hashes::get` under the read lock of the hashes.
    pub fn hash_get(&self, key: &str, field: &str) -> (r: Result<Option<String>, StoreError>) {
        match self.hash_store.read() {
            Ok(guard) => Ok(reading(&guard).get(key, field)),
            Err(_) => Err(StoreError::Poisoned),
        }
    }

    /// `Hashes::del` under the write lock of the hashes.
    pub fn hash_del(&self, key: String, field: String) -> (r: Result<bool, StoreError>) {
        match self.hash_store.write() {
            Ok(mut guard) => Ok(writing(&mut guard).del(key.as_str(), field.as_str())),
            Err(_) => Err(StoreError::Poisoned),
        }
    }

    /// `Sets::add` under the write lock of the sets.
    pub fn set_add(&self, key: String, value: String) -> (r: Result<(), StoreError>) {
        match self.set_store.write() {
            Ok(mut guard) => {
                writing(&mut guard).add(key, value);
                Ok(())
            },
            Err(_) => Err(StoreError::Poisoned),
        }
    }

    /// `Sets::contains` under the read lock of the sets.
    pub fn set_is_member(&self, key: &str, value: &str) -> (r: Result<bool, StoreError>) {
        match self.set_store.read() {
            Ok(guard) => Ok(reading(&guard).contains(key, value)),
            Err(_) => Err(StoreError::Poisoned),
        }
    }

    /// `Sets::remove` under the write lock of the sets.
    pub fn set_remove(&self, key: String, value: String) -> (r: Result<bool, StoreError>) {
        match self.set_store.write() {
            Ok(mut guard) => Ok(writing(&mut guard).remove(key.as_str(), value.as_str())),
            Err(_) => Err(StoreError::Poisoned),
        }
    }

    /// `SortedSets::add` under the write lock of the sorted sets.
    pub fn zset_add(&self, key: String, score: Score, value: String) -> (r: Result<
        (),
        StoreError,
    >) {
        match self.zset_store.write() {
            Ok(mut guard) => {
                writing(&mut guard).add(key, score, value);
                Ok(())
            },
            Err(_) => Err(StoreError::Poisoned),
        }
    }

    /// `SortedSets::score` under the read lock of the sorted sets.
    pub fn zset_score(&self, key: &str, value: &str) -> (r: Result<Option<Score>, StoreError>) {
        match self.zset_store.read() {
            Ok(guard) => Ok(reading(&guard).score(key, value)),
            Err(_) => Err(StoreError::Poisoned),
        }
    }

    /// `SortedSets::remove` under the write lock of the sorted sets.
    pub fn zset_remove(&self, key: String, value: String) -> (r: Result<bool, StoreError>) {
        match self.zset_store.write() {
            Ok(mut guard) => Ok(writing(&mut guard).remove(key.as_str(), value.as_str())),
            Err(_) => Err(StoreError::Poisoned),
        }
    }
}

} // verus!
