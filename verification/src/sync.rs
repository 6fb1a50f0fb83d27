//! The reader-writer lock of the standard library, as far as the store
//! uses it. Nothing here is proved: these are the facts about
//! `std::sync::RwLock` that the store relies on.
//!
//! None of them says anything of the value that a lock holds. What a caller
//! finds behind a lock is whatever the last writer left there; all that is
//! known of it is what holds of every value of its type.

use std::sync::PoisonError;
use std::sync::RwLock;
use std::sync::RwLockReadGuard;
use std::sync::RwLockWriteGuard;
use vstd::prelude::*;

verus! {

/// `std::sync::RwLock`, opaque.
#[verifier::external_type_specification]
#[verifier::external_body]
#[verifier::reject_recursive_types(T)]
pub struct ExRwLock<T: ?Sized>(RwLock<T>);

/// `std::sync::RwLockReadGuard`, opaque: shared access that ends when the
/// guard is dropped.
#[verifier::external_type_specification]
#[verifier::external_body]
#[verifier::reject_recursive_types(T)]
pub struct ExRwLockReadGuard<'a, T: ?Sized>(RwLockReadGuard<'a, T>);

/// `std::sync::RwLockWriteGuard`, opaque: exclusive access that ends when
/// the guard is dropped.
#[verifier::external_type_specification]
#[verifier::external_body]
#[verifier::reject_recursive_types(T)]
pub struct ExRwLockWriteGuard<'a, T: ?Sized + 'a>(RwLockWriteGuard<'a, T>);

/// `std::sync::PoisonError`, opaque: what `read` and `write` return once a
/// writer has panicked while it held the lock.
#[verifier::external_type_specification]
#[verifier::external_body]
#[verifier::reject_recursive_types(T)]
pub struct ExPoisonError<T>(PoisonError<T>);

/// `RwLock::new` makes a lock around `t`. Nothing is claimed of the lock.
pub assume_specification<T>[ RwLock::<T>::new ](t: T) -> (lock: RwLock<T>);

/// `RwLock::read` blocks until no writer holds the lock and returns a
/// guard, or the poison error. Which of the two is not claimed. The
/// standard library lets this call panic or block for ever in a thread that
/// holds the lock already; the store takes one lock per operation and
/// drops the guard before it returns.
pub assume_specification<'a, T: ?Sized>[ RwLock::<T>::read ](lock: &'a RwLock<T>) -> (r: Result<
    RwLockReadGuard<'a, T>,
    PoisonError<RwLockReadGuard<'a, T>>,
>);

/// `RwLock::write` blocks until nobody else holds the lock and returns a
/// guard, or the poison error. Which of the two is not claimed. As for
/// `read`, the calling thread must not hold the lock already.
pub assume_specification<'a, T: ?Sized>[ RwLock::<T>::write ](lock: &'a RwLock<T>) -> (r: Result<
    RwLockWriteGuard<'a, T>,
    PoisonError<RwLockWriteGuard<'a, T>>,
>);

/// `Deref::deref` of a read guard: the value behind the lock, for reading.
/// Nothing is claimed of the value.
#[verifier::external_body]
pub(crate) fn reading<'a, 'b, T>(guard: &'a RwLockReadGuard<'b, T>) -> (r: &'a T) {
    core::ops::Deref::deref(guard)
}

/// `DerefMut::deref_mut` of a write guard: the value behind the lock, for
/// changing. Nothing is claimed of the value.
#[verifier::external_body]
pub(crate) fn writing<'a, 'b, T>(guard: &'a mut RwLockWriteGuard<'b, T>) -> (r: &'a mut T) {
    core::ops::DerefMut::deref_mut(guard)
}

} // verus!
