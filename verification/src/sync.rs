//! Lock helpers that do not fail on a poisoned lock.
//!
//! Each helper waits for its lock and hands out the guard, also where a previous
//! holder panicked: what the locks of this library protect is plain protocol
//! state, which stays usable.
//!
//! The state behind a lock may change at any time, so nothing is said of what a
//! guard shows: a helper promises that its guard is one that the lock itself gave
//! out, either directly or inside the error that reports the poisoning.

use std::sync::{Mutex, MutexGuard, PoisonError, RwLock, RwLockReadGuard, RwLockWriteGuard};
use vstd::prelude::*;

verus! {

/// `std::sync::Mutex`, a lock whose contents are not modelled.
#[verifier::external_type_specification]
#[verifier::external_body]
#[verifier::reject_recursive_types(T)]
pub struct ExMutex<T: ?Sized>(std::sync::Mutex<T>);

/// `std::sync::MutexGuard`, the right to use what a `Mutex` protects.
#[verifier::external_type_specification]
#[verifier::external_body]
#[verifier::reject_recursive_types(T)]
pub struct ExMutexGuard<'a, T: ?Sized + 'a>(std::sync::MutexGuard<'a, T>);

/// `std::sync::RwLock`, a lock whose contents are not modelled.
#[verifier::external_type_specification]
#[verifier::external_body]
#[verifier::reject_recursive_types(T)]
pub struct ExRwLock<T: ?Sized>(std::sync::RwLock<T>);

/// `std::sync::RwLockReadGuard`, the right to read what an `RwLock` protects.
#[verifier::external_type_specification]
#[verifier::external_body]
#[verifier::reject_recursive_types(T)]
pub struct ExRwLockReadGuard<'a, T: ?Sized>(std::sync::RwLockReadGuard<'a, T>);

/// `std::sync::RwLockWriteGuard`, the right to change what an `RwLock` protects.
#[verifier::external_type_specification]
#[verifier::external_body]
#[verifier::reject_recursive_types(T)]
pub struct ExRwLockWriteGuard<'a, T: ?Sized + 'a>(std::sync::RwLockWriteGuard<'a, T>);

/// `std::sync::PoisonError`, the report that a holder of a lock panicked, with
/// the guard inside.
#[verifier::external_type_specification]
#[verifier::external_body]
#[verifier::reject_recursive_types(T)]
pub struct ExPoisonError<T>(std::sync::PoisonError<T>);

/// `std::sync::Mutex::lock`. Whether the lock is poisoned depends on what other
/// threads did, so nothing is claimed of the result. A thread must not call it on
/// a mutex that it holds already.
pub assume_specification<T: ?Sized>[ std::sync::Mutex::<T>::lock ](
    mutex: &std::sync::Mutex<T>,
) -> (outcome: Result<MutexGuard<'_, T>, PoisonError<MutexGuard<'_, T>>>);

/// `std::sync::RwLock::read`. Whether the lock is poisoned depends on what other
/// threads did, so nothing is claimed of the result. A thread must not call it on
/// a lock that it holds already.
pub assume_specification<T: ?Sized>[ std::sync::RwLock::<T>::read ](
    lock: &std::sync::RwLock<T>,
) -> (outcome: Result<RwLockReadGuard<'_, T>, PoisonError<RwLockReadGuard<'_, T>>>);

/// `std::sync::RwLock::write`. Whether the lock is poisoned depends on what other
/// threads did, so nothing is claimed of the result. A thread must not call it on
/// a lock that it holds already.
pub assume_specification<T: ?Sized>[ std::sync::RwLock::<T>::write ](
    lock: &std::sync::RwLock<T>,
) -> (outcome: Result<RwLockWriteGuard<'_, T>, PoisonError<RwLockWriteGuard<'_, T>>>);

/// `std::sync::PoisonError::into_inner`, which hands out the guard inside the
/// report. The report is opaque, so nothing is claimed of the result.
pub assume_specification<T>[ std::sync::PoisonError::<T>::into_inner ](
    error: std::sync::PoisonError<T>,
) -> (inner: T);

/// Locks a mutex, recovering the guard if a previous holder panicked.
pub fn lock<T: ?Sized>(mutex: &Mutex<T>) -> (guard: MutexGuard<'_, T>)
    ensures
        ({
            ||| call_ensures(Mutex::<T>::lock, (mutex,), Ok(guard))
            ||| exists|poisoned: PoisonError<MutexGuard<'_, T>>|
                {
                    &&& call_ensures(Mutex::<T>::lock, (mutex,), Err(poisoned))
                    &&& call_ensures(PoisonError::into_inner, (poisoned,), guard)
                }
        }),
{
    match mutex.lock() {
        Ok(guard) => guard,
        Err(poisoned) => poisoned.into_inner(),
    }
}

/// Read-locks an `RwLock`, recovering the guard if a previous holder panicked.
pub fn read<T: ?Sized>(lock: &RwLock<T>) -> (guard: RwLockReadGuard<'_, T>)
    ensures
        ({
            ||| call_ensures(RwLock::<T>::read, (lock,), Ok(guard))
            ||| exists|poisoned: PoisonError<RwLockReadGuard<'_, T>>|
                {
                    &&& call_ensures(RwLock::<T>::read, (lock,), Err(poisoned))
                    &&& call_ensures(PoisonError::into_inner, (poisoned,), guard)
                }
        }),
{
    match lock.read() {
        Ok(guard) => guard,
        Err(poisoned) => poisoned.into_inner(),
    }
}

/// Write-locks an `RwLock`, recovering the guard if a previous holder panicked.
pub fn write<T: ?Sized>(lock: &RwLock<T>) -> (guard: RwLockWriteGuard<'_, T>)
    ensures
        ({
            ||| call_ensures(RwLock::<T>::write, (lock,), Ok(guard))
            ||| exists|poisoned: PoisonError<RwLockWriteGuard<'_, T>>|
                {
                    &&& call_ensures(RwLock::<T>::write, (lock,), Err(poisoned))
                    &&& call_ensures(PoisonError::into_inner, (poisoned,), guard)
                }
        }),
{
    match lock.write() {
        Ok(guard) => guard,
        Err(poisoned) => poisoned.into_inner(),
    }
}

} // verus!
