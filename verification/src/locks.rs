//! Reading of what other threads write: the reader/writer locks that hold the current slot and the
//! leader schedule.
//!
//! What such a lock protects may change between two reads. So nothing is claimed here of which
//! outcome a read has, only that it is one that reading this very lock has.

use std::collections::HashMap;
use std::sync::{PoisonError, RwLock, RwLockReadGuard};

use vstd::prelude::*;

use crate::validators::Pubkey;

verus! {

/// `std::sync::RwLock`.
#[verifier::external_type_specification]
#[verifier::external_body]
#[verifier::reject_recursive_types(T)]
pub struct ExRwLock<T: ?Sized>(std::sync::RwLock<T>);

/// `std::sync::RwLockReadGuard`.
#[verifier::external_type_specification]
#[verifier::external_body]
#[verifier::reject_recursive_types(T)]
pub struct ExRwLockReadGuard<'a, T: ?Sized>(std::sync::RwLockReadGuard<'a, T>);

/// `std::sync::PoisonError`.
#[verifier::external_type_specification]
#[verifier::external_body]
#[verifier::reject_recursive_types(T)]
pub struct ExPoisonError<T>(std::sync::PoisonError<T>);

/// Every outcome that reading the lock has at some time: a slot that it protects, or `None` for a
/// read that fails because a writer panicked.
pub uninterp spec fn slot_readings(lock: RwLock<u64>) -> Set<Option<u64>>;

/// Every outcome that reading the lock has at some time: a schedule that it protects, or `None` for
/// a read that fails because a writer panicked.
pub uninterp spec fn schedule_readings(lock: RwLock<HashMap<u64, Pubkey>>) -> Set<
    Option<Map<u64, Pubkey>>,
>;

/// The schedule that a guard gives access to. No writer can change it while the guard is held.
pub uninterp spec fn guarded_schedule(guard: RwLockReadGuard<'_, HashMap<u64, Pubkey>>) -> Map<
    u64,
    Pubkey,
>;

/// Reads the slot with `std::sync::RwLock::read`, which waits for shared access and fails if a
/// writer panicked.
///
/// The outcome is one that reading this lock has. Which one depends on other threads and is not
/// stated. The standard library allows the read to panic where the calling thread already holds
/// the lock; no function of this crate reads a lock while it holds a guard of it.
#[verifier::external_body]
pub(crate) fn read_slot(lock: &RwLock<u64>) -> (slot: Option<u64>)
    ensures
        slot_readings(*lock).contains(slot),
{
    match lock.read() {
        Ok(slot) => Some(*slot),
        Err(_) => None,
    }
}

/// Gets at the schedule with `std::sync::RwLock::read`, which waits for shared access and fails if
/// a writer panicked.
///
/// The outcome is one that reading this lock has. Which one depends on other threads and is not
/// stated. As with the slot, the lock must not be held by the calling thread already.
#[verifier::external_body]
pub(crate) fn read_schedule(lock: &RwLock<HashMap<u64, Pubkey>>) -> (guard: Result<
    RwLockReadGuard<'_, HashMap<u64, Pubkey>>,
    PoisonError<RwLockReadGuard<'_, HashMap<u64, Pubkey>>>,
>)
    ensures
        schedule_readings(*lock).contains(
            match guard {
                Ok(guard) => Some(guarded_schedule(guard)),
                Err(_) => None,
            },
        ),
{
    lock.read()
}

/// The schedule behind a guard, by the `deref` of `std::sync::RwLockReadGuard`.
#[verifier::external_body]
pub(crate) fn schedule_behind<'a>(
    guard: &'a RwLockReadGuard<'_, HashMap<u64, Pubkey>>,
) -> (schedule: &'a HashMap<u64, Pubkey>)
    ensures
        schedule@ == guarded_schedule(*guard),
{
    std::ops::Deref::deref(guard)
}

} // verus!
