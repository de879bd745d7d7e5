//! Slots that two threads may reach through a shared reference, and the
//! atomic index operations with the memory orderings that the protocol uses.
//!
//! A slot is a `std::sync::Mutex` round an optional item. The protocol never
//! lets producer and consumer touch the same slot at once, so the lock is
//! never contended; it is what lets a shared reference move an item in or out
//! without unchecked code.
use vstd::prelude::*;
use std::sync::atomic::{AtomicUsize, Ordering};
use std::sync::Mutex;

verus! {

/// `std::sync::Mutex`, carried through verified code as an opaque value:
/// nothing is known of what a mutex holds.
#[verifier::external_type_specification]
#[verifier::external_body]
#[verifier::reject_recursive_types(T)]
pub struct ExMutex<T: ?Sized>(Mutex<T>);

/// `Mutex::new` makes a mutex round a value. Nothing is claimed of the
/// result.
pub assume_specification<T>[ Mutex::<T>::new ](t: T) -> Mutex<T>;

/// Locks the slot with `Mutex::lock`, puts `v` in and hands back what was
/// there. A poisoned lock still yields its guard, which is used all the same.
/// `lock` may panic when the calling thread already holds the lock; the guard
/// taken here is released before the function returns, so no caller holds
/// one. Nothing is claimed of the result, since a slot is shared state.
#[verifier::external_body]
pub(crate) fn exchange<T>(slot: &Mutex<Option<T>>, v: Option<T>) -> (previous: Option<T>) {
    match slot.lock() {
        Ok(mut held) => std::mem::replace(&mut *held, v),
        Err(poisoned) => std::mem::replace(&mut *poisoned.into_inner(), v),
    }
}

/// Makes `len` empty slots.
pub(crate) fn allocate_slots<T>(len: usize) -> (slots: Vec<Mutex<Option<T>>>)
    ensures
        slots.len() == len,
{
    let mut slots: Vec<Mutex<Option<T>>> = Vec::with_capacity(len);
    while slots.len() < len
        invariant
            slots.len() <= len,
        decreases len - slots.len(),
    {
        slots.push(Mutex::new(None));
    }
    slots
}

/// Reads an index that only the calling thread writes.
pub(crate) fn load_own(index: &AtomicUsize) -> usize {
    index.load(Ordering::Relaxed)
}

/// Reads the index that the peer thread publishes, together with every write
/// the peer made before publishing it.
pub(crate) fn load_peer(index: &AtomicUsize) -> usize {
    index.load(Ordering::Acquire)
}

/// Publishes an index, together with every write made before.
pub(crate) fn publish(index: &AtomicUsize, value: usize) {
    index.store(value, Ordering::Release)
}

/// Writes a value that only the calling thread reads.
pub(crate) fn store_own(index: &AtomicUsize, value: usize) {
    index.store(value, Ordering::Relaxed)
}

} // verus!
