//! A one-place mailbox between two threads of control.
use std::sync::Arc;
use std::sync::Mutex;
use std::sync::MutexGuard;
use vstd::prelude::*;

verus! {

/// `std::sync::Mutex`, which the verifier carries as an opaque value.
#[verifier::external_type_specification]
#[verifier::external_body]
#[verifier::reject_recursive_types(T)]
pub struct ExMutex<T: ?Sized>(Mutex<T>);

/// `std::sync::MutexGuard`, which the verifier carries as an opaque value.
#[verifier::external_type_specification]
#[verifier::external_body]
#[verifier::reject_recursive_types(T)]
pub struct ExMutexGuard<'a, T: ?Sized + 'a>(MutexGuard<'a, T>);

/// `Mutex::new` around an empty place.  Nothing is claimed of the result.
#[verifier::external_body]
fn empty_place<T>() -> Mutex<Option<T>> {
    Mutex::new(None)
}

/// `Arc::clone`: a second pointer to the same allocation, hence a value
/// equal to the first.
#[verifier::external_body]
fn share<T>(place: &Arc<Mutex<Option<T>>>) -> (r: Arc<Mutex<Option<T>>>)
    ensures
        r == *place,
{
    Arc::clone(place)
}

/// `Mutex::lock`: waits for the place and returns the guard that holds
/// it until the guard is dropped.  A poisoned lock is entered all the
/// same.  Nothing is claimed of the guard.
#[verifier::external_body]
fn lock_place<T>(place: &Mutex<Option<T>>) -> MutexGuard<'_, Option<T>> {
    match place.lock() {
        Ok(guard) => guard,
        Err(poisoned) => poisoned.into_inner(),
    }
}

/// `std::mem::replace` on the place that the guard holds: `value` goes
/// in, what was there comes out, and the guard is dropped.  Other handles
/// may have put anything there, so nothing is claimed of what comes out.
#[verifier::external_body]
fn replace_held<T>(mut guard: MutexGuard<'_, Option<T>>, value: Option<T>) -> Option<T> {
    std::mem::replace(&mut *guard, value)
}

/// A handle on a shared place that holds at most one value.  A write
/// replaces what is there; a read empties the place.
#[verifier::reject_recursive_types(T)]
pub struct OverwriteSlot<T> {
    inner: Arc<Mutex<Option<T>>>,
}

impl<T> Clone for OverwriteSlot<T> {
    /// Another handle on the same place.
    fn clone(&self) -> (r: Self)
        ensures
            r == *self,
    {
        OverwriteSlot { inner: share(&self.inner) }
    }
}

impl<T> OverwriteSlot<T> {
    /// Two handles on one new, empty place.
    pub fn new() -> (r: (Self, Self))
        ensures
            r.0 == r.1,
    {
        let v = OverwriteSlot { inner: Arc::new(empty_place()) };
        (v.clone(), v)
    }

    /// Puts `value` in the place, dropping what was there.
    pub fn write(&self, value: T) {
        let guard = lock_place(&self.inner);
        let _ = replace_held(guard, Some(value));
    }

    /// Empties the place and returns what was there, if anything.
    pub fn try_read(&self) -> Option<T> {
        let guard = lock_place(&self.inner);
        replace_held(guard, None)
    }
}

} // verus!
