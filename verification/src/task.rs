//! The task-wakeup primitives shared by the synchronization primitives.

use std::task::Waker;
use vstd::prelude::*;

verus! {

#[verifier::external_type_specification]
#[verifier::external_body]
pub struct ExWaker(std::task::Waker);

/// The outcome of an attempt to make progress: either the operation is
/// complete and yields its value, or the caller has to wait until its
/// waker is woken.
#[derive(Debug, PartialEq, Eq, Structural)]
pub enum Poll<T> {
    /// The operation completed with the given value.
    Ready(T),
    /// The operation can not complete yet.
    Pending,
}

impl<T> Poll<T> {
    /// Returns whether the operation completed.
    pub fn is_ready(&self) -> (ready: bool)
        ensures
            ready == (self is Ready),
    {
        match self {
            Poll::Ready(_) => true,
            Poll::Pending => false,
        }
    }

    /// Returns whether the caller has to wait.
    pub fn is_pending(&self) -> (pending: bool)
        ensures
            pending == (self is Pending),
    {
        !self.is_ready()
    }
}

/// Calls `Waker::wake`, which schedules the task that the waker belongs to.
/// Nothing is stated about the scheduling itself.
#[verifier::external_body]
pub(crate) fn wake(waker: Waker) {
    waker.wake()
}

/// Calls `Waker::wake_by_ref`, which schedules the task that the waker
/// belongs to without consuming the waker. Nothing is stated about the
/// scheduling itself.
#[verifier::external_body]
pub(crate) fn wake_by_ref(waker: &Waker) {
    waker.wake_by_ref()
}

/// Calls `Waker::clone`. The clone wakes the same task; as a `Waker` is
/// opaque here, nothing is stated about the result.
#[verifier::external_body]
pub(crate) fn clone_waker(waker: &Waker) -> (cloned: Waker) {
    waker.clone()
}

/// Calls `Waker::will_wake`, which compares the two wakers by the address
/// of their data; as that depends on the machine, nothing is stated about
/// the answer.
#[verifier::external_body]
pub(crate) fn will_wake(waker: &Waker, other: &Waker) -> (same: bool) {
    waker.will_wake(other)
}

/// Stores a waker for the current task in `task`, keeping the stored one if
/// it already wakes the same task.
pub(crate) fn update_waker_ref(task: &mut Option<Waker>, waker: &Waker)
    ensures
        *final(task) is Some,
{
    let replace = match task {
        Some(stored) => !will_wake(stored, waker),
        None => true,
    };
    if replace {
        *task = Some(clone_waker(waker));
    }
}

} // verus!
