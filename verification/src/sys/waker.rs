//! Wakers as the runtime sees them: handles that are stored, compared,
//! copied and fired, and never opened.

use crate::sys::scheduler::Scheduler;
use std::task::Waker;
use vstd::prelude::*;

verus! {

/// `std::task::Waker`, carried through as an opaque value.
///
/// In contracts, two wakers are equal when they wake the same task.
#[verifier::external_type_specification]
#[verifier::external_body]
pub struct ExWaker(Waker);

/// `Waker::clone`: a second handle that wakes the same task.
#[verifier::external_body]
pub(crate) fn clone_waker(waker: &Waker) -> (copy: Waker)
    ensures
        copy == *waker,
{
    waker.clone()
}

/// `Waker::will_wake`: a best-effort comparison. When it answers `true` the
/// two wakers wake the same task; when it answers `false` nothing is known.
#[verifier::external_body]
pub(crate) fn will_wake(waker: &Waker, other: &Waker) -> (same: bool)
    ensures
        same ==> *waker == *other,
{
    waker.will_wake(other)
}

/// `Waker::wake`: fires the waker and consumes it. What the task's waker
/// does is outside this function's contract.
#[verifier::external_body]
pub(crate) fn wake_waker(waker: Waker) {
    waker.wake()
}

/// What the runtime's own waker does when it is fired: it marks the task
/// `key` as runnable in the worker's scheduler, once.
pub fn wake(scheduler: &mut Scheduler, key: usize)
    requires
        old(scheduler)@.wf(),
    ensures
        final(scheduler)@ == old(scheduler)@.wake(key),
        final(scheduler)@.wf(),
{
    scheduler.wake(key);
}

} // verus!
