//! A task: a suspendable computation whose output type has been erased.

use futures::task::LocalFutureObj;
use std::future::Future;
use std::pin::Pin;
use std::task::{Context, Waker};
use vstd::prelude::*;

verus! {

/// `futures::task::LocalFutureObj`: an owned future behind a pointer,
/// carried through as an opaque value.
#[verifier::external_type_specification]
#[verifier::external_body]
#[verifier::reject_recursive_types(T)]
pub struct ExLocalFutureObj<'a, T>(LocalFutureObj<'a, T>);

/// `Future::poll` of a `LocalFutureObj`, with a context made of `waker`:
/// whether the future has finished. What the future does while it runs, and
/// whether it finishes, is its own affair.
///
/// A future that has finished may panic when it is polled again; `Task`
/// polls none that has told it so.
#[verifier::external_body]
fn poll_future(future: &mut LocalFutureObj<'static, ()>, waker: &Waker) -> (ready: bool) {
    let mut cx = Context::from_waker(waker);
    Pin::new(future).poll(&mut cx).is_ready()
}

/// A spawned computation that produces nothing: its output leaves through a
/// channel inside the future. The task remembers whether its future has
/// finished, and does not poll it again after that.
pub struct Task {
    inner: LocalFutureObj<'static, ()>,
    finished: bool,
}

impl Task {
    /// The future that the task runs.
    pub closed spec fn future(&self) -> LocalFutureObj<'static, ()> {
        self.inner
    }

    /// Whether a poll has found the future finished.
    pub closed spec fn finished(&self) -> bool {
        self.finished
    }

    /// A task that runs `inner`, and has not been polled.
    pub fn new(inner: LocalFutureObj<'static, ()>) -> (task: Task)
        ensures
            task.future() == inner,
            !task.finished(),
    {
        Task { inner, finished: false }
    }

    /// Whether a poll has found the future finished.
    pub fn is_finished(&self) -> (finished: bool)
        ensures
            finished == self.finished(),
    {
        self.finished
    }

    /// Polls the computation once, and returns whether it has finished. The
    /// task remembers the answer.
    ///
    /// A task that has finished is not polled again: it stays as it is, and
    /// the answer is `true`.
    pub fn poll_task(&mut self, waker: &Waker) -> (finished: bool)
        ensures
            final(self).finished() == finished,
            old(self).finished() ==> finished && *final(self) == *old(self),
    {
        if self.finished {
            return true;
        }
        let finished = poll_future(&mut self.inner, waker);
        self.finished = finished;
        finished
    }
}

} // verus!
