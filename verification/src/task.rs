//! The join handle: the receiving end of the channel through which a task
//! hands out its output.
//!
//! The handle holds the receiver and decides what a poll of the channel
//! means. The poll itself is an await on the channel, and is made by
//! whoever drives the handle: take the receiver out, poll it, and hand
//! `settle` what came back.

use tokio::sync::oneshot::error::RecvError;
use tokio::sync::oneshot::Receiver;
use vstd::prelude::*;

verus! {

/// `tokio::sync::oneshot::Receiver`, carried through as an opaque value.
#[verifier::external_type_specification]
#[verifier::external_body]
#[verifier::reject_recursive_types(T)]
pub struct ExReceiver<T>(Receiver<T>);

/// `tokio::sync::oneshot::error::RecvError`: the sender is gone, and has
/// sent nothing.
#[verifier::external_type_specification]
#[verifier::external_body]
pub struct ExRecvError(RecvError);

/// The task was dropped before it finished: its output will never come.
#[derive(Clone, Copy, Debug, PartialEq, Eq, Structural)]
pub struct JoinError;

/// The handle that the spawner of a task keeps. It resolves to the task's
/// output, once. Dropping it leaves the task running.
#[verifier::reject_recursive_types(T)]
pub struct JoinHandle<T> {
    inner: Option<Receiver<T>>,
}

impl<T> JoinHandle<T> {
    /// The receiver, while the handle holds it.
    pub closed spec fn receiver(&self) -> Option<Receiver<T>> {
        self.inner
    }

    /// Whether the handle holds its receiver: it has not resolved, and the
    /// receiver is not out for a poll.
    pub open spec fn live(&self) -> bool {
        self.receiver() is Some
    }

    /// A handle that waits on `inner`.
    pub fn new(inner: Receiver<T>) -> (handle: Self)
        ensures
            handle.receiver() == Some(inner),
    {
        JoinHandle { inner: Some(inner) }
    }

    /// Whether the handle holds its receiver.
    pub fn is_live(&self) -> (live: bool)
        ensures
            live == self.live(),
    {
        self.inner.is_some()
    }

    /// Takes the receiver out for a poll, if the handle holds it. The
    /// handle holds none until `settle` gives it back.
    pub fn take(&mut self) -> (receiver: Option<Receiver<T>>)
        ensures
            receiver == old(self).receiver(),
            final(self).receiver() is None,
    {
        self.inner.take()
    }

    /// Takes what a poll of the channel gave: a pending receiver is kept
    /// for the next poll, an output resolves the handle to that output, and
    /// a lost sender resolves it to an error. A handle that has resolved
    /// holds no receiver any more.
    pub fn settle(&mut self, polled: Result<Result<T, RecvError>, Receiver<T>>) -> (resolved:
        Option<Result<T, JoinError>>)
        ensures
            match polled {
                Ok(Ok(output)) => {
                    &&& resolved == Some(Ok::<T, JoinError>(output))
                    &&& !final(self).live()
                },
                Ok(Err(_)) => {
                    &&& resolved == Some(Err::<T, JoinError>(JoinError))
                    &&& !final(self).live()
                },
                Err(receiver) => {
                    &&& resolved is None
                    &&& final(self).receiver() == Some(receiver)
                },
            },
    {
        match polled {
            Ok(Ok(output)) => {
                self.inner = None;
                Some(Ok(output))
            },
            Ok(Err(_)) => {
                self.inner = None;
                Some(Err(JoinError))
            },
            Err(receiver) => {
                self.inner = Some(receiver);
                None
            },
        }
    }
}

} // verus!
