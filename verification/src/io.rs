//! Operations in two steps: built first, with room to set ring flags, and
//! submitted later. The completion of a submitted operation goes through a
//! function that the builder chose, which turns the raw entry and the
//! payload into the caller's result.

use crate::sys::driver::{
    cancelled, polled, sqe_stamped, sqe_user_data, Cqe, Driver, Lifetime, Op, Payload,
};
use io_uring::squeue;
use std::task::Waker;
use vstd::prelude::*;

verus! {

/// `io_uring::squeue::Flags`: the flags of a submission, carried through.
#[verifier::external_type_specification]
#[verifier::external_body]
pub struct ExSubmissionFlags(squeue::Flags);

/// `squeue::Entry::clone`: a copy of the entry, bit for bit.
#[verifier::external_body]
fn sqe_clone(entry: &squeue::Entry) -> (copy: squeue::Entry)
    ensures
        copy == *entry,
{
    entry.clone()
}

/// The entry that `squeue::Entry::flags` makes of an entry and flags: the
/// same entry with the given flags set, besides those that were set.
pub uninterp spec fn sqe_flagged(entry: squeue::Entry, flags: squeue::Flags) -> squeue::Entry;

/// `squeue::Entry::flags`: the same entry with the given flags set as well.
/// Its user data stays.
#[verifier::external_body]
fn sqe_add_flags(entry: squeue::Entry, flags: squeue::Flags) -> (flagged: squeue::Entry)
    ensures
        flagged == sqe_flagged(entry, flags),
        sqe_user_data(flagged) == sqe_user_data(entry),
{
    entry.flags(flags)
}

/// Whether a batch of `size` submissions needs the ring drained first:
/// it does when fewer than `size` slots of the submission queue are free.
pub fn prepare_batch(remaining: usize, size: usize) -> (drain: bool)
    ensures
        drain == (remaining < size),
{
    remaining < size
}

/// An operation that has not been submitted: its entry, its payload, and
/// the function that reads its completion.
pub struct Unsubmitted<D, F> {
    entry: squeue::Entry,
    data: D,
    post_op: F,
}

/// A submitted operation: its handle, and the function that reads its
/// completion, until it has been used.
pub struct Submitted<D, F> {
    op: Op<D>,
    post_op: Option<F>,
}

impl<D, F> Unsubmitted<D, F> {
    /// The entry of the operation.
    pub closed spec fn entry(&self) -> squeue::Entry {
        self.entry
    }

    /// The payload.
    pub closed spec fn data(&self) -> D {
        self.data
    }

    /// The function that reads the completion.
    pub closed spec fn post_op(&self) -> F {
        self.post_op
    }

    /// An operation made of its three parts.
    pub fn from_raw(entry: squeue::Entry, data: D, post_op: F) -> (unsubmitted: Self)
        ensures
            unsubmitted.entry() == entry,
            unsubmitted.data() == data,
            unsubmitted.post_op() == post_op,
    {
        Unsubmitted { entry, data, post_op }
    }

    /// Sets ring flags on the entry, besides those that are set: the entry
    /// is from now on what `squeue::Entry::flags` makes of it and `flags`.
    /// Its user data, the payload and the function stay.
    pub fn apply_flags(&mut self, flags: squeue::Flags)
        ensures
            final(self).entry() == sqe_flagged(old(self).entry(), flags),
            sqe_user_data(final(self).entry()) == sqe_user_data(old(self).entry()),
            final(self).data() == old(self).data(),
            final(self).post_op() == old(self).post_op(),
    {
        self.entry = sqe_add_flags(sqe_clone(&self.entry), flags);
    }

    /// The entry to put into the submission queue: what
    /// `squeue::Entry::user_data` makes of the stored entry, with the flags
    /// that were applied to it, and the key of the next operation of
    /// `driver`.
    pub fn stamped(&self, driver: &Driver) -> (entry: squeue::Entry)
        ensures
            entry == sqe_stamped(self.entry(), driver.next_key() as u64),
            sqe_user_data(entry) == driver.next_key(),
            !driver@.contains_key(driver.next_key()),
    {
        driver.stamp(sqe_clone(&self.entry))
    }

    /// Records the operation, whose stamped entry is in the submission
    /// queue, with `driver`.
    pub fn submit(self, driver: &mut Driver) -> (submitted: Submitted<D, F>)
        requires
            old(driver).wf(),
        ensures
            final(driver).wf(),
            submitted.op().key() == old(driver).next_key(),
            submitted.op().data() == Some(self.data()),
            submitted.post_op() == Some(self.post_op()),
            !old(driver)@.contains_key(submitted.op().key()),
            final(driver)@ == old(driver)@.insert(submitted.op().key(), Lifetime::Submitted),
    {
        let op = driver.push(self.data);
        Submitted { op, post_op: Some(self.post_op) }
    }
}

impl<D, F> Submitted<D, F> {
    /// The handle of the operation.
    pub closed spec fn op(&self) -> Op<D> {
        self.op
    }

    /// The function that reads the completion, until it has been used.
    pub closed spec fn post_op(&self) -> Option<F> {
        self.post_op
    }

    /// The key of the operation.
    pub fn get_key(&self) -> (key: usize)
        ensures
            key == self.op().key(),
    {
        self.op.get_key()
    }

    /// Whether the operation has not handed out its result yet.
    pub fn is_pending(&self) -> (pending: bool)
        ensures
            pending == (self.op().data() is Some && self.post_op() is Some),
    {
        self.op.is_pending() && self.post_op.is_some()
    }

    /// Polls the operation for its owner, and leaves the completion unread.
    ///
    /// If the completion has arrived, the operation leaves the table, and
    /// its entry and the payload are returned, for `resolve` to read.
    /// Otherwise the operation waits, and `waker` is the waker to fire on
    /// completion.
    pub fn poll_op(&mut self, driver: &mut Driver, waker: &Waker) -> (ready: Option<(Cqe, D)>)
        requires
            old(driver).wf(),
            old(self).op().data() is Some,
            old(self).op().belongs_to(old(driver)),
        ensures
            final(driver).wf(),
            final(self).op().key() == old(self).op().key(),
            final(self).post_op() == old(self).post_op(),
            final(driver)@ == polled(old(driver)@, old(self).op().key(), *waker),
            match old(driver)@[old(self).op().key()] {
                Lifetime::Completed(cqe) => {
                    &&& ready == Some((cqe, old(self).op().data()->0))
                    &&& cqe.user_data == old(self).op().key()
                    &&& final(driver).next_key() == old(self).op().key()
                    &&& final(self).op().data() is None
                },
                _ => {
                    &&& ready is None
                    &&& final(driver).next_key() == old(driver).next_key()
                    &&& final(self).op().data() == old(self).op().data()
                },
            },
    {
        self.op.poll(driver, waker)
    }

    /// Reads a completion with the function that the builder chose, which
    /// is used up by that.
    pub fn resolve<O>(&mut self, cqe: Cqe, data: D) -> (outcome: O) where F: FnOnce(Cqe, D) -> O
        requires
            old(self).post_op() is Some,
            old(self).post_op()->0.requires((cqe, data)),
        ensures
            old(self).post_op()->0.ensures((cqe, data), outcome),
            final(self).post_op() is None,
            final(self).op() == old(self).op(),
    {
        let post_op = self.post_op.take().unwrap();
        post_op(cqe, data)
    }

    /// Polls the operation for its owner.
    ///
    /// If the completion has arrived, its entry and the payload go through
    /// the function that the builder chose, and the outcome is returned;
    /// the operation has left the table. Otherwise the operation waits, and
    /// `waker` is the waker to fire on completion.
    pub fn poll<O>(&mut self, driver: &mut Driver, waker: &Waker) -> (ready: Option<O>) where
        F: FnOnce(Cqe, D) -> O,

        requires
            old(driver).wf(),
            old(self).op().data() is Some,
            old(self).post_op() is Some,
            old(self).op().belongs_to(old(driver)),
            match old(driver)@[old(self).op().key()] {
                Lifetime::Completed(cqe) => old(self).post_op()->0.requires(
                    (cqe, old(self).op().data()->0),
                ),
                _ => true,
            },
        ensures
            final(driver).wf(),
            final(self).op().key() == old(self).op().key(),
            final(driver)@ == polled(old(driver)@, old(self).op().key(), *waker),
            match old(driver)@[old(self).op().key()] {
                Lifetime::Completed(cqe) => {
                    &&& ready is Some
                    &&& old(self).post_op()->0.ensures((cqe, old(self).op().data()->0), ready->0)
                    &&& cqe.user_data == old(self).op().key()
                    &&& final(driver).next_key() == old(self).op().key()
                    &&& final(self).op().data() is None
                    &&& final(self).post_op() is None
                },
                _ => {
                    &&& ready is None
                    &&& final(driver).next_key() == old(driver).next_key()
                    &&& final(self).op().data() == old(self).op().data()
                    &&& final(self).post_op() == old(self).post_op()
                },
            },
    {
        match self.poll_op(driver, waker) {
            Some((cqe, data)) => Some(self.resolve(cqe, data)),
            None => None,
        }
    }

    /// Abandons the operation, as dropping it does. The payload stays with
    /// `driver` until the completion has arrived.
    pub fn cancel(&mut self, driver: &mut Driver) where D: 'static
        requires
            old(driver).wf(),
            old(self).op().belongs_to(old(driver)),
        ensures
            final(driver).wf(),
            final(self).op().key() == old(self).op().key(),
            final(self).op().data() is None,
            final(self).post_op() == old(self).post_op(),
            old(self).op().data() is None ==> final(driver)@ == old(driver)@,
            old(self).op().data() is Some ==> exists|payload: Payload|
                final(driver)@ == #[trigger] cancelled(old(driver)@, old(self).op().key(), payload),
            final(driver).next_key() == (if old(self).op().data() is Some
                && old(driver)@[old(self).op().key()] is Completed {
                old(self).op().key()
            } else {
                old(driver).next_key()
            }),
    {
        self.op.cancel(driver);
    }
}

} // verus!
