//! The run queue for keys that are small and dense: the same FIFO as in
//! `scheduler`, with the marks of the queued keys kept in a bit set, one bit
//! per key, in place of a hash set.

use crate::sys::scheduler::{lemma_fetch_keeps_wf, lemma_spawn_keeps_wf, RunQueue};
use bit_set::BitSet;
use std::collections::VecDeque;
use vstd::prelude::*;

verus! {

/// The set of queued keys, held in a `bit_set::BitSet`.
///
/// The set type is generic in its block type, bound by a trait that the
/// verifier does not know, so it is wrapped here and not declared by itself.
/// The verifier does not look inside; what the set holds is `bits`.
#[verifier::external_body]
pub struct Marks {
    set: BitSet,
}

/// The keys that a `Marks` holds.
pub uninterp spec fn bits(marks: Marks) -> Set<usize>;

/// `BitSet::new`: a set without elements.
#[verifier::external_body]
fn bits_new() -> (marks: Marks)
    ensures
        bits(marks) == Set::<usize>::empty(),
{
    Marks { set: BitSet::new() }
}

/// `BitSet::contains`: whether the integer is in the set.
#[verifier::external_body]
fn bits_contains(marks: &Marks, key: usize) -> (present: bool)
    ensures
        present == bits(*marks).contains(key),
{
    marks.set.contains(key)
}

/// `BitSet::insert`: adds the integer, and returns `true` exactly when the
/// set did not hold it before. The set grows to `key + 1` bits, a number
/// that must exist.
#[verifier::external_body]
fn bits_insert(marks: &mut Marks, key: usize) -> (fresh: bool)
    requires
        key < usize::MAX,
    ensures
        fresh == !bits(*old(marks)).contains(key),
        bits(*final(marks)) == bits(*old(marks)).insert(key),
{
    marks.set.insert(key)
}

/// `BitSet::remove`: takes the integer out, and returns `true` exactly when
/// the set held it before.
#[verifier::external_body]
fn bits_remove(marks: &mut Marks, key: usize) -> (present: bool)
    ensures
        present == bits(*old(marks)).contains(key),
        bits(*final(marks)) == bits(*old(marks)).remove(key),
{
    marks.set.remove(key)
}

/// The run queue of ready task keys, for dense keys.
pub struct Scheduler {
    queue: VecDeque<usize>,
    in_queue: Marks,
}

impl View for Scheduler {
    type V = RunQueue;

    closed spec fn view(&self) -> RunQueue {
        RunQueue { fifo: self.queue@, queued: bits(self.in_queue) }
    }
}

impl Scheduler {
    /// An empty scheduler.
    pub fn new() -> (s: Scheduler)
        ensures
            s@ == RunQueue::empty(),
            s@.wf(),
    {
        let s = Scheduler { queue: VecDeque::new(), in_queue: bits_new() };
        proof {
            assert(s@.queued =~= s@.fifo.to_set());
        }
        s
    }

    /// Queues `key` as a new task at the tail, and returns the key.
    ///
    /// To spawn a key that is queued already is an error of the caller. The
    /// largest integer is no key: the bit set has no room for it.
    pub fn spawn(&mut self, key: usize) -> (r: usize)
        requires
            old(self)@.wf(),
            !old(self)@.queued.contains(key),
            key < usize::MAX,
        ensures
            final(self)@ == old(self)@.spawn(key),
            final(self)@.wf(),
            r == key,
    {
        let _fresh = bits_insert(&mut self.in_queue, key);
        self.queue.push_back(key);
        proof {
            lemma_spawn_keeps_wf(old(self)@, key);
        }
        key
    }

    /// Queues `key` at the tail unless it is queued already.
    pub fn wake(&mut self, key: usize)
        requires
            old(self)@.wf(),
            key < usize::MAX,
        ensures
            final(self)@ == old(self)@.wake(key),
            final(self)@.wf(),
    {
        if !bits_contains(&self.in_queue, key) {
            self.queue.push_back(key);
            let _fresh = bits_insert(&mut self.in_queue, key);
            proof {
                lemma_spawn_keeps_wf(old(self)@, key);
            }
        }
    }

    /// Takes the key at the head of the queue, if there is one.
    pub fn fetch_next_task_for_tick(&mut self) -> (next: Option<usize>)
        requires
            old(self)@.wf(),
        ensures
            next == old(self)@.head(),
            final(self)@ == old(self)@.fetch_next(),
            final(self)@.wf(),
    {
        match self.queue.pop_front() {
            Some(key) => {
                let _present = bits_remove(&mut self.in_queue, key);
                proof {
                    assert(old(self)@.fifo.drop_first() =~= old(self)@.fifo.subrange(
                        1,
                        old(self)@.fifo.len() as int,
                    ));
                    lemma_fetch_keeps_wf(old(self)@);
                }
                Some(key)
            },
            None => None,
        }
    }

    /// Whether `key` is queued.
    pub fn contains(&self, key: usize) -> (present: bool)
        ensures
            present == self@.queued.contains(key),
    {
        bits_contains(&self.in_queue, key)
    }

    /// The number of queued keys.
    pub fn len(&self) -> (n: usize)
        ensures
            n == self@.fifo.len(),
    {
        self.queue.len()
    }

    /// Whether no key is queued.
    pub fn is_empty(&self) -> (empty: bool)
        ensures
            empty == (self@.fifo.len() == 0),
    {
        self.queue.len() == 0
    }
}

} // verus!
