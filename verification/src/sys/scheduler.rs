//! The run queue: a FIFO of task keys with a set that tells which keys are
//! queued, so that waking a task twice queues it once.

use std::collections::VecDeque;
use vstd::prelude::*;

verus! {

/// The set of queued keys, held in a `hashbrown::HashSet<usize>`.
///
/// The set type has an allocator parameter, bound by a trait that hashbrown
/// does not export, so it is wrapped here and not declared by itself. The
/// verifier does not look inside; what the set holds is `members`.
#[verifier::external_body]
pub struct Membership {
    keys: hashbrown::HashSet<usize>,
}

/// The keys that a `Membership` holds.
pub uninterp spec fn members(m: Membership) -> Set<usize>;

/// `hashbrown::HashSet::new`: a set without elements.
#[verifier::external_body]
fn membership_new() -> (m: Membership)
    ensures
        members(m) == Set::<usize>::empty(),
{
    Membership { keys: hashbrown::HashSet::new() }
}

/// `hashbrown::HashSet::contains`: whether the key is in the set.
#[verifier::external_body]
fn membership_contains(m: &Membership, key: usize) -> (present: bool)
    ensures
        present == members(*m).contains(key),
{
    m.keys.contains(&key)
}

/// `hashbrown::HashSet::insert`: adds the key, and returns `true` exactly
/// when the set did not hold it before.
#[verifier::external_body]
fn membership_insert(m: &mut Membership, key: usize) -> (fresh: bool)
    ensures
        fresh == !members(*old(m)).contains(key),
        members(*final(m)) == members(*old(m)).insert(key),
{
    m.keys.insert(key)
}

/// `hashbrown::HashSet::remove`: takes the key out, and returns `true`
/// exactly when the set held it before.
#[verifier::external_body]
fn membership_remove(m: &mut Membership, key: usize) -> (present: bool)
    ensures
        present == members(*old(m)).contains(key),
        members(*final(m)) == members(*old(m)).remove(key),
{
    m.keys.remove(&key)
}

/// The mathematical state of a scheduler: the queue from head to tail, and
/// the keys marked as queued.
pub struct RunQueue {
    pub fifo: Seq<usize>,
    pub queued: Set<usize>,
}

impl RunQueue {
    /// The state of a new scheduler.
    pub open spec fn empty() -> RunQueue {
        RunQueue { fifo: Seq::empty(), queued: Set::empty() }
    }

    /// A key is marked exactly when it is in the queue, and no key is in the
    /// queue twice.
    pub open spec fn wf(self) -> bool {
        &&& self.queued == self.fifo.to_set()
        &&& self.fifo.no_duplicates()
    }

    /// The state after `key` was queued as a new task.
    pub open spec fn spawn(self, key: usize) -> RunQueue {
        RunQueue { fifo: self.fifo.push(key), queued: self.queued.insert(key) }
    }

    /// The state after `key` was woken: unchanged when the key is queued
    /// already.
    pub open spec fn wake(self, key: usize) -> RunQueue {
        if self.queued.contains(key) {
            self
        } else {
            self.spawn(key)
        }
    }

    /// The key that the next fetch returns.
    pub open spec fn head(self) -> Option<usize> {
        if self.fifo.len() > 0 {
            Some(self.fifo[0])
        } else {
            None
        }
    }

    /// The state after a fetch.
    pub open spec fn fetch_next(self) -> RunQueue {
        if self.fifo.len() > 0 {
            RunQueue { fifo: self.fifo.drop_first(), queued: self.queued.remove(self.fifo[0]) }
        } else {
            self
        }
    }

    /// The state after `key` was woken `times` times in a row.
    pub open spec fn wake_repeatedly(self, key: usize, times: nat) -> RunQueue
        decreases times,
    {
        if times == 0 {
            self
        } else {
            self.wake(key).wake_repeatedly(key, (times - 1) as nat)
        }
    }
}

/// One call on a scheduler.
pub enum Call {
    Spawn(usize),
    Wake(usize),
    FetchNext,
}

impl Call {
    /// Whether the call may be made in state `q`: a key that is queued
    /// cannot be spawned.
    pub open spec fn allowed(self, q: RunQueue) -> bool {
        match self {
            Call::Spawn(key) => !q.queued.contains(key),
            _ => true,
        }
    }

    /// The state after the call.
    pub open spec fn apply(self, q: RunQueue) -> RunQueue {
        match self {
            Call::Spawn(key) => q.spawn(key),
            Call::Wake(key) => q.wake(key),
            Call::FetchNext => q.fetch_next(),
        }
    }
}

/// Whether each of `calls`, made in turn from state `q`, is allowed.
pub open spec fn all_allowed(q: RunQueue, calls: Seq<Call>) -> bool
    decreases calls.len(),
{
    if calls.len() == 0 {
        true
    } else {
        calls[0].allowed(q) && all_allowed(calls[0].apply(q), calls.drop_first())
    }
}

/// The state after `calls` were made in turn from state `q`.
pub open spec fn apply_all(q: RunQueue, calls: Seq<Call>) -> RunQueue
    decreases calls.len(),
{
    if calls.len() == 0 {
        q
    } else {
        apply_all(calls[0].apply(q), calls.drop_first())
    }
}

/// In a consistent scheduler, the marked keys are the keys of the queue,
/// counted: a marked key is in the queue once, any other key not at all.
pub proof fn lemma_marked_keys_are_queued_once(q: RunQueue, key: usize)
    requires
        q.wf(),
    ensures
        q.fifo.to_multiset().count(key) == (if q.queued.contains(key) {
            1nat
        } else {
            0nat
        }),
{
    q.fifo.lemma_multiset_has_no_duplicates();
    vstd::seq_lib::to_multiset_contains(q.fifo, key);
    assert(q.queued.contains(key) <==> q.fifo.contains(key));
    assert(q.fifo.to_multiset().contains(key) <==> q.fifo.to_multiset().count(key) > 0);
}

/// Spawning a key that is not queued keeps the queue and its marks in step.
pub proof fn lemma_spawn_keeps_wf(q: RunQueue, key: usize)
    requires
        q.wf(),
        !q.queued.contains(key),
    ensures
        q.spawn(key).wf(),
{
    let after = q.spawn(key);
    assert(!q.fifo.contains(key));
    assert(after.fifo.no_duplicates());
    assert forall|k: usize| after.queued.contains(k) <==> after.fifo.contains(k) by {
        if k == key {
            assert(after.fifo[after.fifo.len() - 1] == key);
        } else if q.fifo.contains(k) {
            let i = choose|i: int| 0 <= i < q.fifo.len() && q.fifo[i] == k;
            assert(after.fifo[i] == k);
        }
    }
    assert(after.queued =~= after.fifo.to_set());
}

/// A fetch keeps the queue and its marks in step.
pub proof fn lemma_fetch_keeps_wf(q: RunQueue)
    requires
        q.wf(),
    ensures
        q.fetch_next().wf(),
{
    if q.fifo.len() > 0 {
        let after = q.fetch_next();
        let head = q.fifo[0];
        assert forall|k: usize| after.queued.contains(k) <==> after.fifo.contains(k) by {
            if after.fifo.contains(k) {
                let i = choose|i: int| 0 <= i < after.fifo.len() && after.fifo[i] == k;
                assert(q.fifo[i + 1] == k);
            }
            if after.queued.contains(k) {
                let i = choose|i: int| 0 <= i < q.fifo.len() && q.fifo[i] == k;
                assert(i != 0);
                assert(after.fifo[i - 1] == k);
            }
        }
        assert(after.queued =~= after.fifo.to_set());
    }
}

/// Whatever allowed call is made, a key stays marked exactly when it is in
/// the queue, and stays there at most once.
pub proof fn lemma_call_keeps_wf(q: RunQueue, call: Call)
    requires
        q.wf(),
        call.allowed(q),
    ensures
        call.apply(q).wf(),
{
    match call {
        Call::Spawn(key) => lemma_spawn_keeps_wf(q, key),
        Call::Wake(key) => {
            if !q.queued.contains(key) {
                lemma_spawn_keeps_wf(q, key);
            }
        },
        Call::FetchNext => lemma_fetch_keeps_wf(q),
    }
}

/// After any sequence of allowed `spawn`, `wake` and `fetch_next` calls on a
/// consistent scheduler, the marked keys are exactly the keys in the queue,
/// and no key is in the queue more than once.
pub proof fn lemma_calls_keep_wf(q: RunQueue, calls: Seq<Call>)
    requires
        q.wf(),
        all_allowed(q, calls),
    ensures
        apply_all(q, calls).wf(),
        apply_all(q, calls).queued == apply_all(q, calls).fifo.to_set(),
        apply_all(q, calls).fifo.no_duplicates(),
    decreases calls.len(),
{
    if calls.len() > 0 {
        lemma_call_keeps_wf(q, calls[0]);
        lemma_calls_keep_wf(calls[0].apply(q), calls.drop_first());
    }
}

/// The same holds of every scheduler that started empty.
pub proof fn lemma_calls_from_empty_keep_wf(calls: Seq<Call>)
    requires
        all_allowed(RunQueue::empty(), calls),
    ensures
        apply_all(RunQueue::empty(), calls).wf(),
{
    assert(RunQueue::empty().queued =~= RunQueue::empty().fifo.to_set());
    lemma_calls_keep_wf(RunQueue::empty(), calls);
}

/// Waking a key a second time changes nothing.
pub proof fn lemma_wake_is_idempotent(q: RunQueue, key: usize)
    ensures
        q.wake(key).wake(key) == q.wake(key),
{
}

/// However often a key is woken in a row, at least once, the scheduler ends
/// as after one wake: the key is in the queue once.
pub proof fn lemma_wakes_coalesce(q: RunQueue, key: usize, times: nat)
    requires
        times >= 1,
    ensures
        q.wake_repeatedly(key, times) == q.wake(key),
    decreases times,
{
    if times > 1 {
        lemma_wakes_coalesce(q.wake(key), key, (times - 1) as nat);
    } else {
        assert(q.wake(key).wake_repeatedly(key, 0) == q.wake(key));
    }
}

/// The run queue of ready task keys.
pub struct Scheduler {
    queue: VecDeque<usize>,
    in_queue: Membership,
}

impl View for Scheduler {
    type V = RunQueue;

    closed spec fn view(&self) -> RunQueue {
        RunQueue { fifo: self.queue@, queued: members(self.in_queue) }
    }
}

impl Scheduler {
    /// An empty scheduler.
    pub fn new() -> (s: Scheduler)
        ensures
            s@ == RunQueue::empty(),
            s@.wf(),
    {
        let s = Scheduler { queue: VecDeque::new(), in_queue: membership_new() };
        proof {
            assert(s@.queued =~= s@.fifo.to_set());
        }
        s
    }

    /// Queues `key` as a new task at the tail, and returns the key.
    ///
    /// To spawn a key that is queued already is an error of the caller.
    pub fn spawn(&mut self, key: usize) -> (r: usize)
        requires
            old(self)@.wf(),
            !old(self)@.queued.contains(key),
        ensures
            final(self)@ == old(self)@.spawn(key),
            final(self)@.wf(),
            r == key,
    {
        let _fresh = membership_insert(&mut self.in_queue, key);
        self.queue.push_back(key);
        proof {
            lemma_spawn_keeps_wf(old(self)@, key);
        }
        key
    }

    /// Queues `key` at the tail unless it is queued already.
    pub fn wake(&mut self, key: usize)
        requires
            old(self)@.wf(),
        ensures
            final(self)@ == old(self)@.wake(key),
            final(self)@.wf(),
    {
        if !membership_contains(&self.in_queue, key) {
            self.queue.push_back(key);
            let _fresh = membership_insert(&mut self.in_queue, key);
            proof {
                lemma_spawn_keeps_wf(old(self)@, key);
            }
        }
    }

    /// Takes the key at the head of the queue, if there is one.
    pub fn fetch_next_task_for_tick(&mut self) -> (next: Option<usize>)
        requires
            old(self)@.wf(),
        ensures
            next == old(self)@.head(),
            final(self)@ == old(self)@.fetch_next(),
            final(self)@.wf(),
    {
        match self.queue.pop_front() {
            Some(key) => {
                let _present = membership_remove(&mut self.in_queue, key);
                proof {
                    assert(old(self)@.fifo.drop_first() =~= old(self)@.fifo.subrange(
                        1,
                        old(self)@.fifo.len() as int,
                    ));
                    lemma_fetch_keeps_wf(old(self)@);
                }
                Some(key)
            },
            None => None,
        }
    }

    /// Whether `key` is queued.
    pub fn contains(&self, key: usize) -> (present: bool)
        ensures
            present == self@.queued.contains(key),
    {
        membership_contains(&self.in_queue, key)
    }

    /// The number of queued keys.
    pub fn len(&self) -> (n: usize)
        ensures
            n == self@.fifo.len(),
    {
        self.queue.len()
    }

    /// Whether no key is queued.
    pub fn is_empty(&self) -> (empty: bool)
        ensures
            empty == (self@.fifo.len() == 0),
    {
        self.queue.len() == 0
    }
}

} // verus!
