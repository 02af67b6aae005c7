//! The worker: the table of live tasks, and the decisions of the loop that
//! polls them.
//!
//! The worker does not poll while it holds the scheduler, because a task
//! that runs may wake others. So one turn of the loop is two calls: `tick`
//! picks the task, and `poll` runs it.

use crate::sys::scheduler::{lemma_fetch_keeps_wf, RunQueue, Scheduler};
use crate::sys::task::Task;
use slab::Slab;
use std::collections::VecDeque;
use std::task::Waker;
use vstd::prelude::*;

verus! {

/// The most tasks that one tick moves from the inbox into the task table,
/// so that tasks that are ready now are not starved by newcomers.
pub const INTAKE_LIMIT: usize = 64;

/// The number of polls in a row, with no park between them, after which the
/// worker lets the driver publish submissions and take completions, without
/// blocking.
pub const FLUSH_INTERVAL: u64 = 128;

/// The occupied slots of the task table, by key. The task table is a slab
/// like the operation table of the driver, with tasks for entries.
pub uninterp spec fn task_entries(slab: Slab<Task>) -> Map<usize, Task>;

/// The key that the task table gives to its next insertion.
pub uninterp spec fn task_vacant_key(slab: Slab<Task>) -> usize;

/// `Slab::with_capacity`: a table without entries.
#[verifier::external_body]
fn tasks_with_capacity(capacity: usize) -> (table: Slab<Task>)
    ensures
        task_entries(table) == (Map::<usize, Task>::empty()),
{
    Slab::with_capacity(capacity)
}

/// `Slab::vacant_key`: the key of the next insertion, which no entry has.
#[verifier::external_body]
fn tasks_vacant_key(slab: &Slab<Task>) -> (key: usize)
    ensures
        key == task_vacant_key(*slab),
        !task_entries(*slab).contains_key(key),
{
    slab.vacant_key()
}

/// `Slab::insert`: stores the task under the vacant key and returns that
/// key. The other entries stay.
#[verifier::external_body]
fn tasks_insert(slab: &mut Slab<Task>, task: Task) -> (key: usize)
    ensures
        key == task_vacant_key(*old(slab)),
        !task_entries(*old(slab)).contains_key(key),
        task_entries(*final(slab)) == task_entries(*old(slab)).insert(key, task),
{
    slab.insert(task)
}

/// `Slab::contains`: whether the key has an entry.
#[verifier::external_body]
fn tasks_contains(slab: &Slab<Task>, key: usize) -> (present: bool)
    ensures
        present == task_entries(*slab).contains_key(key),
{
    slab.contains(key)
}

/// `Slab::is_empty`: whether no key has an entry.
#[verifier::external_body]
fn tasks_is_empty(slab: &Slab<Task>) -> (empty: bool)
    ensures
        empty == (forall|key: usize| !task_entries(*slab).contains_key(key)),
{
    slab.is_empty()
}

/// `Slab::get_mut` on an occupied key: the task, to be run in place.
/// Whatever happens to it, the other entries stay, and no key is freed.
#[verifier::external_body]
fn tasks_get_mut(slab: &mut Slab<Task>, key: usize) -> (task: &mut Task)
    requires
        task_entries(*old(slab)).contains_key(key),
    ensures
        *task == task_entries(*old(slab))[key],
        task_entries(*final(slab)) == task_entries(*old(slab)).insert(key, *final(task)),
        task_vacant_key(*final(slab)) == task_vacant_key(*old(slab)),
{
    slab.get_mut(key).unwrap()
}

/// `Slab::remove` on an occupied key: takes the task out and returns it.
/// The key is the next one to be given out.
#[verifier::external_body]
fn tasks_remove(slab: &mut Slab<Task>, key: usize) -> (task: Task)
    requires
        task_entries(*old(slab)).contains_key(key),
    ensures
        task == task_entries(*old(slab))[key],
        task_entries(*final(slab)) == task_entries(*old(slab)).remove(key),
        task_vacant_key(*final(slab)) == key,
{
    slab.remove(key)
}

/// The inbox of spawned tasks that the worker has not taken in yet.
///
/// It is a plain queue, not a channel between threads: tasks are spawned on
/// the worker's own thread only.
pub struct Spawner {
    sender: VecDeque<Task>,
}

impl View for Spawner {
    type V = Seq<Task>;

    closed spec fn view(&self) -> Seq<Task> {
        self.sender@
    }
}

impl Spawner {
    /// An empty inbox.
    pub fn new() -> (spawner: Spawner)
        ensures
            spawner@ == Seq::<Task>::empty(),
    {
        Spawner { sender: VecDeque::with_capacity(4096) }
    }

    /// Puts `task` at the end of the inbox.
    pub fn spawn(&mut self, task: Task)
        ensures
            final(self)@ == old(self)@.push(task),
    {
        self.sender.push_back(task);
    }

    /// The number of tasks that wait in the inbox.
    pub fn len(&self) -> (n: usize)
        ensures
            n == self@.len(),
    {
        self.sender.len()
    }

    /// Whether the inbox is empty.
    pub fn is_empty(&self) -> (empty: bool)
        ensures
            empty == (self@.len() == 0),
    {
        self.sender.len() == 0
    }
}

/// What a tick found.
#[derive(Clone, Copy, Debug, PartialEq, Eq, Structural)]
pub enum Tick {
    /// The task under this key is to be polled now.
    Poll(usize),
    /// No task is ready, and tasks are alive: wait for completions.
    QueueEmpty,
    /// No task is ready, and none is alive: the runtime is done.
    TasksEmpty,
}

/// What the loop around the worker does next.
#[derive(Clone, Copy, Debug, PartialEq, Eq, Structural)]
pub enum Action {
    /// Submit what is queued and take the completions that are there.
    Flush,
    /// Poll the task under this key.
    Poll(usize),
    /// Submit, and block until a completion arrives.
    Park,
    /// Return: all tasks have finished.
    Exit,
}

/// The failure of an intake: the task table was about to give a new task a
/// key that is still queued in the scheduler.
#[derive(Clone, Copy, Debug, PartialEq, Eq, Structural)]
pub struct DoubleSpawn {
    /// The key.
    pub key: usize,
    /// The number of tasks that were taken in before.
    pub taken: usize,
}

/// The mathematical state that a tick works on: the live tasks by key, the
/// run queue, and the inbox from its head.
pub struct Round {
    pub tasks: Map<usize, Task>,
    pub queue: RunQueue,
    pub inbox: Seq<Task>,
}

impl Round {
    /// The number of tasks that an intake moves when nothing stops it.
    pub open spec fn due(self) -> nat {
        if self.inbox.len() <= INTAKE_LIMIT {
            self.inbox.len()
        } else {
            INTAKE_LIMIT as nat
        }
    }

    /// Every queued key names a live task.
    pub open spec fn no_stale_key(self) -> bool {
        forall|key: usize| self.queue.queued.contains(key) ==> self.tasks.contains_key(key)
    }

    /// What a tick finds once the intake is over.
    pub open spec fn pick(self) -> Tick {
        match self.queue.head() {
            Some(key) if self.tasks.contains_key(key) => Tick::Poll(key),
            _ => if self.tasks.dom() =~= Set::<usize>::empty() {
                Tick::TasksEmpty
            } else {
                Tick::QueueEmpty
            },
        }
    }

    /// The state after the pick: the head of the queue is gone.
    pub open spec fn picked(self) -> Round {
        Round { tasks: self.tasks, queue: self.queue.fetch_next(), inbox: self.inbox }
    }
}

/// Whether `post` is `pre` after the first `count` tasks of the inbox were
/// taken in: each got a key of its own that was neither in use nor queued,
/// sits in the task table under it, and is queued at the tail, in the order
/// of the inbox. Nothing else changed.
pub open spec fn took_in(pre: Round, post: Round, count: nat) -> bool {
    let keys = post.queue.fifo.skip(pre.queue.fifo.len() as int);
    &&& count <= pre.inbox.len()
    &&& post.inbox == pre.inbox.skip(count as int)
    &&& post.queue.fifo == pre.queue.fifo + keys
    &&& keys.len() == count
    &&& keys.no_duplicates()
    &&& post.queue.queued == pre.queue.queued.union(keys.to_set())
    &&& forall|i: int|
        0 <= i < count ==> {
            &&& !pre.tasks.contains_key(#[trigger] keys[i])
            &&& !pre.queue.queued.contains(keys[i])
            &&& post.tasks.contains_key(keys[i])
            &&& post.tasks[keys[i]] == pre.inbox[i]
        }
    &&& forall|key: usize| #[trigger]
        pre.tasks.contains_key(key) ==> post.tasks.contains_key(key) && post.tasks[key]
            == pre.tasks[key]
    &&& forall|key: usize| #[trigger]
        post.tasks.contains_key(key) ==> pre.tasks.contains_key(key) || keys.contains(key)
}

/// Whether `post` is `pre` after an intake that stopped with `stop`: fewer
/// tasks than were due have been taken in, and the key that the task table
/// would give next, `next_key`, is still queued.
pub open spec fn stopped(pre: Round, post: Round, next_key: usize, stop: DoubleSpawn) -> bool {
    &&& stop.taken < pre.due()
    &&& took_in(pre, post, stop.taken as nat)
    &&& stop.key == next_key
    &&& post.queue.queued.contains(stop.key)
}

/// Whether `post` is `pre` after a tick that found `found`: the tasks that
/// were due have been taken in, and then the head of the queue was picked.
pub open spec fn ticked(pre: Round, post: Round, found: Tick) -> bool {
    exists|mid: Round|
        {
            &&& #[trigger] took_in(pre, mid, pre.due())
            &&& found == mid.pick()
            &&& post == mid.picked()
        }
}

/// The number of polls in a row after a tick, when it was `polled` before:
/// a poll is one more, and a park starts the count again.
pub open spec fn polled_after(polled: u64, tick: Tick) -> int {
    match tick {
        Tick::Poll(_) => polled + 1,
        Tick::QueueEmpty => 0,
        Tick::TasksEmpty => polled as int,
    }
}

/// What the run loop does after a tick.
pub open spec fn action_of(tick: Tick) -> Action {
    match tick {
        Tick::Poll(key) => Action::Poll(key),
        Tick::QueueEmpty => Action::Park,
        Tick::TasksEmpty => Action::Exit,
    }
}

/// The worker's own state: the live tasks, and the number of polls since
/// the driver last had its turn, by a flush or by a park.
pub struct Worker {
    tasks: Slab<Task>,
    polled: u64,
}

impl Worker {
    /// The live tasks, by key.
    pub closed spec fn tasks(&self) -> Map<usize, Task> {
        task_entries(self.tasks)
    }

    /// The key that the next task gets.
    pub closed spec fn next_key(&self) -> usize {
        task_vacant_key(self.tasks)
    }

    /// The number of polls since the driver last had its turn.
    pub closed spec fn polled(&self) -> u64 {
        self.polled
    }

    /// The worker's invariant: the poll counter is never beyond the flush
    /// interval.
    pub open spec fn wf(&self) -> bool {
        self.polled() <= FLUSH_INTERVAL
    }

    /// The state that a tick works on.
    pub open spec fn round(&self, scheduler: &Scheduler, spawner: &Spawner) -> Round {
        Round { tasks: self.tasks(), queue: scheduler@, inbox: spawner@ }
    }

    /// A worker without tasks.
    pub fn new() -> (worker: Worker)
        ensures
            worker.tasks() == Map::<usize, Task>::empty(),
            worker.polled() == 0,
            worker.wf(),
    {
        Worker { tasks: tasks_with_capacity(4096), polled: 0 }
    }

    /// Whether a task lives under `key`.
    pub fn contains(&self, key: usize) -> (present: bool)
        ensures
            present == self.tasks().contains_key(key),
    {
        tasks_contains(&self.tasks, key)
    }

    /// Whether no task is alive.
    pub fn is_empty(&self) -> (empty: bool)
        ensures
            empty == (self.tasks().dom() =~= Set::<usize>::empty()),
    {
        let empty = tasks_is_empty(&self.tasks);
        proof {
            if empty {
                assert(self.tasks().dom() =~= Set::<usize>::empty());
            } else {
                let key = choose|key: usize| task_entries(self.tasks).contains_key(key);
                assert(self.tasks().dom().contains(key));
            }
        }
        empty
    }

    /// Moves tasks from the head of the inbox into the task table and queues
    /// each under its new key, up to `INTAKE_LIMIT` of them.
    ///
    /// Returns the number of tasks moved. The intake stops with an error,
    /// and leaves the rest of the inbox alone, when the next key of the
    /// task table is still queued: that task would be spawned twice. This
    /// cannot happen while every queued key names a live task.
    pub fn intake(&mut self, scheduler: &mut Scheduler, spawner: &mut Spawner) -> (taken: Result<
        usize,
        DoubleSpawn,
    >)
        requires
            old(scheduler)@.wf(),
        ensures
            final(scheduler)@.wf(),
            final(self).polled() == old(self).polled(),
            match taken {
                Ok(count) => {
                    &&& count == old(self).round(old(scheduler), old(spawner)).due()
                    &&& took_in(
                        old(self).round(old(scheduler), old(spawner)),
                        final(self).round(final(scheduler), final(spawner)),
                        count as nat,
                    )
                },
                Err(stop) => stopped(
                    old(self).round(old(scheduler), old(spawner)),
                    final(self).round(final(scheduler), final(spawner)),
                    final(self).next_key(),
                    stop,
                ),
            },
            old(self).round(old(scheduler), old(spawner)).no_stale_key() ==> taken is Ok,
    {
        let ghost pre = self.round(scheduler, spawner);
        let mut taken: usize = 0;
        proof {
            assert(pre.inbox.skip(0) =~= pre.inbox);
            assert(pre.queue.fifo.skip(pre.queue.fifo.len() as int) =~= Seq::<usize>::empty());
            assert(pre.queue.fifo + Seq::<usize>::empty() =~= pre.queue.fifo);
            assert(pre.queue.queued.union(Seq::<usize>::empty().to_set()) =~= pre.queue.queued);
        }
        while taken < INTAKE_LIMIT
            invariant
                pre == old(self).round(old(scheduler), old(spawner)),
                pre.queue.wf(),
                taken <= INTAKE_LIMIT,
                taken <= pre.due(),
                scheduler@.wf(),
                self.polled() == old(self).polled(),
                took_in(pre, self.round(scheduler, spawner), taken as nat),
                pre.no_stale_key() ==> self.round(scheduler, spawner).no_stale_key(),
            ensures
                taken == pre.due(),
            decreases INTAKE_LIMIT - taken,
        {
            if spawner.sender.len() == 0 {
                break ;
            }
            let key = tasks_vacant_key(&self.tasks);
            proof {
                assert(spawner@.len() == pre.inbox.len() - taken);
            }
            if scheduler.contains(key) {
                proof {
                    let now = self.round(scheduler, spawner);
                    assert(now.queue.queued.contains(key) && !now.tasks.contains_key(key));
                    assert(!now.no_stale_key());
                }
                return Err(DoubleSpawn { key, taken });
            }
            let ghost before = self.round(scheduler, spawner);
            let task = spawner.sender.pop_front().unwrap();
            let key = tasks_insert(&mut self.tasks, task);
            scheduler.spawn(key);
            proof {
                let after = self.round(scheduler, spawner);
                lemma_took_one_more(pre, before, after, taken as nat, key);
            }
            taken += 1;
        }
        Ok(taken)
    }

    /// One tick: takes in spawned tasks, then takes the next ready key from
    /// the scheduler and tells what to do.
    ///
    /// A key whose task is gone is dropped from the queue, and the tick then
    /// answers as if the queue had been empty.
    pub fn tick(&mut self, scheduler: &mut Scheduler, spawner: &mut Spawner) -> (tick: Result<
        Tick,
        DoubleSpawn,
    >)
        requires
            old(scheduler)@.wf(),
        ensures
            final(scheduler)@.wf(),
            final(self).polled() == old(self).polled(),
            match tick {
                Ok(found) => ticked(
                    old(self).round(old(scheduler), old(spawner)),
                    final(self).round(final(scheduler), final(spawner)),
                    found,
                ),
                Err(stop) => stopped(
                    old(self).round(old(scheduler), old(spawner)),
                    final(self).round(final(scheduler), final(spawner)),
                    final(self).next_key(),
                    stop,
                ),
            },
            old(self).round(old(scheduler), old(spawner)).no_stale_key() ==> tick is Ok,
    {
        match self.intake(scheduler, spawner) {
            Ok(_) => {},
            Err(stop) => {
                return Err(stop);
            },
        }
        let ghost mid = self.round(scheduler, spawner);
        let found = self.select(scheduler);
        proof {
            assert(self.round(scheduler, spawner) == mid.picked());
            let pre = old(self).round(old(scheduler), old(spawner));
            assert(took_in(pre, mid, pre.due()));
        }
        Ok(found)
    }

    /// The second half of a tick: takes the next ready key from the
    /// scheduler and tells what to do.
    pub fn select(&mut self, scheduler: &mut Scheduler) -> (found: Tick)
        requires
            old(scheduler)@.wf(),
        ensures
            final(scheduler)@.wf(),
            final(scheduler)@ == old(scheduler)@.fetch_next(),
            final(self).tasks() == old(self).tasks(),
            final(self).next_key() == old(self).next_key(),
            final(self).polled() == old(self).polled(),
            found == (Round {
                tasks: old(self).tasks(),
                queue: old(scheduler)@,
                inbox: Seq::empty(),
            }).pick(),
    {
        if let Some(key) = scheduler.fetch_next_task_for_tick() {
            if self.contains(key) {
                return Tick::Poll(key);
            }
        }
        if self.is_empty() {
            Tick::TasksEmpty
        } else {
            Tick::QueueEmpty
        }
    }

    /// Polls the task under `key` once with `waker`, and frees its slot if
    /// it has finished. Returns whether it has. The key of a finished task
    /// is the next one to be given out.
    ///
    /// A task that had finished before is not polled again: it leaves the
    /// table at once. A task that stays in the table has not finished.
    pub fn poll(&mut self, key: usize, waker: &Waker) -> (finished: bool)
        requires
            old(self).tasks().contains_key(key),
        ensures
            old(self).tasks()[key].finished() ==> finished,
            final(self).tasks().contains_key(key) == !finished,
            !finished ==> !final(self).tasks()[key].finished(),
            final(self).tasks().remove(key) == old(self).tasks().remove(key),
            final(self).next_key() == (if finished {
                key
            } else {
                old(self).next_key()
            }),
            final(self).polled() == old(self).polled(),
    {
        let task = tasks_get_mut(&mut self.tasks, key);
        let finished = task.poll_task(waker);
        self.retire(key, finished);
        proof {
            assert(final(self).tasks().remove(key) =~= old(self).tasks().remove(key));
        }
        finished
    }

    /// Takes the outcome of a poll of the task under `key`: a task that has
    /// finished leaves the table, and its key is the next one to be given
    /// out; a task that has not stays where it is.
    pub fn retire(&mut self, key: usize, finished: bool)
        requires
            old(self).tasks().contains_key(key),
        ensures
            final(self).tasks() == (if finished {
                old(self).tasks().remove(key)
            } else {
                old(self).tasks()
            }),
            final(self).next_key() == (if finished {
                key
            } else {
                old(self).next_key()
            }),
            final(self).polled() == old(self).polled(),
    {
        if finished {
            let _ = tasks_remove(&mut self.tasks, key);
        }
    }

    /// One decision of the run loop.
    ///
    /// After `FLUSH_INTERVAL` polls in a row the driver is flushed first, and
    /// the count starts again. Otherwise the worker ticks: a task to poll
    /// counts as one more poll, an empty queue parks the thread, which also
    /// starts the count again, and an empty task table ends the run.
    pub fn step(&mut self, scheduler: &mut Scheduler, spawner: &mut Spawner) -> (next: Result<
        Action,
        DoubleSpawn,
    >)
        requires
            old(self).wf(),
            old(scheduler)@.wf(),
        ensures
            final(self).wf(),
            final(scheduler)@.wf(),
            old(self).polled() == FLUSH_INTERVAL ==> {
                &&& next == Ok::<Action, DoubleSpawn>(Action::Flush)
                &&& final(self).polled() == 0
                &&& final(self).round(final(scheduler), final(spawner)) == old(self).round(
                    old(scheduler),
                    old(spawner),
                )
            },
            old(self).polled() != FLUSH_INTERVAL ==> match next {
                Ok(action) => exists|found: Tick|
                    {
                        &&& #[trigger] ticked(
                            old(self).round(old(scheduler), old(spawner)),
                            final(self).round(final(scheduler), final(spawner)),
                            found,
                        )
                        &&& action == action_of(found)
                        &&& final(self).polled() == polled_after(old(self).polled(), found)
                    },
                Err(stop) => {
                    &&& stopped(
                        old(self).round(old(scheduler), old(spawner)),
                        final(self).round(final(scheduler), final(spawner)),
                        final(self).next_key(),
                        stop,
                    )
                    &&& final(self).polled() == old(self).polled()
                },
            },
            old(self).round(old(scheduler), old(spawner)).no_stale_key() ==> next is Ok,
    {
        if self.polled == FLUSH_INTERVAL {
            self.polled = 0;
            return Ok(Action::Flush);
        }
        match self.tick(scheduler, spawner) {
            Ok(found) => {
                let ghost after = self.round(scheduler, spawner);
                let action = match found {
                    Tick::Poll(key) => {
                        self.polled = self.polled + 1;
                        Action::Poll(key)
                    },
                    Tick::QueueEmpty => {
                        self.polled = 0;
                        Action::Park
                    },
                    Tick::TasksEmpty => Action::Exit,
                };
                proof {
                    assert(self.round(scheduler, spawner) == after);
                    assert(ticked(old(self).round(old(scheduler), old(spawner)), after, found));
                }
                Ok(action)
            },
            Err(stop) => Err(stop),
        }
    }
}

/// Taking in one more task extends an intake by one.
proof fn lemma_took_one_more(pre: Round, before: Round, after: Round, count: nat, key: usize)
    requires
        took_in(pre, before, count),
        pre.queue.wf(),
        before.queue.wf(),
        before.inbox.len() > 0,
        !before.tasks.contains_key(key),
        !before.queue.queued.contains(key),
        after.tasks == before.tasks.insert(key, before.inbox[0]),
        after.queue == before.queue.spawn(key),
        after.inbox == before.inbox.subrange(1, before.inbox.len() as int),
        pre.no_stale_key() ==> before.no_stale_key(),
    ensures
        took_in(pre, after, count + 1),
        count + 1 <= pre.due() || count >= INTAKE_LIMIT,
        pre.no_stale_key() ==> after.no_stale_key(),
{
    let n = pre.queue.fifo.len() as int;
    let keys0 = before.queue.fifo.skip(n);
    let keys1 = after.queue.fifo.skip(n);
    assert(keys1 =~= keys0.push(key));
    assert(after.queue.fifo =~= pre.queue.fifo + keys1);
    assert(after.inbox =~= pre.inbox.skip(count as int + 1));
    assert(before.inbox[0] == pre.inbox[count as int]);
    assert(!keys0.contains(key)) by {
        if keys0.contains(key) {
            let i = choose|i: int| 0 <= i < keys0.len() && keys0[i] == key;
            assert(before.tasks.contains_key(keys0[i]));
        }
    }
    assert(keys1.no_duplicates());
    assert(keys1.to_set() =~= keys0.to_set().insert(key)) by {
        assert forall|k: usize| keys1.to_set().contains(k) <==> keys0.to_set().insert(
            key,
        ).contains(k) by {
            if keys1.contains(k) {
                let i = choose|i: int| 0 <= i < keys1.len() && keys1[i] == k;
                if i < keys0.len() {
                    assert(keys0[i] == k);
                }
            }
            if keys0.contains(k) {
                let i = choose|i: int| 0 <= i < keys0.len() && keys0[i] == k;
                assert(keys1[i] == k);
            }
            if k == key {
                assert(keys1[keys1.len() - 1] == key);
            }
        }
    }
    assert(after.queue.queued =~= pre.queue.queued.union(keys1.to_set()));
    assert forall|i: int| 0 <= i < count + 1 implies {
        &&& !pre.tasks.contains_key(#[trigger] keys1[i])
        &&& !pre.queue.queued.contains(keys1[i])
        &&& after.tasks.contains_key(keys1[i])
        &&& after.tasks[keys1[i]] == pre.inbox[i]
    } by {
        if i < count {
            assert(keys1[i] == keys0[i]);
            assert(keys0[i] != key);
        } else {
            assert(keys1[i] == key);
            if pre.tasks.contains_key(key) {
                assert(before.tasks.contains_key(key));
            }
            if pre.queue.queued.contains(key) {
                assert(before.queue.queued.contains(key));
            }
        }
    }
    assert forall|k: usize| #[trigger] after.tasks.contains_key(k) implies pre.tasks.contains_key(
        k,
    ) || keys1.contains(k) by {
        if k == key {
            assert(keys1[keys1.len() - 1] == key);
        } else {
            assert(before.tasks.contains_key(k));
            if !pre.tasks.contains_key(k) {
                let i = choose|i: int| 0 <= i < keys0.len() && keys0[i] == k;
                assert(keys1[i] == k);
            }
        }
    }
}

/// An intake keeps the queue consistent, and keeps every queued key alive if
/// every queued key was alive before.
pub proof fn lemma_intake_keeps_order(pre: Round, post: Round, count: nat)
    requires
        pre.queue.wf(),
        took_in(pre, post, count),
    ensures
        post.queue.wf(),
        pre.no_stale_key() ==> post.no_stale_key(),
        pre.no_stale_key() ==> post.picked().no_stale_key(),
{
    let keys = post.queue.fifo.skip(pre.queue.fifo.len() as int);
    assert forall|i: int, j: int|
        0 <= i < post.queue.fifo.len() && 0 <= j < post.queue.fifo.len() && i != j implies
        post.queue.fifo[i] != post.queue.fifo[j] by {
        let n = pre.queue.fifo.len() as int;
        if i < n && j >= n {
            assert(post.queue.fifo[j] == keys[j - n]);
            assert(pre.queue.fifo.contains(post.queue.fifo[i]));
        } else if j < n && i >= n {
            assert(post.queue.fifo[i] == keys[i - n]);
            assert(pre.queue.fifo.contains(post.queue.fifo[j]));
        } else if i >= n && j >= n {
            assert(post.queue.fifo[i] == keys[i - n]);
            assert(post.queue.fifo[j] == keys[j - n]);
        }
    }
    assert forall|key: usize| post.queue.queued.contains(key) <==> post.queue.fifo.contains(
        key,
    ) by {
        let n = pre.queue.fifo.len() as int;
        if post.queue.fifo.contains(key) {
            let i = choose|i: int| 0 <= i < post.queue.fifo.len() && post.queue.fifo[i] == key;
            if i < n {
                assert(pre.queue.fifo.contains(key));
            } else {
                assert(keys[i - n] == key);
            }
        }
        if pre.queue.queued.contains(key) {
            let i = choose|i: int| 0 <= i < pre.queue.fifo.len() && pre.queue.fifo[i] == key;
            assert(post.queue.fifo[i] == key);
        }
        if keys.contains(key) {
            let i = choose|i: int| 0 <= i < keys.len() && keys[i] == key;
            assert(post.queue.fifo[n + i] == key);
        }
    }
    assert(post.queue.queued =~= post.queue.fifo.to_set());
    if pre.no_stale_key() {
        assert forall|key: usize| post.queue.queued.contains(key) implies post.tasks.contains_key(
            key,
        ) by {
            if keys.contains(key) {
                let i = choose|i: int| 0 <= i < keys.len() && keys[i] == key;
                assert(post.tasks.contains_key(keys[i]));
            } else {
                assert(pre.tasks.contains_key(key));
            }
        }
    }
}

/// After an intake, the pick finds no task alive exactly when none was alive
/// and none waited in the inbox.
proof fn lemma_pick_after_intake(pre: Round, mid: Round)
    requires
        took_in(pre, mid, pre.due()),
    ensures
        mid.pick() is TasksEmpty <==> pre.tasks.dom() =~= Set::<usize>::empty() && pre.inbox.len()
            == 0,
{
    let keys = mid.queue.fifo.skip(pre.queue.fifo.len() as int);
    if pre.inbox.len() > 0 {
        assert(mid.tasks.dom().contains(keys[0]));
    }
    if pre.tasks.dom() =~= Set::<usize>::empty() && pre.inbox.len() == 0 {
        assert forall|key: usize| !mid.tasks.dom().contains(key) by {
            if mid.tasks.contains_key(key) {
                assert(pre.tasks.dom().contains(key) || keys.contains(key));
            }
        }
        assert(mid.tasks.dom() =~= Set::<usize>::empty());
    } else if pre.inbox.len() == 0 {
        let key = choose|key: usize| pre.tasks.dom().contains(key);
        assert(pre.tasks.contains_key(key));
        assert(mid.tasks.dom().contains(key));
    }
}

/// A tick keeps the queue consistent, and keeps every queued key alive if
/// every queued key was alive before.
pub proof fn lemma_tick_keeps_order(pre: Round, post: Round, found: Tick)
    requires
        pre.queue.wf(),
        ticked(pre, post, found),
    ensures
        post.queue.wf(),
        pre.no_stale_key() ==> post.no_stale_key(),
{
    let mid = choose|mid: Round|
        {
            &&& #[trigger] took_in(pre, mid, pre.due())
            &&& found == mid.pick()
            &&& post == mid.picked()
        };
    lemma_intake_keeps_order(pre, mid, pre.due());
    lemma_fetch_keeps_wf(mid.queue);
}

/// The worker ends the run when, and only when, no task is alive and none
/// waits in the inbox.
pub proof fn lemma_exit_iff_no_task(pre: Round, post: Round, found: Tick)
    requires
        ticked(pre, post, found),
    ensures
        action_of(found) is Exit <==> pre.tasks.dom() =~= Set::<usize>::empty() && pre.inbox.len()
            == 0,
{
    let mid = choose|mid: Round|
        {
            &&& #[trigger] took_in(pre, mid, pre.due())
            &&& found == mid.pick()
            &&& post == mid.picked()
        };
    lemma_pick_after_intake(pre, mid);
}

/// While every queued key names a live task, the worker ends the run when,
/// and only when, the task table, the run queue and the inbox are all
/// empty. A key that outlived its task is no ready task: the tick that meets
/// it drops it, and the run may end while other such keys are queued.
pub proof fn lemma_exit_iff_idle(pre: Round, post: Round, found: Tick)
    requires
        pre.queue.wf(),
        pre.no_stale_key(),
        ticked(pre, post, found),
    ensures
        action_of(found) is Exit <==> {
            &&& pre.tasks.dom() =~= Set::<usize>::empty()
            &&& pre.queue.fifo.len() == 0
            &&& pre.inbox.len() == 0
        },
        action_of(found) is Exit ==> post.queue.fifo.len() == 0,
{
    lemma_exit_iff_no_task(pre, post, found);
    if pre.queue.fifo.len() > 0 {
        let head = pre.queue.fifo[0];
        assert(pre.queue.fifo.contains(head));
        assert(pre.queue.queued.contains(head));
        assert(pre.tasks.dom().contains(head));
    }
    if action_of(found) is Exit {
        let mid = choose|mid: Round|
            {
                &&& #[trigger] took_in(pre, mid, pre.due())
                &&& found == mid.pick()
                &&& post == mid.picked()
            };
        assert(mid.queue.fifo =~= pre.queue.fifo);
    }
}

} // verus!
