//! The table of in-flight operations and the life cycle of each of them.
//!
//! The driver gives every submission a key, remembers what state the
//! operation is in, and keeps the payload of an abandoned operation until
//! the kernel has reported its completion.

use crate::sys::waker::{clone_waker, wake_waker, will_wake};
use io_uring::squeue;
use slab::Slab;
use std::collections::VecDeque;
use std::task::Waker;
use vstd::prelude::*;

verus! {

/// `slab::Slab`, whose slots the verifier does not see.
#[verifier::external_type_specification]
#[verifier::external_body]
#[verifier::reject_recursive_types(T)]
pub struct ExSlab<T>(Slab<T>);

/// `io_uring::squeue::Entry`: a submission queue entry, carried through.
#[verifier::external_type_specification]
#[verifier::external_body]
pub struct ExSubmissionEntry(squeue::Entry);

/// The user data that a submission queue entry carries, as
/// `squeue::Entry::get_user_data` reads it.
pub uninterp spec fn sqe_user_data(entry: squeue::Entry) -> u64;

/// The entry that `squeue::Entry::user_data` makes of an entry and a number:
/// the same entry with that number as its user data.
pub uninterp spec fn sqe_stamped(entry: squeue::Entry, user_data: u64) -> squeue::Entry;

/// `squeue::Entry::user_data`: the same entry with its user data set.
#[verifier::external_body]
fn sqe_set_user_data(entry: squeue::Entry, user_data: u64) -> (stamped: squeue::Entry)
    ensures
        stamped == sqe_stamped(entry, user_data),
        sqe_user_data(stamped) == user_data,
{
    entry.user_data(user_data)
}

/// A completion queue entry: the user data of the submission it answers,
/// the result code and the flags.
#[derive(Clone, Copy, Debug, PartialEq, Eq, Structural)]
pub struct Cqe {
    pub user_data: u64,
    pub result: i32,
    pub flags: u32,
}

/// What a result code means: the value of a successful operation, or the
/// error number of a failed one.
#[derive(Clone, Copy, Debug, PartialEq, Eq, Structural)]
pub enum Outcome {
    Success(u32),
    Errno(u32),
}

impl Cqe {
    /// An entry made of its three parts.
    pub fn new(user_data: u64, result: i32, flags: u32) -> (cqe: Cqe)
        ensures
            cqe == (Cqe { user_data, result, flags }),
    {
        Cqe { user_data, result, flags }
    }

    /// The user data of the submission that this entry answers.
    pub fn user_data(&self) -> (user_data: u64)
        ensures
            user_data == self.user_data,
    {
        self.user_data
    }

    /// The result code.
    pub fn result(&self) -> (result: i32)
        ensures
            result == self.result,
    {
        self.result
    }

    /// The flags.
    pub fn flags(&self) -> (flags: u32)
        ensures
            flags == self.flags,
    {
        self.flags
    }

    /// What the result code means.
    pub open spec fn spec_outcome(self) -> Outcome {
        if self.result >= 0 {
            Outcome::Success(self.result as u32)
        } else {
            Outcome::Errno((-self.result) as u32)
        }
    }

    /// Reads the result code: a value that is not negative is the value of
    /// the operation, a negative one is the error number, negated.
    pub fn outcome(&self) -> (outcome: Outcome)
        ensures
            outcome == self.spec_outcome(),
    {
        if self.result >= 0 {
            Outcome::Success(self.result as u32)
        } else {
            let wide: i64 = self.result as i64;
            Outcome::Errno((-wide) as u32)
        }
    }
}

/// The payload of an abandoned operation, with its type erased. It is kept
/// only to be released later.
///
/// It holds a `Box<dyn Any>`, a type that the verifier cannot name; so the
/// verifier does not look inside.
#[verifier::external_body]
pub struct Payload {
    held: Box<dyn std::any::Any>,
}

/// `Box::new`, followed by forgetting the type: the payload now owns `data`.
#[verifier::external_body]
fn erase<T: 'static>(data: T) -> Payload {
    Payload { held: Box::new(data) }
}

/// The state of one operation.
pub enum Lifetime {
    /// Handed to the kernel, and not polled yet.
    Submitted,
    /// Polled; the waker is fired when the completion arrives.
    Waiting(Waker),
    /// Abandoned by its owner; the payload waits for the completion.
    Cancelled(Payload),
    /// Completed; the entry waits for its owner.
    Completed(Cqe),
}

/// The state of an operation without what it holds.
#[derive(Clone, Copy, Debug, PartialEq, Eq, Structural)]
pub enum Phase {
    Submitted,
    Waiting,
    Cancelled,
    Completed,
}

impl Lifetime {
    /// The phase that this state belongs to.
    pub open spec fn phase(self) -> Phase {
        match self {
            Lifetime::Submitted => Phase::Submitted,
            Lifetime::Waiting(_) => Phase::Waiting,
            Lifetime::Cancelled(_) => Phase::Cancelled,
            Lifetime::Completed(_) => Phase::Completed,
        }
    }
}

/// The occupied slots of the operation table, by key.
pub uninterp spec fn op_entries(slab: Slab<Lifetime>) -> Map<usize, Lifetime>;

/// The key that the operation table gives to its next insertion.
pub uninterp spec fn op_vacant_key(slab: Slab<Lifetime>) -> usize;

/// `Slab::new`: a table without entries.
#[verifier::external_body]
fn ops_new() -> (table: Slab<Lifetime>)
    ensures
        op_entries(table) == (Map::<usize, Lifetime>::empty()),
{
    Slab::new()
}

/// `Slab::vacant_key`: the key of the next insertion, which no entry has.
#[verifier::external_body]
fn ops_vacant_key(slab: &Slab<Lifetime>) -> (key: usize)
    ensures
        key == op_vacant_key(*slab),
        !op_entries(*slab).contains_key(key),
{
    slab.vacant_key()
}

/// `Slab::insert`: stores the value under the vacant key and returns that
/// key. The other entries stay.
#[verifier::external_body]
fn ops_insert(slab: &mut Slab<Lifetime>, state: Lifetime) -> (key: usize)
    ensures
        key == op_vacant_key(*old(slab)),
        !op_entries(*old(slab)).contains_key(key),
        op_entries(*final(slab)) == op_entries(*old(slab)).insert(key, state),
{
    slab.insert(state)
}

/// `Slab::get`: the entry under the key, if there is one.
#[verifier::external_body]
fn ops_get(slab: &Slab<Lifetime>, key: usize) -> (state: Option<&Lifetime>)
    ensures
        match state {
            Some(found) => op_entries(*slab).contains_key(key) && *found == op_entries(*slab)[key],
            None => !op_entries(*slab).contains_key(key),
        },
{
    slab.get(key)
}

/// `Slab::get_mut` on an occupied key: the entry, to be read and written in
/// place. Writing it changes that entry alone, and frees no key.
#[verifier::external_body]
fn ops_get_mut(slab: &mut Slab<Lifetime>, key: usize) -> (state: &mut Lifetime)
    requires
        op_entries(*old(slab)).contains_key(key),
    ensures
        *state == op_entries(*old(slab))[key],
        op_entries(*final(slab)) == op_entries(*old(slab)).insert(key, *final(state)),
        op_vacant_key(*final(slab)) == op_vacant_key(*old(slab)),
{
    slab.get_mut(key).unwrap()
}

/// `Slab::remove` on an occupied key: takes the entry out and returns it.
/// The key is the next one to be given out.
#[verifier::external_body]
fn ops_remove(slab: &mut Slab<Lifetime>, key: usize) -> (state: Lifetime)
    requires
        op_entries(*old(slab)).contains_key(key),
    ensures
        state == op_entries(*old(slab))[key],
        op_entries(*final(slab)) == op_entries(*old(slab)).remove(key),
        op_vacant_key(*final(slab)) == key,
{
    slab.remove(key)
}

/// Whether the table `ops` can take the completion `cqe`: its user data is
/// the key of an operation that has not completed yet.
pub open spec fn accepts(ops: Map<usize, Lifetime>, cqe: Cqe) -> bool {
    &&& cqe.user_data <= usize::MAX
    &&& ops.contains_key(cqe.user_data as usize)
    &&& !(ops[cqe.user_data as usize] is Completed)
}

/// The table after the completion `cqe` arrived: an abandoned operation
/// leaves the table, any other holds the entry from now on.
pub open spec fn completed(ops: Map<usize, Lifetime>, cqe: Cqe) -> Map<usize, Lifetime> {
    let key = cqe.user_data as usize;
    if ops[key] is Cancelled {
        ops.remove(key)
    } else {
        ops.insert(key, Lifetime::Completed(cqe))
    }
}

/// The waker that the completion `cqe` fires, if the operation was waited
/// for.
pub open spec fn woken(ops: Map<usize, Lifetime>, cqe: Cqe) -> Option<Waker> {
    match ops[cqe.user_data as usize] {
        Lifetime::Waiting(waker) => Some(waker),
        _ => None,
    }
}

/// Whether the table can take the completions `cqes` one after the other.
pub open spec fn accepts_all(ops: Map<usize, Lifetime>, cqes: Seq<Cqe>) -> bool
    decreases cqes.len(),
{
    if cqes.len() == 0 {
        true
    } else {
        accepts(ops, cqes[0]) && accepts_all(completed(ops, cqes[0]), cqes.drop_first())
    }
}

/// The table after the completions `cqes` arrived one after the other.
pub open spec fn completed_all(ops: Map<usize, Lifetime>, cqes: Seq<Cqe>) -> Map<usize, Lifetime>
    decreases cqes.len(),
{
    if cqes.len() == 0 {
        ops
    } else {
        completed_all(completed(ops, cqes[0]), cqes.drop_first())
    }
}

/// The key that the table gives out next after the completion `cqe`
/// arrived: the key of the operation that left, if one left; else the key
/// that was next before, `next_key`.
pub open spec fn freed(ops: Map<usize, Lifetime>, next_key: usize, cqe: Cqe) -> usize {
    if ops[cqe.user_data as usize] is Cancelled {
        cqe.user_data as usize
    } else {
        next_key
    }
}

/// The key that the table gives out next after the completions `cqes`
/// arrived one after the other.
pub open spec fn freed_all(ops: Map<usize, Lifetime>, next_key: usize, cqes: Seq<Cqe>) -> usize
    decreases cqes.len(),
{
    if cqes.len() == 0 {
        next_key
    } else {
        freed_all(completed(ops, cqes[0]), freed(ops, next_key, cqes[0]), cqes.drop_first())
    }
}

/// The wakers that the completions `cqes`, arriving one after the other,
/// fire: the waker of every operation that was waited for, in the order of
/// the completions.
pub open spec fn woken_all(ops: Map<usize, Lifetime>, cqes: Seq<Cqe>) -> Seq<Waker>
    decreases cqes.len(),
{
    if cqes.len() == 0 {
        Seq::empty()
    } else {
        woken_one(ops, cqes[0]) + woken_all(completed(ops, cqes[0]), cqes.drop_first())
    }
}

/// The waker that the completion `cqe` fires, as a sequence of one or none.
pub open spec fn woken_one(ops: Map<usize, Lifetime>, cqe: Cqe) -> Seq<Waker> {
    match woken(ops, cqe) {
        Some(waker) => seq![waker],
        None => Seq::empty(),
    }
}

/// The completions that a drain took: all of them, or those before the one
/// that the table refused.
pub open spec fn taken(cqes: Seq<Cqe>, refused: Option<usize>) -> Seq<Cqe> {
    match refused {
        Some(at) => cqes.take(at as int),
        None => cqes,
    }
}

/// Every completion that waits in the table sits under the key that its
/// user data names.
pub open spec fn keyed(ops: Map<usize, Lifetime>) -> bool {
    forall|key: usize| #[trigger]
        ops.contains_key(key) ==> match ops[key] {
            Lifetime::Completed(cqe) => cqe.user_data == key,
            _ => true,
        }
}

/// Taking completions one after the other, and then one more, is taking
/// the longer sequence.
pub proof fn lemma_completions_extend(ops: Map<usize, Lifetime>, cqes: Seq<Cqe>, last: Cqe)
    ensures
        accepts_all(ops, cqes.push(last)) == (accepts_all(ops, cqes) && accepts(
            completed_all(ops, cqes),
            last,
        )),
        completed_all(ops, cqes.push(last)) == completed(completed_all(ops, cqes), last),
        forall|next_key: usize| #[trigger]
            freed_all(ops, next_key, cqes.push(last)) == freed(
                completed_all(ops, cqes),
                freed_all(ops, next_key, cqes),
                last,
            ),
        woken_all(ops, cqes.push(last)) == woken_all(ops, cqes) + woken_one(
            completed_all(ops, cqes),
            last,
        ),
    decreases cqes.len(),
{
    if cqes.len() == 0 {
        assert(cqes.push(last).drop_first() =~= Seq::<Cqe>::empty());
        assert(cqes.push(last)[0] == last);
        assert(woken_all(completed(ops, last), Seq::<Cqe>::empty()) =~= Seq::<Waker>::empty());
        assert(woken_all(ops, cqes) =~= Seq::<Waker>::empty());
        assert(woken_all(ops, cqes.push(last)) =~= woken_one(ops, last) + woken_all(
            completed(ops, last),
            Seq::<Cqe>::empty(),
        ));
        assert(woken_all(ops, cqes.push(last)) =~= woken_all(ops, cqes) + woken_one(
            completed_all(ops, cqes),
            last,
        ));
        assert(accepts_all(completed(ops, last), Seq::<Cqe>::empty()));
        assert(completed_all(completed(ops, last), Seq::<Cqe>::empty()) == completed(ops, last));
        assert forall|next_key: usize| #[trigger]
            freed_all(ops, next_key, cqes.push(last)) == freed(ops, next_key, last) by {
            assert(freed_all(
                completed(ops, last),
                freed(ops, next_key, last),
                Seq::<Cqe>::empty(),
            ) == freed(ops, next_key, last));
        }
    } else {
        assert(cqes.push(last).drop_first() =~= cqes.drop_first().push(last));
        lemma_completions_extend(completed(ops, cqes[0]), cqes.drop_first(), last);
        assert(woken_all(ops, cqes.push(last)) =~= woken_all(ops, cqes) + woken_one(
            completed_all(ops, cqes),
            last,
        ));
        assert forall|next_key: usize| #[trigger]
            freed_all(ops, next_key, cqes.push(last)) == freed(
                completed_all(ops, cqes),
                freed_all(ops, next_key, cqes),
                last,
            ) by {
            let after = freed(ops, next_key, cqes[0]);
            assert(freed_all(completed(ops, cqes[0]), after, cqes.drop_first().push(last))
                == freed(
                completed_all(completed(ops, cqes[0]), cqes.drop_first()),
                freed_all(completed(ops, cqes[0]), after, cqes.drop_first()),
                last,
            ));
        }
    }
}

/// A table that takes a sequence of completions takes every shorter one.
pub proof fn lemma_completions_prefix(ops: Map<usize, Lifetime>, cqes: Seq<Cqe>, len: int)
    requires
        0 <= len <= cqes.len(),
        accepts_all(ops, cqes),
    ensures
        accepts_all(ops, cqes.take(len)),
    decreases cqes.len() - len,
{
    if len < cqes.len() {
        lemma_completions_prefix(ops, cqes, len + 1);
        assert(cqes.take(len + 1) =~= cqes.take(len).push(cqes[len]));
        lemma_completions_extend(ops, cqes.take(len), cqes[len]);
    } else {
        assert(cqes.take(len) =~= cqes);
    }
}

/// The table after the owner of the operation under `key` polled it with
/// `waker`: a completed operation leaves the table, any other waits for its
/// completion with that waker.
pub open spec fn polled(ops: Map<usize, Lifetime>, key: usize, waker: Waker) -> Map<
    usize,
    Lifetime,
> {
    if ops[key] is Completed {
        ops.remove(key)
    } else {
        ops.insert(key, Lifetime::Waiting(waker))
    }
}

/// The table after the owner of the operation under `key` abandoned it and
/// left `payload` behind: a completed operation leaves the table, any other
/// keeps the payload until its completion arrives.
pub open spec fn cancelled(ops: Map<usize, Lifetime>, key: usize, payload: Payload) -> Map<
    usize,
    Lifetime,
> {
    if ops[key] is Completed {
        ops.remove(key)
    } else {
        ops.insert(key, Lifetime::Cancelled(payload))
    }
}

/// One thing that happens to the operation table.
pub enum Event {
    /// A new operation was recorded under this key.
    Push(usize),
    /// The owner of the operation under this key polled it with this waker.
    Poll(usize, Waker),
    /// The owner of the operation under this key abandoned it, and left
    /// this payload behind.
    Cancel(usize, Payload),
    /// The kernel reported this completion.
    Complete(Cqe),
}

impl Event {
    /// Whether the event can happen to the table `ops`: a new operation
    /// gets a free key, only an operation that still has an owner is polled
    /// or abandoned, and a completion answers an operation that has none
    /// yet.
    pub open spec fn allowed(self, ops: Map<usize, Lifetime>) -> bool {
        match self {
            Event::Push(key) => !ops.contains_key(key),
            Event::Poll(key, _) => ops.contains_key(key) && !(ops[key] is Cancelled),
            Event::Cancel(key, _) => ops.contains_key(key) && !(ops[key] is Cancelled),
            Event::Complete(cqe) => accepts(ops, cqe),
        }
    }

    /// The table after the event.
    pub open spec fn apply(self, ops: Map<usize, Lifetime>) -> Map<usize, Lifetime> {
        match self {
            Event::Push(key) => ops.insert(key, Lifetime::Submitted),
            Event::Poll(key, waker) => polled(ops, key, waker),
            Event::Cancel(key, payload) => cancelled(ops, key, payload),
            Event::Complete(cqe) => completed(ops, cqe),
        }
    }

    /// Whether the event is the completion of the operation under `key`.
    pub open spec fn completes(self, key: usize) -> bool {
        match self {
            Event::Complete(cqe) => cqe.user_data == key,
            _ => false,
        }
    }
}

/// Whether each of `events`, happening in turn to the table `ops`, is
/// allowed.
pub open spec fn all_allowed(ops: Map<usize, Lifetime>, events: Seq<Event>) -> bool
    decreases events.len(),
{
    if events.len() == 0 {
        true
    } else {
        events[0].allowed(ops) && all_allowed(events[0].apply(ops), events.drop_first())
    }
}

/// The table after `events` happened in turn.
pub open spec fn apply_all(ops: Map<usize, Lifetime>, events: Seq<Event>) -> Map<usize, Lifetime>
    decreases events.len(),
{
    if events.len() == 0 {
        ops
    } else {
        apply_all(events[0].apply(ops), events.drop_first())
    }
}

/// Whatever happens, a completion that waits in the table sits under the
/// key that its user data names.
pub proof fn lemma_event_keeps_keyed(ops: Map<usize, Lifetime>, event: Event)
    requires
        keyed(ops),
        event.allowed(ops),
    ensures
        keyed(event.apply(ops)),
{
    let next = event.apply(ops);
    assert forall|key: usize| #[trigger] next.contains_key(key) implies match next[key] {
        Lifetime::Completed(cqe) => cqe.user_data == key,
        _ => true,
    } by {
        if ops.contains_key(key) {
        }
    }
}

/// The same, of any sequence of events.
pub proof fn lemma_events_keep_keyed(ops: Map<usize, Lifetime>, events: Seq<Event>)
    requires
        keyed(ops),
        all_allowed(ops, events),
    ensures
        keyed(apply_all(ops, events)),
    decreases events.len(),
{
    if events.len() > 0 {
        lemma_event_keeps_keyed(ops, events[0]);
        lemma_events_keep_keyed(events[0].apply(ops), events.drop_first());
    }
}

/// The payload of an abandoned operation stays in the table, under the
/// operation's key, whatever happens, until the completion of that
/// operation arrives. That completion takes the operation out of the table.
pub proof fn lemma_payload_held_until_completion(
    ops: Map<usize, Lifetime>,
    key: usize,
    event: Event,
)
    requires
        ops.contains_key(key),
        ops[key] is Cancelled,
        event.allowed(ops),
    ensures
        !event.completes(key) ==> event.apply(ops).contains_key(key) && event.apply(ops)[key]
            == ops[key],
        event.completes(key) ==> !event.apply(ops).contains_key(key),
{
}

/// The same, of any sequence of events none of which is that completion.
pub proof fn lemma_payload_held_through(ops: Map<usize, Lifetime>, key: usize, events: Seq<Event>)
    requires
        ops.contains_key(key),
        ops[key] is Cancelled,
        all_allowed(ops, events),
        forall|i: int| 0 <= i < events.len() ==> !(#[trigger] events[i]).completes(key),
    ensures
        apply_all(ops, events).contains_key(key),
        apply_all(ops, events)[key] == ops[key],
    decreases events.len(),
{
    if events.len() > 0 {
        assert(!events[0].completes(key));
        lemma_payload_held_until_completion(ops, key, events[0]);
        assert forall|i: int| 0 <= i < events.drop_first().len() implies !(
        #[trigger] events.drop_first()[i]).completes(key) by {
            assert(events.drop_first()[i] == events[i + 1]);
        }
        lemma_payload_held_through(events[0].apply(ops), key, events.drop_first());
    }
}

/// An operation leaves the table in one of three ways, and never before its
/// completion has arrived: its owner polls it when the completion is
/// there, its owner abandons it when the completion is there, or the
/// completion arrives after its owner abandoned it.
pub proof fn lemma_leaves_only_after_completion(
    ops: Map<usize, Lifetime>,
    key: usize,
    event: Event,
)
    requires
        ops.contains_key(key),
        event.allowed(ops),
        !event.apply(ops).contains_key(key),
    ensures
        match event {
            Event::Poll(polled_key, _) => polled_key == key && ops[key] is Completed,
            Event::Cancel(cancelled_key, _) => cancelled_key == key && ops[key] is Completed,
            Event::Complete(cqe) => cqe.user_data == key && ops[key] is Cancelled,
            Event::Push(_) => false,
        },
{
}

/// The completion of an operation that still has its owner waits in the
/// table, under the key that its user data names, whatever happens to other
/// operations. No second completion is taken for it. It leaves when the
/// owner polls or abandons the operation.
pub proof fn lemma_completion_waits_for_owner(
    ops: Map<usize, Lifetime>,
    key: usize,
    cqe: Cqe,
    event: Event,
)
    requires
        ops.contains_key(key),
        ops[key] == Lifetime::Completed(cqe),
        keyed(ops),
        event.allowed(ops),
    ensures
        cqe.user_data == key,
        !event.completes(key),
        match event {
            Event::Poll(polled_key, _) => polled_key != key,
            Event::Cancel(cancelled_key, _) => cancelled_key != key,
            _ => true,
        } <==> event.apply(ops).contains_key(key) && event.apply(ops)[key] == ops[key],
{
}

/// What a drain of the completion queue gave.
pub struct Drained {
    /// The wakers to fire, in the order of the completions that they wait
    /// for.
    pub wakers: VecDeque<Waker>,
    /// The index of the completion that the table could not take, if there
    /// was one; the drain stopped there.
    pub refused: Option<usize>,
}

/// Fires the wakers from first to last.
fn fire(wakers: VecDeque<Waker>) {
    let mut wakers = wakers;
    loop
        decreases wakers@.len(),
    {
        match wakers.pop_front() {
            Some(waker) => wake_waker(waker),
            None => {
                break ;
            },
        }
    }
}

/// What the driver asks of the kernel when the worker parks.
#[derive(Clone, Copy, Debug, PartialEq, Eq, Structural)]
pub enum Park {
    /// Submit what is queued, without waiting.
    Submit,
    /// Submit what is queued, and wait until this many completions have
    /// arrived.
    SubmitAndWait(usize),
}

/// The operation table.
pub struct Driver {
    slab: Slab<Lifetime>,
}

impl View for Driver {
    type V = Map<usize, Lifetime>;

    closed spec fn view(&self) -> Map<usize, Lifetime> {
        op_entries(self.slab)
    }
}

/// The owner's handle of one operation: its key and its payload.
///
/// The handle does not reach the table by itself. Whoever lets go of a handle
/// that still owns its payload calls `cancel` first, so that the payload
/// outlives the kernel's use of it.
pub struct Op<T> {
    data: Option<T>,
    key: usize,
}

impl Driver {
    /// The key that the next operation gets.
    pub closed spec fn next_key(&self) -> usize {
        op_vacant_key(self.slab)
    }

    /// The table's invariant.
    pub open spec fn wf(&self) -> bool {
        keyed(self@)
    }

    /// An empty table.
    pub fn new() -> (driver: Driver)
        ensures
            driver@ == Map::<usize, Lifetime>::empty(),
            driver.wf(),
    {
        Driver { slab: ops_new() }
    }

    /// Writes the key of the next operation into `entry` as its user data:
    /// the result is what `squeue::Entry::user_data` makes of `entry` and
    /// the key. The entry is then ready for the submission queue; `push`
    /// records it.
    pub fn stamp(&self, entry: squeue::Entry) -> (stamped: squeue::Entry)
        ensures
            stamped == sqe_stamped(entry, self.next_key() as u64),
            sqe_user_data(stamped) == self.next_key(),
            !self@.contains_key(self.next_key()),
    {
        let key = ops_vacant_key(&self.slab);
        sqe_set_user_data(entry, key as u64)
    }

    /// Records an operation whose stamped entry is in the submission queue,
    /// and returns its handle, which owns `data`.
    pub fn push<T>(&mut self, data: T) -> (op: Op<T>)
        requires
            old(self).wf(),
        ensures
            op.key() == old(self).next_key(),
            op.data() == Some(data),
            !old(self)@.contains_key(op.key()),
            final(self)@ == old(self)@.insert(op.key(), Lifetime::Submitted),
            final(self).wf(),
    {
        let key = ops_insert(&mut self.slab, Lifetime::Submitted);
        Op { data: Some(data), key }
    }

    /// The phase of the operation under `key`, if there is one.
    pub fn phase(&self, key: usize) -> (phase: Option<Phase>)
        ensures
            phase == (if self@.contains_key(key) {
                Some(self@[key].phase())
            } else {
                None
            }),
    {
        match ops_get(&self.slab, key) {
            Some(Lifetime::Submitted) => Some(Phase::Submitted),
            Some(Lifetime::Waiting(_)) => Some(Phase::Waiting),
            Some(Lifetime::Cancelled(_)) => Some(Phase::Cancelled),
            Some(Lifetime::Completed(_)) => Some(Phase::Completed),
            None => None,
        }
    }

    /// Whether the table can take the completion `cqe`.
    pub fn can_complete(&self, cqe: &Cqe) -> (ok: bool)
        ensures
            ok == accepts(self@, *cqe),
    {
        if cqe.user_data > usize::MAX as u64 {
            return false;
        }
        match self.phase(cqe.user_data as usize) {
            Some(Phase::Completed) => false,
            Some(_) => true,
            None => false,
        }
    }

    /// Takes one completion: the operation that `cqe` names holds the entry
    /// from now on, or leaves the table if it was abandoned. Returns the
    /// waker to fire, if the operation was waited for.
    pub fn complete_one(&mut self, cqe: Cqe) -> (waker: Option<Waker>)
        requires
            old(self).wf(),
            accepts(old(self)@, cqe),
        ensures
            final(self)@ == completed(old(self)@, cqe),
            final(self).next_key() == freed(old(self)@, old(self).next_key(), cqe),
            waker == woken(old(self)@, cqe),
            final(self).wf(),
    {
        let key = cqe.user_data as usize;
        let slot = ops_get_mut(&mut self.slab, key);
        let mut prior = Lifetime::Completed(cqe);
        std::mem::swap(slot, &mut prior);
        match prior {
            Lifetime::Submitted => None,
            Lifetime::Waiting(waker) => Some(waker),
            Lifetime::Cancelled(_) => {
                let _ = ops_remove(&mut self.slab, key);
                proof {
                    assert(final(self)@ =~= old(self)@.remove(key));
                }
                None
            },
            Lifetime::Completed(_) => None,
        }
    }

    /// Takes the completions of one drain of the completion queue, in the
    /// order in which the kernel delivered them, and returns the wakers of
    /// the operations that were waited for, in that order, to be fired.
    ///
    /// Stops at the first completion that the table cannot take, and tells
    /// its index; the completions before it have been taken.
    pub fn drain(&mut self, cqes: &Vec<Cqe>) -> (drained: Drained)
        requires
            old(self).wf(),
        ensures
            final(self).wf(),
            drained.refused is None <==> accepts_all(old(self)@, cqes@),
            match drained.refused {
                Some(at) => at < cqes@.len() && !accepts(final(self)@, cqes@[at as int]),
                None => true,
            },
            accepts_all(old(self)@, taken(cqes@, drained.refused)),
            final(self)@ == completed_all(old(self)@, taken(cqes@, drained.refused)),
            final(self).next_key() == freed_all(
                old(self)@,
                old(self).next_key(),
                taken(cqes@, drained.refused),
            ),
            drained.wakers@ == woken_all(old(self)@, taken(cqes@, drained.refused)),
    {
        let mut wakers: VecDeque<Waker> = VecDeque::new();
        let mut i: usize = 0;
        proof {
            assert(cqes@.take(0) =~= Seq::<Cqe>::empty());
            assert(woken_all(old(self)@, Seq::<Cqe>::empty()) =~= wakers@);
        }
        while i < cqes.len()
            invariant
                i <= cqes@.len(),
                self.wf(),
                accepts_all(old(self)@, cqes@.take(i as int)),
                self@ == completed_all(old(self)@, cqes@.take(i as int)),
                self.next_key() == freed_all(
                    old(self)@,
                    old(self).next_key(),
                    cqes@.take(i as int),
                ),
                wakers@ == woken_all(old(self)@, cqes@.take(i as int)),
            decreases cqes@.len() - i,
        {
            proof {
                assert(cqes@.take(i + 1) =~= cqes@.take(i as int).push(cqes@[i as int]));
                lemma_completions_extend(old(self)@, cqes@.take(i as int), cqes@[i as int]);
            }
            if !self.can_complete(&cqes[i]) {
                proof {
                    if accepts_all(old(self)@, cqes@) {
                        lemma_completions_prefix(old(self)@, cqes@, i + 1);
                    }
                }
                return Drained { wakers, refused: Some(i) };
            }
            let ghost before = wakers@;
            if let Some(waker) = self.complete_one(cqes[i]) {
                wakers.push_back(waker);
            }
            proof {
                assert(wakers@ =~= before + woken_one(
                    completed_all(old(self)@, cqes@.take(i as int)),
                    cqes@[i as int],
                ));
            }
            i += 1;
        }
        proof {
            assert(cqes@.take(i as int) =~= cqes@);
        }
        Drained { wakers, refused: None }
    }

    /// Takes the completions of one drain of the completion queue, in the
    /// order in which the kernel delivered them, and fires the waker of
    /// every operation that was waited for, in that order: the wakers that
    /// `drain` returns. Returns whether there was any completion.
    ///
    /// Stops at the first completion that the table cannot take, and
    /// returns its index; the completions before it have been taken, and
    /// their wakers fired.
    pub fn try_complete(&mut self, cqes: &Vec<Cqe>) -> (any: Result<bool, usize>)
        requires
            old(self).wf(),
        ensures
            final(self).wf(),
            any is Ok <==> accepts_all(old(self)@, cqes@),
            match any {
                Ok(any) => {
                    &&& final(self)@ == completed_all(old(self)@, cqes@)
                    &&& final(self).next_key() == freed_all(
                        old(self)@,
                        old(self).next_key(),
                        cqes@,
                    )
                    &&& any == (cqes@.len() > 0)
                },
                Err(at) => {
                    &&& at < cqes@.len()
                    &&& accepts_all(old(self)@, cqes@.take(at as int))
                    &&& final(self)@ == completed_all(old(self)@, cqes@.take(at as int))
                    &&& final(self).next_key() == freed_all(
                        old(self)@,
                        old(self).next_key(),
                        cqes@.take(at as int),
                    )
                    &&& !accepts(final(self)@, cqes@[at as int])
                },
            },
    {
        let drained = self.drain(cqes);
        fire(drained.wakers);
        match drained.refused {
            None => Ok(cqes.len() > 0),
            Some(at) => Err(at),
        }
    }

    /// Takes the completions of one drain of the completion queue, in the
    /// order in which the kernel delivered them, and fires the waker of
    /// every operation that was waited for, in that order: the wakers that
    /// `drain` returns. Returns whether there was any completion.
    ///
    /// Every completion must answer an operation of the table that has not
    /// completed before: an operation completes once.
    pub fn complete(&mut self, cqes: &Vec<Cqe>) -> (any: bool)
        requires
            old(self).wf(),
            accepts_all(old(self)@, cqes@),
        ensures
            final(self)@ == completed_all(old(self)@, cqes@),
            final(self).next_key() == freed_all(old(self)@, old(self).next_key(), cqes@),
            any == (cqes@.len() > 0),
            final(self).wf(),
    {
        match self.try_complete(cqes) {
            Ok(any) => any,
            Err(_) => false,
        }
    }

    /// How the driver parks, given whether a drain of the completion queue
    /// just found anything: if it did, the queued submissions are handed to
    /// the kernel and the thread goes on; if not, they are handed over and
    /// the thread blocks until one completion has arrived, which is then
    /// drained.
    pub fn park(drained_any: bool) -> (plan: Park)
        ensures
            plan == (if drained_any {
                Park::Submit
            } else {
                Park::SubmitAndWait(1)
            }),
    {
        if drained_any {
            Park::Submit
        } else {
            Park::SubmitAndWait(1)
        }
    }
}

impl<T> Op<T> {
    /// The key of the operation.
    pub closed spec fn key(&self) -> usize {
        self.key
    }

    /// The payload, as long as the handle owns it.
    pub closed spec fn data(&self) -> Option<T> {
        self.data
    }

    /// Whether the handle stands for an operation of `driver`: as long as it
    /// owns its payload, its key names an operation that was not abandoned.
    pub open spec fn belongs_to(&self, driver: &Driver) -> bool {
        self.data() is Some ==> {
            &&& driver@.contains_key(self.key())
            &&& !(driver@[self.key()] is Cancelled)
        }
    }

    /// The key of the operation.
    pub fn get_key(&self) -> (key: usize)
        ensures
            key == self.key(),
    {
        self.key
    }

    /// Whether the handle still owns its payload.
    pub fn is_pending(&self) -> (pending: bool)
        ensures
            pending == (self.data() is Some),
    {
        self.data.is_some()
    }

    /// Polls the operation for its owner.
    ///
    /// If the completion has arrived, the operation leaves the table, and
    /// its entry and the payload go to the owner. Otherwise the operation
    /// waits, and `waker` is the waker to fire on completion.
    pub fn poll(&mut self, driver: &mut Driver, waker: &Waker) -> (ready: Option<(Cqe, T)>)
        requires
            old(driver).wf(),
            old(self).data() is Some,
            old(self).belongs_to(old(driver)),
        ensures
            final(driver).wf(),
            final(self).key() == old(self).key(),
            final(driver)@ == polled(old(driver)@, old(self).key(), *waker),
            match old(driver)@[old(self).key()] {
                Lifetime::Completed(cqe) => {
                    &&& ready == Some((cqe, old(self).data()->0))
                    &&& cqe.user_data == old(self).key()
                    &&& final(driver).next_key() == old(self).key()
                    &&& final(self).data() is None
                },
                _ => {
                    &&& ready is None
                    &&& final(driver).next_key() == old(driver).next_key()
                    &&& final(self).data() == old(self).data()
                },
            },
    {
        let key = self.key;
        let slot = ops_get_mut(&mut driver.slab, key);
        let arrived: Option<Cqe> = match slot {
            Lifetime::Submitted => {
                *slot = Lifetime::Waiting(clone_waker(waker));
                None
            },
            Lifetime::Waiting(current) => {
                if !will_wake(waker, current) {
                    *current = clone_waker(waker);
                }
                None
            },
            Lifetime::Cancelled(_) => None,
            Lifetime::Completed(cqe) => Some(*cqe),
        };
        match arrived {
            Some(cqe) => {
                let _ = ops_remove(&mut driver.slab, key);
                let data = self.data.take();
                proof {
                    assert(final(driver)@ =~= polled(old(driver)@, key, *waker));
                }
                Some((cqe, data.unwrap()))
            },
            None => None,
        }
    }

    /// Abandons the operation, as dropping its handle does.
    ///
    /// A handle that has given its payload away does nothing. Otherwise the
    /// payload moves into the table, where it stays until the completion
    /// arrives; if the completion is there already, the operation leaves the
    /// table at once.
    pub fn cancel(&mut self, driver: &mut Driver) where T: 'static
        requires
            old(driver).wf(),
            old(self).belongs_to(old(driver)),
        ensures
            final(driver).wf(),
            final(self).key() == old(self).key(),
            final(self).data() is None,
            old(self).data() is None ==> final(driver)@ == old(driver)@,
            old(self).data() is Some ==> exists|payload: Payload|
                final(driver)@ == #[trigger] cancelled(old(driver)@, old(self).key(), payload),
            final(driver).next_key() == (if old(self).data() is Some
                && old(driver)@[old(self).key()] is Completed {
                old(self).key()
            } else {
                old(driver).next_key()
            }),
    {
        let key = self.key;
        match self.data.take() {
            Some(data) => {
                let payload = erase(data);
                let ghost parked = payload;
                let slot = ops_get_mut(&mut driver.slab, key);
                let mut prior = Lifetime::Cancelled(payload);
                std::mem::swap(slot, &mut prior);
                match prior {
                    Lifetime::Completed(_) => {
                        let _ = ops_remove(&mut driver.slab, key);
                    },
                    _ => {},
                }
                proof {
                    assert(final(driver)@ =~= cancelled(old(driver)@, key, parked));
                }
            },
            None => {},
        }
    }
}

} // verus!
