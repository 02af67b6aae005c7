use std::sync::atomic::{AtomicUsize, Ordering};
use std::sync::{Arc, Mutex};
use std::task::{Wake, Waker};
use urt::sys::driver::{Cqe, Driver, Outcome, Park, Phase};

struct Bell {
    rings: AtomicUsize,
}

impl Wake for Bell {
    fn wake(self: Arc<Self>) {
        self.rings.fetch_add(1, Ordering::SeqCst);
    }
}

fn bell() -> (Arc<Bell>, Waker) {
    let bell = Arc::new(Bell { rings: AtomicUsize::new(0) });
    let waker = Waker::from(bell.clone());
    (bell, waker)
}

fn rings(bell: &Arc<Bell>) -> usize {
    bell.rings.load(Ordering::SeqCst)
}

#[test]
fn stamp_writes_the_next_key_as_user_data() {
    let mut driver = Driver::new();
    let entry = io_uring::opcode::Nop::new().build().user_data(99);
    let stamped = driver.stamp(entry);
    assert_eq!(stamped.get_user_data(), 0);
    let first = driver.push(());
    assert_eq!(first.get_key(), 0);

    let entry = io_uring::opcode::Nop::new().build().user_data(99);
    let stamped = driver.stamp(entry);
    assert_eq!(stamped.get_user_data(), 1);
    let second = driver.push(());
    assert_eq!(second.get_key(), 1);
}

#[test]
fn push_records_a_submitted_operation() {
    let mut driver = Driver::new();
    assert_eq!(driver.phase(0), None);
    let op = driver.push(vec![1u8, 2, 3]);
    assert_eq!(op.get_key(), 0);
    assert!(op.is_pending());
    assert_eq!(driver.phase(0), Some(Phase::Submitted));
    assert_eq!(driver.phase(1), None);
}

#[test]
fn first_poll_waits_and_completion_rings() {
    let mut driver = Driver::new();
    let (bell, waker) = bell();
    let mut op = driver.push(String::from("payload"));

    assert!(op.poll(&mut driver, &waker).is_none());
    assert_eq!(driver.phase(0), Some(Phase::Waiting));
    assert_eq!(rings(&bell), 0);

    let cqe = Cqe::new(0, 42, 7);
    assert!(driver.can_complete(&cqe));
    assert!(driver.complete(&vec![cqe]));
    assert_eq!(rings(&bell), 1);
    assert_eq!(driver.phase(0), Some(Phase::Completed));

    let (entry, data) = op.poll(&mut driver, &waker).unwrap();
    assert_eq!(entry, Cqe { user_data: 0, result: 42, flags: 7 });
    assert_eq!(entry.user_data(), 0);
    assert_eq!(entry.result(), 42);
    assert_eq!(entry.flags(), 7);
    assert_eq!(data, "payload");
    assert!(!op.is_pending());
    assert_eq!(driver.phase(0), None);
}

#[test]
fn completion_before_the_first_poll_rings_nobody() {
    let mut driver = Driver::new();
    let (bell, waker) = bell();
    let mut op = driver.push(5u32);
    assert!(driver.complete_one(Cqe::new(0, 1, 0)).is_none());
    assert_eq!(driver.phase(0), Some(Phase::Completed));
    assert_eq!(rings(&bell), 0);
    assert_eq!(op.poll(&mut driver, &waker), Some((Cqe::new(0, 1, 0), 5u32)));
    assert_eq!(rings(&bell), 0);
}

#[test]
fn complete_one_hands_back_the_waiting_waker() {
    let mut driver = Driver::new();
    let (bell, waker) = bell();
    let mut op = driver.push(());
    assert!(op.poll(&mut driver, &waker).is_none());
    let handed = driver.complete_one(Cqe::new(0, 0, 0)).unwrap();
    assert!(handed.will_wake(&waker));
    assert_eq!(rings(&bell), 0);
    handed.wake();
    assert_eq!(rings(&bell), 1);
}

#[test]
fn a_later_poll_replaces_the_waker() {
    let mut driver = Driver::new();
    let (first_bell, first) = bell();
    let (second_bell, second) = bell();
    let mut op = driver.push(());
    assert!(op.poll(&mut driver, &first).is_none());
    assert!(op.poll(&mut driver, &first).is_none());
    assert!(op.poll(&mut driver, &second).is_none());
    assert_eq!(driver.phase(0), Some(Phase::Waiting));
    driver.complete(&vec![Cqe::new(0, 0, 0)]);
    assert_eq!(rings(&first_bell), 0);
    assert_eq!(rings(&second_bell), 1);
}

#[test]
fn the_waker_is_cloned_not_borrowed() {
    let mut driver = Driver::new();
    let (bell, waker) = bell();
    let before = Arc::strong_count(&bell);
    let mut op = driver.push(());
    assert!(op.poll(&mut driver, &waker).is_none());
    assert_eq!(Arc::strong_count(&bell), before + 1);
    drop(waker);
    driver.complete(&vec![Cqe::new(0, 0, 0)]);
    assert_eq!(rings(&bell), 1);
}

#[test]
fn cancelled_payload_lives_until_the_completion() {
    let mut driver = Driver::new();
    let payload = Arc::new(vec![0u8; 64]);
    let mut op = driver.push(payload.clone());
    assert_eq!(Arc::strong_count(&payload), 2);

    op.cancel(&mut driver);
    assert!(!op.is_pending());
    assert_eq!(driver.phase(0), Some(Phase::Cancelled));
    assert_eq!(Arc::strong_count(&payload), 2);

    // Another operation comes and goes; the payload stays where it is.
    let (_, waker) = bell();
    let mut other = driver.push(());
    assert_eq!(other.get_key(), 1);
    assert!(other.poll(&mut driver, &waker).is_none());
    driver.complete(&vec![Cqe::new(1, 0, 0)]);
    assert!(other.poll(&mut driver, &waker).is_some());
    assert_eq!(driver.phase(0), Some(Phase::Cancelled));
    assert_eq!(Arc::strong_count(&payload), 2);

    assert!(driver.complete_one(Cqe::new(0, -125, 0)).is_none());
    assert_eq!(driver.phase(0), None);
    assert_eq!(Arc::strong_count(&payload), 1);
}

#[test]
fn cancel_after_completion_frees_the_slot_at_once() {
    let mut driver = Driver::new();
    let payload = Arc::new(1u8);
    let mut op = driver.push(payload.clone());
    driver.complete(&vec![Cqe::new(0, 3, 0)]);
    assert_eq!(driver.phase(0), Some(Phase::Completed));
    op.cancel(&mut driver);
    assert_eq!(driver.phase(0), None);
    assert_eq!(Arc::strong_count(&payload), 1);
}

#[test]
fn cancel_of_a_waiting_operation_drops_its_waker() {
    let mut driver = Driver::new();
    let (bell, waker) = bell();
    let mut op = driver.push(());
    assert!(op.poll(&mut driver, &waker).is_none());
    op.cancel(&mut driver);
    assert_eq!(driver.phase(0), Some(Phase::Cancelled));
    driver.complete(&vec![Cqe::new(0, 0, 0)]);
    assert_eq!(rings(&bell), 0);
    assert_eq!(driver.phase(0), None);
}

#[test]
fn a_second_cancel_does_nothing() {
    let mut driver = Driver::new();
    let mut op = driver.push(());
    op.cancel(&mut driver);
    driver.complete(&vec![Cqe::new(0, 0, 0)]);
    let fresh = driver.push(());
    assert_eq!(fresh.get_key(), 0);
    op.cancel(&mut driver);
    assert_eq!(driver.phase(0), Some(Phase::Submitted));
}

#[test]
fn a_freed_key_is_given_out_again() {
    let mut driver = Driver::new();
    let (_, waker) = bell();
    let mut long_running = driver.push(Arc::new(0u8));
    let mut quick = driver.push(1u8);
    assert_eq!(long_running.get_key(), 0);
    assert_eq!(quick.get_key(), 1);

    long_running.cancel(&mut driver);
    // The abandoned operation keeps its key: the next one gets another.
    let mut third = driver.push(2u8);
    assert_eq!(third.get_key(), 2);

    driver.complete(&vec![Cqe::new(1, 10, 0), Cqe::new(0, 20, 0)]);
    assert_eq!(quick.poll(&mut driver, &waker), Some((Cqe::new(1, 10, 0), 1u8)));
    // Key 1 was freed last, key 0 before it.
    let stamped = driver.stamp(io_uring::opcode::Nop::new().build());
    assert_eq!(stamped.get_user_data(), 1);
    let fourth = driver.push(3u8);
    assert_eq!(fourth.get_key(), 1);
    let fifth = driver.push(4u8);
    assert_eq!(fifth.get_key(), 0);
    assert_eq!(driver.phase(2), Some(Phase::Submitted));
    driver.complete(&vec![Cqe::new(2, 30, 0)]);
    assert_eq!(third.poll(&mut driver, &waker), Some((Cqe::new(2, 30, 0), 2u8)));
}

#[test]
fn completions_are_taken_in_order() {
    let mut driver = Driver::new();
    let (bell_a, waker_a) = bell();
    let (bell_b, waker_b) = bell();
    let mut a = driver.push('a');
    let mut b = driver.push('b');
    let mut c = driver.push('c');
    assert!(a.poll(&mut driver, &waker_a).is_none());
    assert!(b.poll(&mut driver, &waker_b).is_none());
    c.cancel(&mut driver);

    assert!(!driver.complete(&Vec::new()));
    let batch = vec![Cqe::new(2, 0, 0), Cqe::new(1, 11, 0), Cqe::new(0, 12, 0)];
    assert!(driver.complete(&batch));
    assert_eq!(rings(&bell_a), 1);
    assert_eq!(rings(&bell_b), 1);
    assert_eq!(driver.phase(2), None);
    assert_eq!(a.poll(&mut driver, &waker_a), Some((Cqe::new(0, 12, 0), 'a')));
    assert_eq!(b.poll(&mut driver, &waker_b), Some((Cqe::new(1, 11, 0), 'b')));
}

#[test]
fn an_unknown_completion_is_refused() {
    let mut driver = Driver::new();
    assert!(!driver.can_complete(&Cqe::new(0, 0, 0)));
    assert_eq!(driver.try_complete(&vec![Cqe::new(0, 0, 0)]), Err(0));
    let _op = driver.push(());
    assert!(driver.can_complete(&Cqe::new(0, 0, 0)));
    assert!(!driver.can_complete(&Cqe::new(1, 0, 0)));
    assert!(!driver.can_complete(&Cqe::new(u64::MAX, 0, 0)));
    assert_eq!(driver.try_complete(&vec![Cqe::new(1, 0, 0)]), Err(0));
    assert_eq!(driver.phase(0), Some(Phase::Submitted));
}

#[test]
fn a_second_completion_is_refused() {
    let mut driver = Driver::new();
    let (bell, waker) = bell();
    let mut op = driver.push(());
    assert!(op.poll(&mut driver, &waker).is_none());
    let batch = vec![Cqe::new(0, 1, 0), Cqe::new(0, 2, 0)];
    assert_eq!(driver.try_complete(&batch), Err(1));
    // The first completion was taken before the batch stopped.
    assert_eq!(rings(&bell), 1);
    assert!(!driver.can_complete(&Cqe::new(0, 2, 0)));
    assert_eq!(op.poll(&mut driver, &waker), Some((Cqe::new(0, 1, 0), ())));
}

#[test]
fn a_completion_after_the_abandoned_one_left_is_refused() {
    let mut driver = Driver::new();
    let mut op = driver.push(());
    op.cancel(&mut driver);
    let batch = vec![Cqe::new(0, 0, 0), Cqe::new(0, 0, 0)];
    assert_eq!(driver.try_complete(&batch), Err(1));
    assert_eq!(driver.phase(0), None);
}

#[test]
fn try_complete_takes_a_good_batch() {
    let mut driver = Driver::new();
    let _a = driver.push(());
    let _b = driver.push(());
    assert_eq!(driver.try_complete(&Vec::new()), Ok(false));
    assert_eq!(driver.try_complete(&vec![Cqe::new(1, 0, 0), Cqe::new(0, 0, 0)]), Ok(true));
    assert_eq!(driver.phase(0), Some(Phase::Completed));
    assert_eq!(driver.phase(1), Some(Phase::Completed));
}

#[test]
fn result_codes_read_as_value_or_error_number() {
    assert_eq!(Cqe::new(0, 0, 0).outcome(), Outcome::Success(0));
    assert_eq!(Cqe::new(0, 5, 0).outcome(), Outcome::Success(5));
    assert_eq!(Cqe::new(0, i32::MAX, 0).outcome(), Outcome::Success(2147483647));
    assert_eq!(Cqe::new(0, -1, 0).outcome(), Outcome::Errno(1));
    assert_eq!(Cqe::new(0, -11, 0).outcome(), Outcome::Errno(11));
    assert_eq!(Cqe::new(0, -125, 0).outcome(), Outcome::Errno(125));
    assert_eq!(Cqe::new(0, i32::MIN, 0).outcome(), Outcome::Errno(2147483648));
}

#[test]
fn park_waits_only_when_nothing_was_drained() {
    assert_eq!(Driver::park(true), Park::Submit);
    assert_eq!(Driver::park(false), Park::SubmitAndWait(1));
}

#[test]
fn stamp_changes_the_user_data_and_nothing_else() {
    let driver = Driver::new();
    let entry = io_uring::opcode::Nop::new()
        .build()
        .flags(io_uring::squeue::Flags::IO_LINK)
        .user_data(99);
    let expected = format!("{:?}", entry.clone().user_data(0));
    let before = format!("{:?}", entry);
    let stamped = driver.stamp(entry);
    assert_eq!(format!("{:?}", stamped), expected);
    assert_ne!(format!("{:?}", stamped), before);
}

#[test]
fn drain_returns_the_wakers_in_the_order_of_the_completions() {
    let mut driver = Driver::new();
    let (bell_a, waker_a) = bell();
    let (bell_b, waker_b) = bell();
    let (bell_c, waker_c) = bell();
    let mut a = driver.push(());
    let mut quiet = driver.push(());
    let mut b = driver.push(());
    let mut c = driver.push(());
    let mut gone = driver.push(());
    assert!(a.poll(&mut driver, &waker_a).is_none());
    assert!(b.poll(&mut driver, &waker_b).is_none());
    assert!(c.poll(&mut driver, &waker_c).is_none());
    gone.cancel(&mut driver);

    let batch = vec![
        Cqe::new(3, 0, 0),
        Cqe::new(1, 0, 0),
        Cqe::new(4, 0, 0),
        Cqe::new(0, 0, 0),
        Cqe::new(2, 0, 0),
    ];
    let drained = driver.drain(&batch);
    assert_eq!(drained.refused, None);
    assert_eq!(drained.wakers.len(), 3);
    assert!(drained.wakers[0].will_wake(&waker_c));
    assert!(drained.wakers[1].will_wake(&waker_a));
    assert!(drained.wakers[2].will_wake(&waker_b));
    // The drain hands the wakers out; it fires none.
    assert_eq!(rings(&bell_a) + rings(&bell_b) + rings(&bell_c), 0);
    assert_eq!(driver.phase(4), None);
    assert_eq!(driver.phase(1), Some(Phase::Completed));
    assert!(quiet.poll(&mut driver, &waker_a).is_some());
    assert!(a.poll(&mut driver, &waker_a).is_some());
    assert!(b.poll(&mut driver, &waker_b).is_some());
    assert!(c.poll(&mut driver, &waker_c).is_some());
}

#[test]
fn drain_stops_at_the_completion_that_is_refused() {
    let mut driver = Driver::new();
    let (_bell_a, waker_a) = bell();
    let (_bell_b, waker_b) = bell();
    let mut a = driver.push(());
    let mut b = driver.push(());
    assert!(a.poll(&mut driver, &waker_a).is_none());
    assert!(b.poll(&mut driver, &waker_b).is_none());

    let batch = vec![Cqe::new(1, 0, 0), Cqe::new(7, 0, 0), Cqe::new(0, 0, 0)];
    let drained = driver.drain(&batch);
    assert_eq!(drained.refused, Some(1));
    assert_eq!(drained.wakers.len(), 1);
    assert!(drained.wakers[0].will_wake(&waker_b));
    assert_eq!(driver.phase(1), Some(Phase::Completed));
    assert_eq!(driver.phase(0), Some(Phase::Waiting));

    let empty = driver.drain(&Vec::new());
    assert_eq!(empty.refused, None);
    assert!(empty.wakers.is_empty());
}

struct Logged {
    name: usize,
    log: Arc<Mutex<Vec<usize>>>,
}

impl Wake for Logged {
    fn wake(self: Arc<Self>) {
        self.log.lock().unwrap().push(self.name);
    }
}

#[test]
fn complete_fires_each_waker_once_in_order() {
    let log = Arc::new(Mutex::new(Vec::new()));
    let mut driver = Driver::new();
    let mut ops = Vec::new();
    for name in 0..4usize {
        let mut op = driver.push(());
        let waker = Waker::from(Arc::new(Logged { name, log: log.clone() }));
        assert!(op.poll(&mut driver, &waker).is_none());
        ops.push(op);
    }
    let batch = vec![Cqe::new(2, 0, 0), Cqe::new(0, 0, 0), Cqe::new(3, 0, 0), Cqe::new(1, 0, 0)];
    assert!(driver.complete(&batch));
    assert_eq!(*log.lock().unwrap(), vec![2, 0, 3, 1]);
}
