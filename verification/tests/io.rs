use io_uring::squeue::Flags;
use std::sync::Arc;
use std::task::{Wake, Waker};
use urt::io::{prepare_batch, Unsubmitted};
use urt::sys::driver::{Cqe, Driver, Outcome, Phase};

struct Idle;

impl Wake for Idle {
    fn wake(self: Arc<Self>) {}
}

fn idle_waker() -> Waker {
    Waker::from(Arc::new(Idle))
}

fn read_len(cqe: Cqe, buf: Vec<u8>) -> Result<(usize, Vec<u8>), (u32, Vec<u8>)> {
    match cqe.outcome() {
        Outcome::Success(len) => Ok((len as usize, buf)),
        Outcome::Errno(errno) => Err((errno, buf)),
    }
}

#[test]
fn prepare_batch_drains_when_slots_are_short() {
    assert!(prepare_batch(1, 2));
    assert!(prepare_batch(0, 1));
    assert!(!prepare_batch(2, 2));
    assert!(!prepare_batch(3, 2));
    assert!(!prepare_batch(0, 0));
    assert!(prepare_batch(usize::MAX - 1, usize::MAX));
}

#[test]
fn submitted_operation_resolves_through_its_post_op() {
    let mut driver = Driver::new();
    let waker = idle_waker();
    let entry = io_uring::opcode::Nop::new().build().user_data(77);
    let unsubmitted = Unsubmitted::from_raw(entry, vec![0u8; 64], read_len);

    let stamped = unsubmitted.stamped(&driver);
    assert_eq!(stamped.get_user_data(), 0);
    let mut submitted = unsubmitted.submit(&mut driver);
    assert_eq!(submitted.get_key(), 0);
    assert!(submitted.is_pending());
    assert_eq!(driver.phase(0), Some(Phase::Submitted));

    assert!(submitted.poll(&mut driver, &waker).is_none());
    assert!(submitted.is_pending());
    driver.complete(&vec![Cqe::new(0, 5, 0)]);
    let (len, buf) = submitted.poll(&mut driver, &waker).unwrap().unwrap();
    assert_eq!(len, 5);
    assert_eq!(buf.len(), 64);
    assert!(!submitted.is_pending());
    assert_eq!(driver.phase(0), None);
}

#[test]
fn a_failed_operation_gives_its_buffer_back_with_the_error() {
    let mut driver = Driver::new();
    let waker = idle_waker();
    let entry = io_uring::opcode::Nop::new().build();
    let mut submitted = Unsubmitted::from_raw(entry, vec![9u8; 8], read_len).submit(&mut driver);
    driver.complete(&vec![Cqe::new(0, -104, 0)]);
    let (errno, buf) = submitted.poll(&mut driver, &waker).unwrap().unwrap_err();
    assert_eq!(errno, 104);
    assert_eq!(buf, vec![9u8; 8]);
}

#[test]
fn apply_flags_sets_the_flags_and_keeps_the_rest() {
    let driver = Driver::new();
    let entry = io_uring::opcode::Nop::new().build().user_data(5);
    let plain = format!("{:?}", entry);
    let mut unsubmitted = Unsubmitted::from_raw(entry, (), |_cqe: Cqe, _data: ()| ());
    unsubmitted.apply_flags(Flags::IO_HARDLINK);
    let flagged = io_uring::opcode::Nop::new().build().flags(Flags::IO_HARDLINK).user_data(0);
    let stamped = unsubmitted.stamped(&driver);
    assert_eq!(stamped.get_user_data(), 0);
    assert_eq!(format!("{:?}", stamped), format!("{:?}", flagged));
    assert_ne!(format!("{:?}", stamped), plain);

    unsubmitted.apply_flags(Flags::ASYNC);
    let both = io_uring::opcode::Nop::new()
        .build()
        .flags(Flags::IO_HARDLINK | Flags::ASYNC)
        .user_data(0);
    assert_eq!(format!("{:?}", unsubmitted.stamped(&driver)), format!("{:?}", both));
}

#[test]
fn a_hard_linked_pair_returns_both_buffers() {
    let mut driver = Driver::new();
    let waker = idle_waker();

    let mut read = Unsubmitted::from_raw(
        io_uring::opcode::Nop::new().build(),
        vec![0u8; 16],
        read_len,
    );
    read.apply_flags(Flags::IO_HARDLINK);
    let write = Unsubmitted::from_raw(
        io_uring::opcode::Nop::new().build(),
        b"world".to_vec(),
        read_len,
    );

    assert_eq!(read.stamped(&driver).get_user_data(), 0);
    let mut read = read.submit(&mut driver);
    assert_eq!(write.stamped(&driver).get_user_data(), 1);
    let mut write = write.submit(&mut driver);

    // The read fails, and the kernel cancels the write that was linked to it.
    driver.complete(&vec![Cqe::new(0, -104, 0), Cqe::new(1, -125, 0)]);
    let (read_errno, read_buf) = read.poll(&mut driver, &waker).unwrap().unwrap_err();
    let (write_errno, write_buf) = write.poll(&mut driver, &waker).unwrap().unwrap_err();
    assert_eq!(read_errno, 104);
    assert_eq!(write_errno, 125);
    assert_eq!(read_buf, vec![0u8; 16]);
    assert_eq!(write_buf, b"world".to_vec());
    assert_eq!(driver.phase(0), None);
    assert_eq!(driver.phase(1), None);
}

#[test]
fn an_abandoned_submission_keeps_its_buffer_until_completion() {
    let mut driver = Driver::new();
    let buffer = Arc::new(vec![0u8; 32]);
    let keep = |_cqe: Cqe, data: Arc<Vec<u8>>| data;
    let mut submitted =
        Unsubmitted::from_raw(io_uring::opcode::Nop::new().build(), buffer.clone(), keep)
            .submit(&mut driver);
    assert_eq!(Arc::strong_count(&buffer), 2);
    submitted.cancel(&mut driver);
    assert!(!submitted.is_pending());
    assert_eq!(driver.phase(0), Some(Phase::Cancelled));
    assert_eq!(Arc::strong_count(&buffer), 2);
    driver.complete(&vec![Cqe::new(0, 0, 0)]);
    assert_eq!(Arc::strong_count(&buffer), 1);
}
