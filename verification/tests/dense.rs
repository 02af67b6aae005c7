use urt::sys::dense::Scheduler;

#[test]
fn dense_scheduler_starts_empty() {
    let mut scheduler = Scheduler::new();
    assert!(scheduler.is_empty());
    assert_eq!(scheduler.len(), 0);
    assert!(!scheduler.contains(0));
    assert_eq!(scheduler.fetch_next_task_for_tick(), None);
}

#[test]
fn dense_scheduler_is_first_in_first_out() {
    let mut scheduler = Scheduler::new();
    assert_eq!(scheduler.spawn(40), 40);
    scheduler.wake(2);
    assert_eq!(scheduler.spawn(0), 0);
    assert!(scheduler.contains(40));
    assert!(scheduler.contains(2));
    assert!(scheduler.contains(0));
    assert!(!scheduler.contains(1));
    assert!(!scheduler.contains(41));
    assert_eq!(scheduler.len(), 3);
    assert_eq!(scheduler.fetch_next_task_for_tick(), Some(40));
    assert!(!scheduler.contains(40));
    assert_eq!(scheduler.fetch_next_task_for_tick(), Some(2));
    assert_eq!(scheduler.fetch_next_task_for_tick(), Some(0));
    assert_eq!(scheduler.fetch_next_task_for_tick(), None);
}

#[test]
fn dense_scheduler_queues_a_woken_key_once() {
    let mut scheduler = Scheduler::new();
    for _ in 0..1000 {
        scheduler.wake(3);
    }
    scheduler.wake(1);
    scheduler.wake(3);
    assert_eq!(scheduler.len(), 2);
    assert_eq!(scheduler.fetch_next_task_for_tick(), Some(3));
    scheduler.wake(3);
    assert_eq!(scheduler.fetch_next_task_for_tick(), Some(1));
    assert_eq!(scheduler.fetch_next_task_for_tick(), Some(3));
    assert_eq!(scheduler.fetch_next_task_for_tick(), None);
    assert!(scheduler.is_empty());
}

#[test]
fn dense_scheduler_forgets_a_fetched_key() {
    let mut scheduler = Scheduler::new();
    scheduler.spawn(5);
    assert_eq!(scheduler.fetch_next_task_for_tick(), Some(5));
    assert!(!scheduler.contains(5));
    assert_eq!(scheduler.spawn(5), 5);
    assert!(scheduler.contains(5));
    assert_eq!(scheduler.len(), 1);
}
