use asteria::scheduler::{TaskPriority, TaskScheduler};

#[test]
fn test_priority_scheduler() {
    let mut sched = TaskScheduler::new(4);
    let id1 = sched.submit("Low task".to_string(), TaskPriority::Low);
    let id2 = sched.submit("Critical task".to_string(), TaskPriority::Critical);
    let id3 = sched.submit("Normal task".to_string(), TaskPriority::Normal);

    assert_eq!(sched.pending_count(), 3);

    let polled1 = sched.poll().unwrap();
    assert_eq!(polled1.id, id2);
    assert_eq!(polled1.priority, TaskPriority::Critical);

    let polled2 = sched.poll().unwrap();
    assert_eq!(polled2.id, id3);

    let polled3 = sched.poll().unwrap();
    assert_eq!(polled3.id, id1);

    assert!(sched.poll().is_none());
}

#[test]
fn test_adapt_workload() {
    let mut sched = TaskScheduler::new(8);
    sched.adapt_to_workload(30);
    assert_eq!(sched.active_workers(), 1);

    sched.adapt_to_workload(300);
    assert_eq!(sched.active_workers(), 2);

    sched.adapt_to_workload(1500);
    assert_eq!(sched.active_workers(), 4);

    sched.adapt_to_workload(5000);
    assert_eq!(sched.active_workers(), 8);
}

#[test]
fn equal_priorities_poll_in_submission_order() {
    let mut sched = TaskScheduler::new(2);
    let a = sched.submit("a".to_string(), TaskPriority::High);
    let b = sched.submit("b".to_string(), TaskPriority::High);
    assert_eq!(b, a + 1);
    assert_eq!(sched.poll().unwrap().id, a);
    assert_eq!(sched.poll().unwrap().name, "b");
    assert_eq!(sched.pending_count(), 0);
}

#[test]
fn workers_never_exceed_maximum() {
    let mut sched = TaskScheduler::new(1);
    sched.adapt_to_workload(1500);
    assert_eq!(sched.active_workers(), 1);
    let mut none = TaskScheduler::new(0);
    none.adapt_to_workload(10);
    assert_eq!(none.active_workers(), 0);
}
