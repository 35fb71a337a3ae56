use edf_scheduler::parked::{ParkedQueue, QUEUE_CAPACITY};
use edf_scheduler::task::{ScheduledTask, Task};

fn due(deadline: u32, name: &'static str) -> ScheduledTask<&'static str> {
    Task::new(deadline, 0, name).into_queued(0)
}

fn names(queue: &mut ParkedQueue<&'static str>) -> Vec<(u32, &'static str)> {
    let mut out = Vec::new();
    while let Some(task) = queue.pop_min() {
        let deadline = task.abs_deadline();
        let running = edf_scheduler::task::RunningTask::from_scheduled(task, 0);
        out.push((deadline, running.callback()));
    }
    out
}

#[test]
fn new_queue_is_empty() {
    let mut queue: ParkedQueue<&'static str> = ParkedQueue::new();
    assert_eq!(queue.len(), 0);
    assert!(queue.is_empty());
    assert!(!queue.is_full());
    assert!(queue.peek().is_none());
    assert_eq!(queue.peek_deadline(), None);
    assert!(queue.pop_min().is_none());
    assert_eq!(queue.len(), 0);
}

#[test]
fn capacity_is_sixteen() {
    assert_eq!(QUEUE_CAPACITY, 16);
}

#[test]
fn peek_shows_the_earliest_deadline_without_removing() {
    let mut queue = ParkedQueue::new();
    assert!(queue.push(due(300, "c")).is_ok());
    assert!(queue.push(due(100, "a")).is_ok());
    assert!(queue.push(due(200, "b")).is_ok());
    assert_eq!(queue.peek_deadline(), Some(100));
    assert_eq!(queue.peek().map(|task| task.abs_deadline()), Some(100));
    assert_eq!(queue.len(), 3);
    assert_eq!(queue.peek_deadline(), Some(100));
}

#[test]
fn pop_min_hands_out_in_deadline_order() {
    let mut queue = ParkedQueue::new();
    for (deadline, name) in [(500, "e"), (100, "a"), (400, "d"), (200, "b"), (300, "c")] {
        assert!(queue.push(due(deadline, name)).is_ok());
    }
    assert_eq!(
        names(&mut queue),
        vec![(100, "a"), (200, "b"), (300, "c"), (400, "d"), (500, "e")]
    );
    assert!(queue.is_empty());
}

#[test]
fn equal_deadlines_leave_in_order_of_arrival() {
    let mut queue = ParkedQueue::new();
    for (deadline, name) in [(200, "first"), (100, "x"), (200, "second"), (200, "third"), (100, "y")] {
        assert!(queue.push(due(deadline, name)).is_ok());
    }
    assert_eq!(
        names(&mut queue),
        vec![(100, "x"), (100, "y"), (200, "first"), (200, "second"), (200, "third")]
    );
}

#[test]
fn pop_min_keeps_the_order_of_the_rest() {
    let mut queue = ParkedQueue::new();
    for (deadline, name) in [(7, "a"), (3, "b"), (7, "c"), (3, "d")] {
        assert!(queue.push(due(deadline, name)).is_ok());
    }
    let first = queue.pop_min().unwrap();
    assert_eq!(first.abs_deadline(), 3);
    assert_eq!(queue.len(), 3);
    assert!(queue.push(due(3, "e")).is_ok());
    assert_eq!(names(&mut queue), vec![(3, "d"), (3, "e"), (7, "a"), (7, "c")]);
}

#[test]
fn push_fails_at_capacity_and_gives_the_task_back() {
    let mut queue = ParkedQueue::new();
    for i in 0..QUEUE_CAPACITY {
        assert!(!queue.is_full());
        assert!(queue.push(due(1000 - i as u32, "filler")).is_ok());
    }
    assert!(queue.is_full());
    assert_eq!(queue.len(), QUEUE_CAPACITY);
    let back = queue.push(due(1, "late"));
    match back {
        Ok(()) => panic!("a full queue took a task"),
        Err(task) => assert_eq!(task.abs_deadline(), 1),
    }
    assert_eq!(queue.len(), QUEUE_CAPACITY);
    assert_eq!(queue.peek_deadline(), Some(1000 - (QUEUE_CAPACITY as u32 - 1)));
}

#[test]
fn queue_takes_tasks_again_after_popping() {
    let mut queue = ParkedQueue::new();
    for i in 0..QUEUE_CAPACITY {
        assert!(queue.push(due(i as u32, "filler")).is_ok());
    }
    assert!(queue.push(due(99, "late")).is_err());
    assert_eq!(queue.pop_min().map(|task| task.abs_deadline()), Some(0));
    assert!(queue.push(due(99, "late")).is_ok());
    assert!(queue.is_full());
    let mut last = 0;
    let mut count = 0;
    while let Some(task) = queue.pop_min() {
        assert!(task.abs_deadline() >= last);
        last = task.abs_deadline();
        count += 1;
    }
    assert_eq!(count, QUEUE_CAPACITY);
    assert_eq!(last, 99);
}

#[test]
fn extreme_deadlines_are_ordered() {
    let mut queue = ParkedQueue::new();
    for (deadline, name) in [(u32::MAX, "max"), (0, "zero"), (u32::MAX - 1, "almost"), (1, "one")] {
        assert!(queue.push(due(deadline, name)).is_ok());
    }
    assert_eq!(
        names(&mut queue),
        vec![(0, "zero"), (1, "one"), (u32::MAX - 1, "almost"), (u32::MAX, "max")]
    );
}
