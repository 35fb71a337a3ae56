use edf_scheduler::dispatchers::NUM_DISPATCHERS;
use edf_scheduler::parked::QUEUE_CAPACITY;
use edf_scheduler::scheduler::{Scheduler, SchedulerError};
use edf_scheduler::task::Task;

/// What a task does while it runs: it may submit further tasks.
type Body = fn(&mut Board, &'static str);

/// A single core with nested dispatcher interrupts, a clock that the test
/// sets, and a record of what happened.
struct Board {
    scheduler: Scheduler<&'static str>,
    pending: [bool; NUM_DISPATCHERS],
    entered: Vec<u8>,
    masked: bool,
    now: u32,
    body: Body,
    started: Vec<&'static str>,
    finished: Vec<&'static str>,
    min_deadlines: Vec<u32>,
    parked_at_start: Vec<(&'static str, usize)>,
}

fn idle_body(_board: &mut Board, _name: &'static str) {}

impl Board {
    fn new(body: Body) -> Board {
        let mut scheduler = Scheduler::new();
        scheduler.init();
        let first = scheduler.min_deadline();
        Board {
            scheduler,
            pending: [false; NUM_DISPATCHERS],
            entered: Vec::new(),
            masked: false,
            now: 0,
            body,
            started: Vec::new(),
            finished: Vec::new(),
            min_deadlines: vec![first],
            parked_at_start: Vec::new(),
        }
    }

    fn note_min_deadline(&mut self) {
        let current = self.scheduler.min_deadline();
        if self.min_deadlines.last() != Some(&current) {
            self.min_deadlines.push(current);
        }
    }

    /// Submits a task and lets the interrupt controller act on it.
    fn submit(
        &mut self,
        rel_deadline: u32,
        level: u8,
        name: &'static str,
    ) -> Result<Option<u8>, SchedulerError> {
        let outcome = self.scheduler.try_schedule(Task::new(rel_deadline, level, name), self.now);
        if let Ok(Some(pend)) = outcome {
            self.pending[pend as usize] = true;
        }
        self.note_min_deadline();
        self.deliver();
        outcome
    }

    /// Enters pended dispatchers, most urgent first, as long as one is more
    /// urgent than what runs.
    fn deliver(&mut self) {
        while !self.masked {
            let floor = self.entered.last().map(|level| *level as usize + 1).unwrap_or(0);
            let next = (floor..NUM_DISPATCHERS).rev().find(|level| self.pending[*level]);
            match next {
                Some(level) => self.dispatch(level as u8),
                None => break,
            }
        }
    }

    fn dispatch(&mut self, level: u8) {
        self.pending[level as usize] = false;
        let task = self.scheduler.try_start_task(level).ok().expect("the slot holds a task");
        let name = task.callback();
        self.entered.push(level);
        self.started.push(name);
        self.parked_at_start.push((name, self.scheduler.parked().len()));
        let body = self.body;
        body(self, name);
        let before = task.prev_deadline();
        self.masked = true;
        let pend = self
            .scheduler
            .try_complete_task(level, task)
            .expect("the cascade finds its slot empty");
        if pend.is_none() {
            assert_eq!(self.scheduler.min_deadline(), before);
        }
        if let Some(pend) = pend {
            self.pending[pend as usize] = true;
        }
        self.note_min_deadline();
        self.finished.push(name);
        self.entered.pop();
        self.masked = false;
    }

    fn unmask(&mut self) {
        self.masked = false;
        self.deliver();
    }
}

#[test]
fn simple_ordering() {
    let mut board = Board::new(idle_body);
    board.masked = true;
    assert_eq!(board.submit(1000, 0, "A"), Ok(Some(0)));
    assert_eq!(board.submit(500, 1, "B"), Ok(Some(1)));
    assert!(board.started.is_empty());
    board.unmask();
    assert_eq!(board.started, vec!["B", "A"]);
    assert_eq!(board.finished, vec!["B", "A"]);
    assert_eq!(board.scheduler.min_deadline(), u32::MAX);
    assert_eq!(board.min_deadlines, vec![u32::MAX, 1000, 500, 1000, u32::MAX]);
}

fn parking_body(board: &mut Board, name: &'static str) {
    if name == "A" {
        assert!(board.scheduler.running().is_entered(0));
        assert!(!board.scheduler.running().is_occupied(0));
        assert_eq!(board.submit(10_000, 0, "B"), Ok(None));
        assert_eq!(board.scheduler.parked().len(), 1);
        assert_eq!(board.scheduler.parked().peek_deadline(), Some(10_000));
        assert_eq!(board.scheduler.min_deadline(), 100);
        assert!(!board.scheduler.running().is_occupied(0));
        assert_eq!(board.pending, [false; NUM_DISPATCHERS]);
        assert_eq!(board.started, vec!["A"]);
    }
}

#[test]
fn non_preempting_park() {
    let mut board = Board::new(parking_body);
    assert_eq!(board.submit(100, 0, "A"), Ok(Some(0)));
    assert_eq!(board.started, vec!["A", "B"]);
    assert_eq!(board.finished, vec!["A", "B"]);
    assert_eq!(board.parked_at_start, vec![("A", 0), ("B", 0)]);
    assert!(board.scheduler.parked().is_empty());
    assert_eq!(board.min_deadlines, vec![u32::MAX, 100, 10_000, u32::MAX]);
}

#[test]
fn non_preempting_park_while_the_first_task_waits() {
    let mut board = Board::new(idle_body);
    board.masked = true;
    assert_eq!(board.submit(100, 0, "A"), Ok(Some(0)));
    assert_eq!(board.submit(10_000, 0, "B"), Ok(None));
    assert_eq!(board.scheduler.parked().len(), 1);
    assert_eq!(board.scheduler.parked().peek_deadline(), Some(10_000));
    assert_eq!(board.scheduler.min_deadline(), 100);
    board.unmask();
    assert_eq!(board.parked_at_start[0], ("A", 1));
    assert_eq!(board.started, vec!["A", "B"]);
    assert_eq!(board.finished, vec!["A", "B"]);
    assert!(board.scheduler.parked().is_empty());
    assert_eq!(board.scheduler.min_deadline(), u32::MAX);
}

fn nesting_body(board: &mut Board, name: &'static str) {
    match name {
        "A" => {
            assert_eq!(board.submit(500, 1, "B"), Ok(Some(1)));
            assert_eq!(board.finished, vec!["C", "B"]);
        },
        "B" => {
            assert_eq!(board.submit(200, 2, "C"), Ok(Some(2)));
            assert_eq!(board.finished, vec!["C"]);
        },
        _ => {
            assert_eq!(board.entered, vec![0, 1, 2]);
            assert_eq!(board.scheduler.min_deadline(), 200);
        },
    }
}

#[test]
fn nested_preemption() {
    let mut board = Board::new(nesting_body);
    assert_eq!(board.submit(1000, 0, "A"), Ok(Some(0)));
    assert_eq!(board.started, vec!["A", "B", "C"]);
    assert_eq!(board.finished, vec!["C", "B", "A"]);
    assert_eq!(
        board.min_deadlines,
        vec![u32::MAX, 1000, 500, 200, 500, 1000, u32::MAX]
    );
    assert!(board.scheduler.running().all_empty());
    assert!(board.scheduler.parked().is_empty());
}

#[test]
fn cascade_from_parked() {
    let mut board = Board::new(idle_body);
    board.masked = true;
    assert_eq!(board.submit(100, 0, "A"), Ok(Some(0)));
    assert_eq!(board.submit(200, 0, "B"), Ok(None));
    assert_eq!(board.submit(300, 0, "C"), Ok(None));
    board.unmask();
    assert_eq!(board.started, vec!["A", "B", "C"]);
    assert_eq!(board.finished, vec!["A", "B", "C"]);
    assert_eq!(board.parked_at_start, vec![("A", 2), ("B", 1), ("C", 0)]);
    assert_eq!(board.min_deadlines, vec![u32::MAX, 100, 200, 300, u32::MAX]);
}

#[test]
fn cascade_takes_parked_tasks_by_deadline_not_by_arrival() {
    let mut board = Board::new(idle_body);
    board.masked = true;
    assert_eq!(board.submit(100, 0, "A"), Ok(Some(0)));
    assert_eq!(board.submit(300, 0, "C"), Ok(None));
    assert_eq!(board.submit(200, 0, "B"), Ok(None));
    assert_eq!(board.submit(300, 0, "D"), Ok(None));
    board.unmask();
    assert_eq!(board.started, vec!["A", "B", "C", "D"]);
}

#[test]
fn submit_from_isr() {
    let mut board = Board::new(idle_body);
    board.now = 41;
    // The handler runs with the dispatchers held back until it returns.
    board.masked = true;
    assert_eq!(board.submit(1, 0, "T"), Ok(Some(0)));
    assert!(board.pending[0]);
    assert!(board.scheduler.running().is_occupied(0));
    assert_eq!(board.scheduler.min_deadline(), 42);
    assert!(board.started.is_empty());
    board.unmask();
    assert_eq!(board.started, vec!["T"]);
    assert_eq!(board.finished, vec!["T"]);
    assert_eq!(board.scheduler.min_deadline(), u32::MAX);
}

fn filling_body(board: &mut Board, name: &'static str) {
    if name == "running" {
        for _ in 0..QUEUE_CAPACITY {
            assert_eq!(board.submit(1000, 0, "waiting"), Ok(None));
        }
        assert_eq!(board.submit(1000, 0, "late"), Err(SchedulerError::QueueFull));
        assert_eq!(board.scheduler.parked().len(), QUEUE_CAPACITY);
        assert_eq!(board.scheduler.min_deadline(), 10);
        assert!(!board.scheduler.running().is_occupied(0));
        assert_eq!(board.started, vec!["running"]);
    }
}

#[test]
fn queue_full_halts_the_submission_past_capacity() {
    let mut board = Board::new(filling_body);
    assert_eq!(board.submit(10, 0, "running"), Ok(Some(0)));
    assert_eq!(SchedulerError::QueueFull.message(), "Task queue is full");
    assert_eq!(board.started.len(), QUEUE_CAPACITY + 1);
    assert!(!board.started.contains(&"late"));
    assert!(board.scheduler.parked().is_empty());
}

#[test]
fn queue_full_halts_while_the_first_task_waits() {
    let mut board = Board::new(idle_body);
    board.masked = true;
    assert_eq!(board.submit(10, 0, "running"), Ok(Some(0)));
    for _ in 0..QUEUE_CAPACITY {
        assert_eq!(board.submit(1000, 0, "waiting"), Ok(None));
    }
    assert_eq!(board.submit(1000, 0, "late"), Err(SchedulerError::QueueFull));
    assert_eq!(board.scheduler.parked().len(), QUEUE_CAPACITY);
    board.unmask();
    assert_eq!(board.started.len(), QUEUE_CAPACITY + 1);
    assert!(!board.started.contains(&"late"));
}

#[test]
fn earlier_deadlines_start_first() {
    let mut board = Board::new(idle_body);
    board.masked = true;
    assert_eq!(board.submit(900, 0, "900"), Ok(Some(0)));
    assert_eq!(board.submit(950, 0, "950"), Ok(None));
    assert_eq!(board.submit(400, 1, "400"), Ok(Some(1)));
    assert_eq!(board.submit(700, 1, "700"), Ok(None));
    assert_eq!(board.submit(100, 2, "100"), Ok(Some(2)));
    assert_eq!(board.submit(400, 2, "400 again"), Ok(None));
    assert_eq!(board.submit(250, 2, "250"), Ok(None));
    board.unmask();
    assert_eq!(
        board.started,
        vec!["100", "250", "400", "400 again", "700", "900", "950"]
    );
    assert_eq!(board.scheduler.min_deadline(), u32::MAX);
}

#[test]
fn minimum_deadline_comes_back_after_every_dispatcher() {
    let mut board = Board::new(nesting_body);
    assert_eq!(board.submit(1000, 0, "A"), Ok(Some(0)));
    let mins = board.min_deadlines.clone();
    assert_eq!(mins.len(), 7);
    for i in 0..3 {
        assert_eq!(mins[i], mins[6 - i]);
    }
}

#[test]
fn every_submitted_task_runs_exactly_once() {
    let mut board = Board::new(idle_body);
    board.masked = true;
    let names = ["a", "b", "c", "d", "e", "f", "g", "h"];
    let deadlines = [50, 80, 20, 80, 10, 60, 5, 70];
    let levels = [0, 0, 1, 2, 2, 0, 2, 1];
    let mut accepted = Vec::new();
    for i in 0..names.len() {
        if board.submit(deadlines[i], levels[i], names[i]).is_ok() {
            accepted.push(names[i]);
        }
    }
    board.unmask();
    assert_eq!(board.started.len(), accepted.len());
    for name in accepted {
        assert_eq!(board.started.iter().filter(|started| **started == name).count(), 1);
        assert_eq!(board.finished.iter().filter(|finished| **finished == name).count(), 1);
    }
    assert!(board.scheduler.running().all_empty());
    assert!(board.scheduler.parked().is_empty());
}

#[test]
fn a_slot_never_takes_a_second_task() {
    let mut board = Board::new(idle_body);
    board.masked = true;
    assert_eq!(board.submit(500, 1, "first"), Ok(Some(1)));
    assert_eq!(board.submit(400, 1, "second"), Err(SchedulerError::SlotConflict));
    assert_eq!(board.scheduler.min_deadline(), 500);
    board.unmask();
    assert_eq!(board.started, vec!["first"]);
}

#[test]
fn as_many_submissions_as_the_queue_holds_never_find_it_full() {
    let mut board = Board::new(idle_body);
    board.masked = true;
    for i in 0..QUEUE_CAPACITY {
        let outcome = board.submit(10 + i as u32, 0, "task");
        assert!(outcome != Err(SchedulerError::QueueFull));
        assert!(outcome.is_ok());
    }
    assert_eq!(board.scheduler.parked().len(), QUEUE_CAPACITY - 1);
    board.unmask();
    assert_eq!(board.started.len(), QUEUE_CAPACITY);
}

#[test]
fn a_parked_task_is_promoted_when_nothing_else_waits() {
    let mut board = Board::new(idle_body);
    board.masked = true;
    assert_eq!(board.submit(10, 0, "A"), Ok(Some(0)));
    assert_eq!(board.submit(u32::MAX, 2, "T"), Ok(None));
    let running = board.scheduler.try_start_task(0).ok().unwrap();
    assert!(!board.scheduler.running().all_empty());
    assert!(board.scheduler.running().is_entered(0));
    assert_eq!(board.scheduler.parked().len(), 1);
    assert_eq!(board.scheduler.try_complete_task(0, running), Ok(Some(2)));
    assert!(board.scheduler.parked().is_empty());
    assert!(board.scheduler.running().is_occupied(2));
    let promoted = board.scheduler.try_start_task(2).ok().unwrap();
    assert_eq!(promoted.callback(), "T");
}

fn late_body(board: &mut Board, name: &'static str) {
    if name == "A" {
        // A runs, so the newcomer with the later deadline waits.
        assert_eq!(board.submit(10_000, 1, "B"), Ok(None));
        assert_eq!(board.scheduler.min_deadline(), 100);
        assert!(board.finished.is_empty());
    }
}

#[test]
fn a_later_task_submitted_while_the_only_task_runs_is_parked() {
    let mut board = Board::new(late_body);
    assert_eq!(board.submit(100, 0, "A"), Ok(Some(0)));
    assert_eq!(board.started, vec!["A", "B"]);
    assert_eq!(board.finished, vec!["A", "B"]);
    assert_eq!(board.min_deadlines, vec![u32::MAX, 100, 10_000, u32::MAX]);
}

fn queueing_body(board: &mut Board, name: &'static str) {
    if name == "A" {
        assert_eq!(board.scheduler.parked().len(), 1);
        assert!(!board.scheduler.running().all_empty());
        // B is parked and due at 200. C is due at 300 and waits behind it.
        assert_eq!(board.submit(300, 1, "C"), Ok(None));
        assert_eq!(board.scheduler.parked().len(), 2);
        assert_eq!(board.scheduler.min_deadline(), 100);
        assert!(board.finished.is_empty());
    }
}

#[test]
fn a_later_task_does_not_overtake_a_parked_one() {
    let mut board = Board::new(queueing_body);
    board.masked = true;
    assert_eq!(board.submit(100, 0, "A"), Ok(Some(0)));
    assert_eq!(board.submit(200, 0, "B"), Ok(None));
    board.unmask();
    assert_eq!(board.started, vec!["A", "B", "C"]);
    assert_eq!(board.finished, vec!["A", "B", "C"]);
    assert_eq!(board.min_deadlines, vec![u32::MAX, 100, 200, 300, u32::MAX]);
}

fn raising_body(board: &mut Board, name: &'static str) {
    let before = board.scheduler.min_deadline();
    match name {
        "A" => {
            assert_eq!(board.submit(700, 1, "later"), Ok(None));
            assert_eq!(board.scheduler.min_deadline(), before);
            assert_eq!(board.submit(500, 1, "equal"), Ok(None));
            assert_eq!(board.scheduler.min_deadline(), before);
            assert_eq!(board.submit(300, 1, "B"), Ok(Some(1)));
        },
        "B" => {
            assert_eq!(before, 300);
            assert_eq!(board.submit(400, 2, "between"), Ok(None));
            assert_eq!(board.scheduler.min_deadline(), 300);
        },
        _ => {},
    }
}

#[test]
fn a_submission_never_raises_the_minimum_deadline() {
    let mut board = Board::new(raising_body);
    assert_eq!(board.submit(500, 0, "A"), Ok(Some(0)));
    assert_eq!(board.started, vec!["A", "B", "between", "equal", "later"]);
    assert_eq!(board.finished, vec!["B", "between", "A", "equal", "later"]);
    assert_eq!(board.scheduler.min_deadline(), u32::MAX);
}

fn strict_body(board: &mut Board, name: &'static str) {
    match name {
        "A" => {
            assert_eq!(board.submit(500, 1, "B"), Ok(Some(1)));
            // When B left, 1000 was in force again and d, due at 500, was
            // promoted and ran.
            assert_eq!(board.finished, vec!["C", "B", "d"]);
            assert_eq!(board.scheduler.min_deadline(), 1000);
            assert!(board.scheduler.parked().is_empty());
        },
        "B" => {
            assert_eq!(board.submit(200, 2, "C"), Ok(Some(2)));
            assert_eq!(board.finished, vec!["C"]);
            // C left while A and B still run: d stays parked.
            assert_eq!(board.scheduler.min_deadline(), 500);
            assert_eq!(board.scheduler.parked().len(), 1);
            assert_eq!(board.pending, [false; NUM_DISPATCHERS]);
            assert!(!board.scheduler.running().is_occupied(2));
        },
        "C" => {
            assert_eq!(board.submit(500, 2, "d"), Ok(None));
            assert_eq!(board.scheduler.parked().peek_deadline(), Some(500));
        },
        _ => {},
    }
}

#[test]
fn the_cascade_compares_strictly_while_tasks_run() {
    let mut board = Board::new(strict_body);
    board.now = 0;
    assert_eq!(board.submit(1000, 0, "A"), Ok(Some(0)));
    assert_eq!(board.started, vec!["A", "B", "C", "d"]);
    assert_eq!(board.finished, vec!["C", "B", "d", "A"]);
    assert_eq!(board.scheduler.min_deadline(), u32::MAX);
}

#[test]
fn a_level_below_a_waiting_task_is_entered_later() {
    let mut board = Board::new(idle_body);
    board.masked = true;
    assert_eq!(board.submit(1000, 2, "late"), Ok(Some(2)));
    assert_eq!(board.submit(500, 1, "early"), Ok(Some(1)));
    board.unmask();
    // The controller goes by the levels, not by the deadlines, and each task
    // puts back the minimum deadline that it found.
    assert_eq!(board.started, vec!["late", "early"]);
    assert_eq!(board.min_deadlines, vec![u32::MAX, 1000, 500, u32::MAX, 1000]);
    assert_eq!(board.scheduler.min_deadline(), 1000);
}
