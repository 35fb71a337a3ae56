//! The scheduler core: the preemption decision on submission, the promotion
//! of a task to a dispatcher, and the cleanup and cascade when a task
//! completes.
//!
//! Levels are explicit: every task names the dispatcher level that runs it,
//! and a promotion needs the slot of that level to be empty.
//!
//! A task is dispatched, or in flight, from its promotion until the
//! dispatcher that ran it leaves: while it waits in its slot, and while its
//! dispatcher is entered.

use vstd::prelude::*;
use crate::Timestamp;
use crate::dispatchers::{dispatcher_priority, nvic_priority, NUM_DISPATCHERS};
use crate::parked::{earliest, ParkedQueue, QUEUE_CAPACITY};
use crate::slots::{all_empty, DispatchSlots};
use crate::task::{
    promoted, queued, RunningTask, RunningTaskView, ScheduledTask, ScheduledTaskView, Task, TaskView,
};

verus! {

/// The minimum deadline while no task is in flight: no deadline is later.
pub const NO_DEADLINE: Timestamp = 0xffff_ffff;

/// The conditions under which the scheduler cannot go on. Each is a bug in
/// how the scheduler is configured or used, and its caller halts on it.
#[derive(Clone, Copy, Debug, PartialEq, Eq, Structural)]
pub enum SchedulerError {
    /// A task was submitted before the scheduler was initialised.
    NotInitialized,
    /// A task had to be parked and the parked queue was at capacity.
    QueueFull,
    /// A task had to be promoted and the slot of its level held a task.
    SlotConflict,
    /// A dispatcher was entered and its slot held no task.
    SlotEmpty,
    /// A level was named that no dispatcher serves.
    NoSuchDispatcher,
}

impl SchedulerError {
    /// The description to halt with.
    pub fn message(&self) -> (message: &'static str)
        ensures
            *self == SchedulerError::NotInitialized ==> message@ == "Scheduler not initialized"@,
            *self == SchedulerError::QueueFull ==> message@ == "Task queue is full"@,
            *self == SchedulerError::SlotConflict ==> message@ == "BUG: dispatcher slot is occupied"@,
            *self == SchedulerError::SlotEmpty ==> message@
                == "BUG: a task is supposed to be enqueued here"@,
            *self == SchedulerError::NoSuchDispatcher ==> message@
                == "BUG: dispatcher idx doesn't exist"@,
    {
        match self {
            SchedulerError::NotInitialized => "Scheduler not initialized",
            SchedulerError::QueueFull => "Task queue is full",
            SchedulerError::SlotConflict => "BUG: dispatcher slot is occupied",
            SchedulerError::SlotEmpty => "BUG: a task is supposed to be enqueued here",
            SchedulerError::NoSuchDispatcher => "BUG: dispatcher idx doesn't exist",
        }
    }
}

/// What a [`Scheduler`] is.
pub struct SchedulerView<F> {
    /// Whether the scheduler was initialised.
    pub ready: bool,
    /// The minimum deadline: that of the task that was promoted last, until
    /// a task completes and puts back what it found; [`NO_DEADLINE`] at first.
    pub min_deadline: Timestamp,
    /// The dispatch slots, lowest level first.
    pub slots: Seq<Option<RunningTaskView<F>>>,
    /// For each level, lowest first, whether its dispatcher is entered: it
    /// took a task from its slot and has not left.
    pub entered: Seq<bool>,
    /// The parked tasks, in the order of their arrival.
    pub parked: Seq<ScheduledTaskView<F>>,
}

impl<F> SchedulerView<F> {
    /// There is one slot and one mark per dispatcher, and the parked queue is
    /// within its capacity.
    pub open spec fn valid(self) -> bool {
        &&& self.slots.len() == NUM_DISPATCHERS
        &&& self.entered.len() == NUM_DISPATCHERS
        &&& self.parked.len() <= QUEUE_CAPACITY
    }

    /// Whether no task is in flight: no slot holds a task, and no dispatcher
    /// is entered.
    pub open spec fn idle(self) -> bool {
        all_empty(self.slots, self.entered)
    }

    /// The scheduler as [`Scheduler::new`] makes it.
    pub open spec fn initial() -> Self {
        SchedulerView {
            ready: false,
            min_deadline: NO_DEADLINE,
            slots: Seq::new(NUM_DISPATCHERS as nat, |level: int| None),
            entered: Seq::new(NUM_DISPATCHERS as nat, |level: int| false),
            parked: Seq::empty(),
        }
    }

    /// Whether a task that is due at `deadline` is promoted at once: it is
    /// due before the minimum deadline, or no task is in flight.
    pub open spec fn preempts(self, deadline: Timestamp) -> bool {
        deadline < self.min_deadline || self.idle()
    }

    /// What stands in the way of promoting `task`, if anything.
    pub open spec fn promotion_error(self, task: ScheduledTaskView<F>) -> Option<SchedulerError> {
        if task.dispatcher_prio >= NUM_DISPATCHERS {
            Some(SchedulerError::NoSuchDispatcher)
        } else if self.slots[task.dispatcher_prio as int] is Some {
            Some(SchedulerError::SlotConflict)
        } else {
            None
        }
    }

    /// The scheduler after the promotion of `task`: the task's deadline is the
    /// minimum deadline, and the slot of its level holds the task with the
    /// minimum deadline that was in force before.
    pub open spec fn promote(self, task: ScheduledTaskView<F>) -> Self {
        SchedulerView {
            min_deadline: task.deadline,
            slots: self.slots.update(
                task.dispatcher_prio as int,
                Some(promoted(task, self.min_deadline)),
            ),
            ..self
        }
    }

    /// What stands in the way of submitting `task` at `now`, if anything.
    pub open spec fn schedule_error(self, task: TaskView<F>, now: Timestamp) -> Option<SchedulerError> {
        if !self.ready {
            Some(SchedulerError::NotInitialized)
        } else if self.preempts(queued(task, now).deadline) {
            self.promotion_error(queued(task, now))
        } else if self.parked.len() >= QUEUE_CAPACITY {
            Some(SchedulerError::QueueFull)
        } else {
            None
        }
    }

    /// The scheduler after the submission of `task` at `now`: the task is
    /// promoted if it preempts, and parked behind the others if not.
    pub open spec fn schedule(self, task: TaskView<F>, now: Timestamp) -> Self {
        if self.preempts(queued(task, now).deadline) {
            self.promote(queued(task, now))
        } else {
            SchedulerView { parked: self.parked.push(queued(task, now)), ..self }
        }
    }

    /// The level whose dispatcher is to be pended after the submission of
    /// `task` at `now`: that of the task if it is promoted, none if it is
    /// parked.
    pub open spec fn schedule_pends(self, task: TaskView<F>, now: Timestamp) -> Option<u8> {
        if self.preempts(queued(task, now).deadline) {
            Some(task.dispatcher_prio)
        } else {
            None
        }
    }

    /// What stands in the way of entering the dispatcher of level `level`, if
    /// anything.
    pub open spec fn start_error(self, level: u8) -> Option<SchedulerError> {
        if level >= NUM_DISPATCHERS {
            Some(SchedulerError::NoSuchDispatcher)
        } else if self.slots[level as int] is None {
            Some(SchedulerError::SlotEmpty)
        } else {
            None
        }
    }

    /// The scheduler after the dispatcher of level `level` took its task: the
    /// slot is empty, and the dispatcher is entered.
    pub open spec fn start(self, level: u8) -> Self {
        SchedulerView {
            slots: self.slots.update(level as int, None),
            entered: self.entered.update(level as int, true),
            ..self
        }
    }

    /// The scheduler after the dispatcher of level `level` left, whose task
    /// was promoted while the minimum deadline was `prev_deadline`, before the
    /// cascade: the dispatcher is no longer entered, and that deadline is in
    /// force again.
    pub open spec fn leave(self, level: u8, prev_deadline: Timestamp) -> Self {
        SchedulerView {
            min_deadline: prev_deadline,
            entered: self.entered.update(level as int, false),
            ..self
        }
    }

    /// The parked task that leaves next.
    pub open spec fn next_parked(self) -> ScheduledTaskView<F> {
        self.parked[earliest(self.parked)]
    }

    /// Whether the parked task that leaves next is promoted now.
    pub open spec fn cascades(self) -> bool {
        self.parked.len() > 0 && self.preempts(self.next_parked().deadline)
    }

    /// The scheduler without the parked task that leaves next.
    pub open spec fn unpark(self) -> Self {
        SchedulerView { parked: self.parked.remove(earliest(self.parked)), ..self }
    }

    /// What stands in the way of leaving the dispatcher of level `level`,
    /// whose task was promoted while the minimum deadline was
    /// `prev_deadline`, if anything.
    pub open spec fn complete_error(self, level: u8, prev_deadline: Timestamp) -> Option<
        SchedulerError,
    > {
        if level >= NUM_DISPATCHERS {
            Some(SchedulerError::NoSuchDispatcher)
        } else if self.leave(level, prev_deadline).cascades() {
            self.promotion_error(self.next_parked())
        } else {
            None
        }
    }

    /// The scheduler after the completion of the task of the dispatcher of
    /// level `level`, which was promoted while the minimum deadline was
    /// `prev_deadline`: the dispatcher is no longer entered, that deadline is
    /// in force again, and if the parked task that leaves next then preempts,
    /// it is promoted.
    pub open spec fn complete(self, level: u8, prev_deadline: Timestamp) -> Self {
        if self.leave(level, prev_deadline).cascades() {
            self.leave(level, prev_deadline).unpark().promote(self.next_parked())
        } else {
            self.leave(level, prev_deadline)
        }
    }

    /// The level whose dispatcher is to be pended after the completion of the
    /// task of the dispatcher of level `level`, which was promoted while the
    /// minimum deadline was `prev_deadline`.
    pub open spec fn complete_pends(self, level: u8, prev_deadline: Timestamp) -> Option<u8> {
        if self.leave(level, prev_deadline).cascades() {
            Some(self.next_parked().dispatcher_prio)
        } else {
            None
        }
    }
}

/// The shared state of the scheduler.
///
/// The caller keeps one scheduler for the whole program and touches it only
/// while interrupts are masked.
pub struct Scheduler<F> {
    ready: bool,
    min_deadline: Timestamp,
    running: DispatchSlots<F>,
    parked: ParkedQueue<F>,
}

impl<F> View for Scheduler<F> {
    type V = SchedulerView<F>;

    closed spec fn view(&self) -> SchedulerView<F> {
        SchedulerView {
            ready: self.ready,
            min_deadline: self.min_deadline,
            slots: self.running@.waiting,
            entered: self.running@.entered,
            parked: self.parked@,
        }
    }
}

impl<F> Default for Scheduler<F> {
    /// The scheduler that [`Scheduler::new`] makes.
    fn default() -> (scheduler: Self)
        ensures
            scheduler.wf(),
            scheduler@ == SchedulerView::<F>::initial(),
    {
        Self::new()
    }
}

impl<F> Scheduler<F> {
    /// The parts of the scheduler are consistent with each other.
    pub closed spec fn wf(&self) -> bool {
        self.parked.wf()
    }

    /// A well-formed scheduler has a valid view.
    pub proof fn lemma_valid(&self)
        requires
            self.wf(),
        ensures
            self@.valid(),
    {
        self.running.lemma_len();
        self.parked.lemma_bounded();
    }

    /// A scheduler that is not ready, with no task in flight and none parked.
    pub fn new() -> (scheduler: Self)
        ensures
            scheduler.wf(),
            scheduler@ == SchedulerView::<F>::initial(),
    {
        let scheduler = Scheduler {
            ready: false,
            min_deadline: NO_DEADLINE,
            running: DispatchSlots::new(),
            parked: ParkedQueue::new(),
        };
        proof {
            assert(scheduler@.slots =~= SchedulerView::<F>::initial().slots);
            assert(scheduler@.entered =~= SchedulerView::<F>::initial().entered);
        }
        scheduler
    }

    /// Whether the scheduler was initialised.
    pub fn check_init(&self) -> (checked: Result<(), SchedulerError>)
        ensures
            self@.ready ==> checked is Ok,
            !self@.ready ==> checked == Err::<(), _>(SchedulerError::NotInitialized),
    {
        if self.ready {
            Ok(())
        } else {
            Err(SchedulerError::NotInitialized)
        }
    }

    /// Marks the scheduler ready and gives the priority to configure for the
    /// dispatcher of each level, lowest level first. The caller masks
    /// interrupts, and unpends, unmasks and sets the priority of each
    /// dispatcher interrupt.
    pub fn init(&mut self) -> (priorities: [u8; NUM_DISPATCHERS])
        requires
            old(self).wf(),
        ensures
            final(self).wf(),
            final(self)@ == (SchedulerView { ready: true, ..old(self)@ }),
            forall|level: u8|
                level < NUM_DISPATCHERS ==> #[trigger] priorities@[level as int] == nvic_priority(level),
    {
        let mut priorities: [u8; NUM_DISPATCHERS] = [0, 0, 0];
        let mut level: u8 = 0;
        while level < NUM_DISPATCHERS as u8
            invariant
                0 <= level <= NUM_DISPATCHERS,
                forall|below: u8|
                    below < level ==> #[trigger] priorities@[below as int] == nvic_priority(below),
            decreases NUM_DISPATCHERS - level,
        {
            priorities[level as usize] = dispatcher_priority(level);
            level += 1;
        }
        self.ready = true;
        priorities
    }

    /// The minimum deadline in force.
    pub fn min_deadline(&self) -> (deadline: Timestamp)
        ensures
            deadline == self@.min_deadline,
    {
        self.min_deadline
    }

    /// The dispatch slots.
    pub fn running(&self) -> (slots: &DispatchSlots<F>)
        ensures
            slots@.waiting == self@.slots,
            slots@.entered == self@.entered,
    {
        &self.running
    }

    /// The parked queue.
    pub fn parked(&self) -> (queue: &ParkedQueue<F>)
        ensures
            queue@ == self@.parked,
            self.wf() ==> queue.wf(),
    {
        &self.parked
    }

    /// What stands in the way of promoting `task`, if anything.
    fn check_promotion(&self, task: &ScheduledTask<F>) -> (error: Option<SchedulerError>)
        ensures
            error == self@.promotion_error(task@),
    {
        let level = task.dispatcher_prio();
        if level as usize >= NUM_DISPATCHERS {
            Some(SchedulerError::NoSuchDispatcher)
        } else if self.running.is_occupied(level as usize) {
            Some(SchedulerError::SlotConflict)
        } else {
            None
        }
    }

    /// Promotes `task`: its deadline becomes the minimum deadline, and the
    /// slot of its level gets the task together with the minimum deadline that
    /// was in force. Returns the level whose dispatcher is to be pended.
    pub fn execute(&mut self, task: ScheduledTask<F>) -> (level: u8)
        requires
            old(self).wf(),
            old(self)@.promotion_error(task@) is None,
        ensures
            final(self).wf(),
            final(self)@ == old(self)@.promote(task@),
            level == task@.dispatcher_prio,
    {
        let prev_deadline = self.min_deadline;
        self.min_deadline = task.abs_deadline();
        let level = task.dispatcher_prio();
        self.running.store(RunningTask::from_scheduled(task, prev_deadline), level as usize);
        level
    }

    /// What stands in the way of submitting `task` at `now`, if anything.
    pub fn schedule_check(&self, task: &Task<F>, now: Timestamp) -> (error: Option<SchedulerError>)
        requires
            self.wf(),
        ensures
            error == self@.schedule_error(task@, now),
    {
        if !self.ready {
            return Some(SchedulerError::NotInitialized);
        }
        let deadline = now.wrapping_add(task.rel_deadline());
        if deadline < self.min_deadline || self.running.all_empty() {
            let level = task.dispatcher_prio();
            if level as usize >= NUM_DISPATCHERS {
                Some(SchedulerError::NoSuchDispatcher)
            } else if self.running.is_occupied(level as usize) {
                Some(SchedulerError::SlotConflict)
            } else {
                None
            }
        } else if self.parked.is_full() {
            Some(SchedulerError::QueueFull)
        } else {
            None
        }
    }

    /// Submits `task` at the time `now`. If the task is due before the
    /// minimum deadline, or no task is in flight, it is promoted, and the
    /// level is returned whose dispatcher is to be pended. Otherwise it is
    /// parked and nothing is to be pended.
    pub fn schedule(&mut self, task: Task<F>, now: Timestamp) -> (pend: Option<u8>)
        requires
            old(self).wf(),
            old(self)@.schedule_error(task@, now) is None,
        ensures
            final(self).wf(),
            final(self)@ == old(self)@.schedule(task@, now),
            pend == old(self)@.schedule_pends(task@, now),
    {
        let task = task.into_queued(now);
        if task.abs_deadline() < self.min_deadline || self.running.all_empty() {
            Some(self.execute(task))
        } else {
            let parked = self.parked.push(task);
            assert(parked is Ok);
            None
        }
    }

    /// Submits `task` at the time `now` as [`schedule`](Self::schedule) does,
    /// or says what stands in the way and leaves the scheduler as it is.
    pub fn try_schedule(&mut self, task: Task<F>, now: Timestamp) -> (pend: Result<
        Option<u8>,
        SchedulerError,
    >)
        requires
            old(self).wf(),
        ensures
            final(self).wf(),
            match old(self)@.schedule_error(task@, now) {
                Some(error) => pend == Err::<Option<u8>, _>(error) && final(self)@ == old(self)@,
                None => pend == Ok::<_, SchedulerError>(old(self)@.schedule_pends(task@, now))
                    && final(self)@ == old(self)@.schedule(task@, now),
            },
    {
        match self.schedule_check(&task, now) {
            Some(error) => Err(error),
            None => Ok(self.schedule(task, now)),
        }
    }

    /// What stands in the way of entering the dispatcher of level `level`, if
    /// anything.
    pub fn start_check(&self, level: u8) -> (error: Option<SchedulerError>)
        ensures
            error == self@.start_error(level),
    {
        if level as usize >= NUM_DISPATCHERS {
            Some(SchedulerError::NoSuchDispatcher)
        } else if !self.running.is_occupied(level as usize) {
            Some(SchedulerError::SlotEmpty)
        } else {
            None
        }
    }

    /// Enters the dispatcher of level `level`: empties its slot and hands out
    /// the task that was there, for the caller to run.
    pub fn start_task(&mut self, level: u8) -> (task: RunningTask<F>)
        requires
            old(self).wf(),
            old(self)@.start_error(level) is None,
        ensures
            final(self).wf(),
            final(self)@ == old(self)@.start(level),
            Some(task@) == old(self)@.slots[level as int],
    {
        let task = self.running.take(level as usize);
        task.unwrap()
    }

    /// Enters the dispatcher of level `level` as
    /// [`start_task`](Self::start_task) does, or says what stands in the way
    /// and leaves the scheduler as it is.
    pub fn try_start_task(&mut self, level: u8) -> (task: Result<RunningTask<F>, SchedulerError>)
        requires
            old(self).wf(),
        ensures
            final(self).wf(),
            match old(self)@.start_error(level) {
                Some(error) => (task matches Err(found) && found == error)
                    && final(self)@ == old(self)@,
                None => (task matches Ok(running) && Some(running@) == old(self)@.slots[level as int])
                    && final(self)@ == old(self)@.start(level),
            },
    {
        match self.start_check(level) {
            Some(error) => Err(error),
            None => Ok(self.start_task(level)),
        }
    }

    /// What stands in the way of leaving the dispatcher of level `level`
    /// after it ran `task`, if anything.
    pub fn complete_check(&self, level: u8, task: &RunningTask<F>) -> (error: Option<SchedulerError>)
        requires
            self.wf(),
        ensures
            error == self@.complete_error(level, task@.prev_deadline),
    {
        if level as usize >= NUM_DISPATCHERS {
            return Some(SchedulerError::NoSuchDispatcher);
        }
        match self.parked.peek() {
            None => None,
            Some(next) => {
                if next.abs_deadline() < task.prev_deadline() || self.running.all_empty_but(
                    level as usize,
                ) {
                    self.check_promotion(next)
                } else {
                    None
                }
            },
        }
    }

    /// Leaves the dispatcher of level `level` after it ran `task` and the
    /// task returned. The dispatcher is no longer entered, and the minimum
    /// deadline that was in force before the task was promoted is in force
    /// again. Then, if a task is parked that is due before that deadline, or
    /// if a task is parked and no task is in flight any more, the parked task
    /// that leaves next is promoted, and the level is returned whose
    /// dispatcher is to be pended.
    pub fn complete_task(&mut self, level: u8, task: RunningTask<F>) -> (pend: Option<u8>)
        requires
            old(self).wf(),
            old(self)@.complete_error(level, task@.prev_deadline) is None,
        ensures
            final(self).wf(),
            final(self)@ == old(self)@.complete(level, task@.prev_deadline),
            pend == old(self)@.complete_pends(level, task@.prev_deadline),
    {
        self.running.release(level as usize);
        self.min_deadline = task.prev_deadline();
        match self.parked.peek_deadline() {
            None => None,
            Some(deadline) => {
                if deadline < self.min_deadline || self.running.all_empty() {
                    let next = self.parked.pop_min().unwrap();
                    Some(self.execute(next))
                } else {
                    None
                }
            },
        }
    }

    /// Leaves the dispatcher of level `level` as
    /// [`complete_task`](Self::complete_task) does, or says what stands in the
    /// way and leaves the scheduler as it is.
    pub fn try_complete_task(&mut self, level: u8, task: RunningTask<F>) -> (pend: Result<
        Option<u8>,
        SchedulerError,
    >)
        requires
            old(self).wf(),
        ensures
            final(self).wf(),
            match old(self)@.complete_error(level, task@.prev_deadline) {
                Some(error) => pend == Err::<Option<u8>, _>(error) && final(self)@ == old(self)@,
                None => pend == Ok::<_, SchedulerError>(
                    old(self)@.complete_pends(level, task@.prev_deadline),
                ) && final(self)@ == old(self)@.complete(level, task@.prev_deadline),
            },
    {
        match self.complete_check(level, &task) {
            Some(error) => Err(error),
            None => Ok(self.complete_task(level, task)),
        }
    }
}

} // verus!
