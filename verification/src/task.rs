//! The three shapes a task takes on its way through the scheduler.

use vstd::prelude::*;
use vstd::std_specs::cmp::{PartialEqSpecImpl, PartialOrdSpecImpl};
use core::cmp::Ordering;
use crate::{Deadline, Timestamp};

verus! {

/// What a [`Task`] is: its relative deadline, the dispatcher level it asks
/// for, and the callback to run.
pub struct TaskView<F> {
    pub rel_deadline: Deadline,
    pub dispatcher_prio: u8,
    pub callback: F,
}

/// What a [`ScheduledTask`] is: its absolute deadline, the dispatcher level it
/// asks for, and the callback to run.
pub struct ScheduledTaskView<F> {
    pub deadline: Timestamp,
    pub dispatcher_prio: u8,
    pub callback: F,
}

/// What a [`RunningTask`] is: the deadline it was promoted with, the minimum
/// deadline that was in force before, and the callback to run. The task's own
/// deadline is kept for the contracts alone.
pub struct RunningTaskView<F> {
    pub deadline: Timestamp,
    pub prev_deadline: Timestamp,
    pub callback: F,
}

/// The absolute deadline of a task submitted at `now` with relative deadline
/// `rel_deadline`: their sum, wrapping at the width of the clock.
pub open spec fn absolute_deadline(now: Timestamp, rel_deadline: Deadline) -> Timestamp {
    ((now + rel_deadline) % 0x1_0000_0000) as u32
}

/// The scheduled form of the submitted task `task` at time `now`.
pub open spec fn queued<F>(task: TaskView<F>, now: Timestamp) -> ScheduledTaskView<F> {
    ScheduledTaskView {
        deadline: absolute_deadline(now, task.rel_deadline),
        dispatcher_prio: task.dispatcher_prio,
        callback: task.callback,
    }
}

/// The running form of the scheduled task `task`, promoted while the minimum
/// deadline was `prev_deadline`.
pub open spec fn promoted<F>(
    task: ScheduledTaskView<F>,
    prev_deadline: Timestamp,
) -> RunningTaskView<F> {
    RunningTaskView { deadline: task.deadline, prev_deadline, callback: task.callback }
}

/// A task as its submitter builds it.
///
/// `F` is the type of the callback, a nullary procedure without captured
/// state; on the target it is `fn()`.
#[derive(Debug)]
pub struct Task<F> {
    rel_deadline: Deadline,
    dispatcher_prio: u8,
    callback: F,
}

impl<F> View for Task<F> {
    type V = TaskView<F>;

    closed spec fn view(&self) -> TaskView<F> {
        TaskView {
            rel_deadline: self.rel_deadline,
            dispatcher_prio: self.dispatcher_prio,
            callback: self.callback,
        }
    }
}

impl<F> Task<F> {
    /// A task that is due `rel_deadline` ticks after its submission and runs
    /// `callback` from the dispatcher of level `dispatcher_prio`.
    pub fn new(rel_deadline: Deadline, dispatcher_prio: u8, callback: F) -> (task: Self)
        ensures
            task@ == (TaskView { rel_deadline, dispatcher_prio, callback }),
    {
        Self { rel_deadline, dispatcher_prio, callback }
    }

    /// The relative deadline.
    pub fn rel_deadline(&self) -> (d: Deadline)
        ensures
            d == self@.rel_deadline,
    {
        self.rel_deadline
    }

    /// The dispatcher level the task asks for.
    pub fn dispatcher_prio(&self) -> (level: u8)
        ensures
            level == self@.dispatcher_prio,
    {
        self.dispatcher_prio
    }

    /// Replaces the relative deadline and leaves the rest as it is.
    pub fn set_deadline(&mut self, deadline: Deadline)
        ensures
            final(self)@ == (TaskView { rel_deadline: deadline, ..old(self)@ }),
    {
        self.rel_deadline = deadline;
    }

    /// Fixes the absolute deadline of a task submitted at `now`.
    pub fn into_queued(self, now: Timestamp) -> (task: ScheduledTask<F>)
        ensures
            task@ == queued(self@, now),
    {
        ScheduledTask {
            deadline: now.wrapping_add(self.rel_deadline),
            dispatcher_prio: self.dispatcher_prio,
            callback: self.callback,
        }
    }
}

/// A task with its absolute deadline, waiting to be promoted.
#[derive(Debug)]
pub struct ScheduledTask<F> {
    deadline: Timestamp,
    dispatcher_prio: u8,
    callback: F,
}

impl<F> View for ScheduledTask<F> {
    type V = ScheduledTaskView<F>;

    closed spec fn view(&self) -> ScheduledTaskView<F> {
        ScheduledTaskView {
            deadline: self.deadline,
            dispatcher_prio: self.dispatcher_prio,
            callback: self.callback,
        }
    }
}

impl<F> ScheduledTask<F> {
    /// The absolute deadline.
    pub fn abs_deadline(&self) -> (d: Timestamp)
        ensures
            d == self@.deadline,
    {
        self.deadline
    }

    /// The dispatcher level the task asks for.
    pub fn dispatcher_prio(&self) -> (level: u8)
        ensures
            level == self@.dispatcher_prio,
    {
        self.dispatcher_prio
    }
}

impl<F> PartialEq for ScheduledTask<F> {
    /// Whether the two tasks are due at the same time.
    fn eq(&self, other: &Self) -> (equal: bool) {
        self.deadline == other.deadline
    }
}

impl<F> PartialEqSpecImpl for ScheduledTask<F> {
    open spec fn obeys_eq_spec() -> bool {
        true
    }

    open spec fn eq_spec(&self, other: &Self) -> bool {
        self@.deadline == other@.deadline
    }
}

impl<F> PartialOrd for ScheduledTask<F> {
    /// The order of urgency: the task that is due earlier is the lesser one,
    /// whatever else the tasks hold.
    fn partial_cmp(&self, other: &Self) -> (order: Option<Ordering>) {
        if self.deadline < other.deadline {
            Some(Ordering::Less)
        } else if self.deadline == other.deadline {
            Some(Ordering::Equal)
        } else {
            Some(Ordering::Greater)
        }
    }
}

impl<F> PartialOrdSpecImpl for ScheduledTask<F> {
    open spec fn obeys_partial_cmp_spec() -> bool {
        true
    }

    open spec fn partial_cmp_spec(&self, other: &Self) -> Option<Ordering> {
        if self@.deadline < other@.deadline {
            Some(Ordering::Less)
        } else if self@.deadline == other@.deadline {
            Some(Ordering::Equal)
        } else {
            Some(Ordering::Greater)
        }
    }
}

/// A task that was handed to a dispatcher.
pub struct RunningTask<F> {
    deadline: Ghost<Timestamp>,
    prev_deadline: Timestamp,
    callback: F,
}

impl<F> View for RunningTask<F> {
    type V = RunningTaskView<F>;

    closed spec fn view(&self) -> RunningTaskView<F> {
        RunningTaskView {
            deadline: self.deadline@,
            prev_deadline: self.prev_deadline,
            callback: self.callback,
        }
    }
}

impl<F> RunningTask<F> {
    /// Promotes `task`, remembering the minimum deadline `prev_deadline` that
    /// its completion has to restore.
    pub fn from_scheduled(task: ScheduledTask<F>, prev_deadline: Timestamp) -> (running: Self)
        ensures
            running@ == promoted(task@, prev_deadline),
    {
        Self { deadline: Ghost(task.deadline), prev_deadline, callback: task.callback }
    }

    /// The minimum deadline to restore when the task completes.
    pub fn prev_deadline(&self) -> (d: Timestamp)
        ensures
            d == self@.prev_deadline,
    {
        self.prev_deadline
    }

    /// The callback to run.
    pub fn callback(&self) -> (callback: F)
        where F: Copy,
        ensures
            callback == self@.callback,
    {
        self.callback
    }
}

} // verus!
