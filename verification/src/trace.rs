//! Runs of the scheduler: the scheduler together with the dispatchers that
//! were entered and have not returned, the events that move it, and what
//! holds of every run.
//!
//! The dispatchers are interrupt handlers on one core, so they nest: the one
//! that was entered last returns first.

use vstd::prelude::*;
use vstd::multiset::Multiset;
use crate::Timestamp;
use crate::dispatchers::NUM_DISPATCHERS;
use crate::parked::{earliest, lemma_earliest, QUEUE_CAPACITY};
use crate::scheduler::{SchedulerError, SchedulerView, NO_DEADLINE};
use crate::task::{promoted, queued, RunningTaskView, ScheduledTaskView, TaskView};

verus! {

/// A dispatcher that was entered and has not returned, with the task it took
/// from its slot.
pub struct Entered<F> {
    pub level: u8,
    pub task: RunningTaskView<F>,
}

/// What moves the scheduler.
pub enum Event<F> {
    /// The scheduler is initialised.
    Init,
    /// A task is submitted at a time.
    Submit { task: TaskView<F>, now: Timestamp },
    /// The dispatcher of a level is entered and takes the task from its slot.
    Enter { level: u8 },
    /// The task of the dispatcher that was entered last has returned, and
    /// the dispatcher leaves.
    Leave,
}

/// The scheduler and the dispatchers that were entered and have not returned,
/// the one that was entered first in front.
pub struct Machine<F> {
    pub scheduler: SchedulerView<F>,
    pub active: Seq<Entered<F>>,
}

impl<F> Machine<F> {
    /// A fresh scheduler, and no dispatcher entered.
    pub open spec fn initial() -> Self {
        Machine { scheduler: SchedulerView::initial(), active: Seq::empty() }
    }

    /// Whether `event` can happen without the scheduler halting: the
    /// scheduler finds no error in it, and a dispatcher that leaves was
    /// entered.
    pub open spec fn allows(self, event: Event<F>) -> bool {
        match event {
            Event::Init => true,
            Event::Submit { task, now } => self.scheduler.schedule_error(task, now) is None,
            Event::Enter { level } => self.scheduler.start_error(level) is None,
            Event::Leave => self.active.len() > 0 && self.scheduler.complete_error(
                self.active.last().level,
                self.active.last().task.prev_deadline,
            ) is None,
        }
    }

    /// The machine after `event`.
    pub open spec fn step(self, event: Event<F>) -> Self {
        match event {
            Event::Init => Machine {
                scheduler: SchedulerView { ready: true, ..self.scheduler },
                ..self
            },
            Event::Submit { task, now } => Machine {
                scheduler: self.scheduler.schedule(task, now),
                ..self
            },
            Event::Enter { level } => Machine {
                scheduler: self.scheduler.start(level),
                active: self.active.push(
                    Entered { level, task: self.scheduler.slots[level as int].unwrap() },
                ),
            },
            Event::Leave => Machine {
                scheduler: self.scheduler.complete(
                    self.active.last().level,
                    self.active.last().task.prev_deadline,
                ),
                active: self.active.drop_last(),
            },
        }
    }

    /// The machine after `events`, in their order.
    pub open spec fn run(self, events: Seq<Event<F>>) -> Self
        decreases events.len(),
    {
        if events.len() == 0 {
            self
        } else {
            self.run(events.drop_last()).step(events.last())
        }
    }

    /// Whether each of `events` can happen in the state that it meets.
    pub open spec fn admits(self, events: Seq<Event<F>>) -> bool
        decreases events.len(),
    {
        if events.len() == 0 {
            true
        } else {
            self.admits(events.drop_last()) && self.run(events.drop_last()).allows(events.last())
        }
    }

    /// Whether the dispatcher at place `at` of the entered ones stays entered
    /// all through `events`.
    pub open spec fn stays_entered(self, events: Seq<Event<F>>, at: int) -> bool
        decreases events.len(),
    {
        if events.len() == 0 {
            at < self.active.len()
        } else {
            self.stays_entered(events.drop_last(), at) && at < self.run(events).active.len()
        }
    }
}

/// An event that can happen leaves the scheduler valid.
pub proof fn lemma_step_valid<F>(machine: Machine<F>, event: Event<F>)
    requires
        machine.scheduler.valid(),
        machine.allows(event),
    ensures
        machine.step(event).scheduler.valid(),
{
    if machine.scheduler.parked.len() > 0 {
        lemma_earliest(machine.scheduler.parked);
    }
}

/// A run of events that can happen leaves the scheduler valid.
pub proof fn lemma_run_valid<F>(machine: Machine<F>, events: Seq<Event<F>>)
    requires
        machine.scheduler.valid(),
        machine.admits(events),
    ensures
        machine.run(events).scheduler.valid(),
    decreases events.len(),
{
    if events.len() > 0 {
        lemma_run_valid(machine, events.drop_last());
        lemma_step_valid(machine.run(events.drop_last()), events.last());
    }
}

/// A slot that holds a task keeps it through every event but the entry of
/// its own dispatcher: no promotion replaces a task that waits in a slot.
pub proof fn lemma_slot_keeps_task<F>(machine: Machine<F>, event: Event<F>, level: u8)
    requires
        machine.scheduler.valid(),
        machine.allows(event),
        level < NUM_DISPATCHERS,
        machine.scheduler.slots[level as int] is Some,
        event != (Event::<F>::Enter { level }),
    ensures
        machine.step(event).scheduler.slots[level as int] == machine.scheduler.slots[level as int],
{
}

/// A slot that holds a task keeps it through a run in which its own
/// dispatcher is not entered.
pub proof fn lemma_slot_keeps_task_until_entered<F>(
    machine: Machine<F>,
    events: Seq<Event<F>>,
    level: u8,
)
    requires
        machine.scheduler.valid(),
        machine.admits(events),
        level < NUM_DISPATCHERS,
        machine.scheduler.slots[level as int] is Some,
        forall|i: int| 0 <= i < events.len() ==> events[i] != (Event::<F>::Enter { level }),
    ensures
        machine.run(events).scheduler.slots[level as int] == machine.scheduler.slots[level as int],
    decreases events.len(),
{
    if events.len() > 0 {
        let front = events.drop_last();
        assert forall|i: int| 0 <= i < front.len() implies front[i] != (Event::<F>::Enter {
            level,
        }) by {}
        lemma_slot_keeps_task_until_entered(machine, front, level);
        lemma_run_valid(machine, front);
        lemma_slot_keeps_task(machine.run(front), events.last(), level);
    }
}

/// A dispatcher that stays entered through a run keeps its task.
pub proof fn lemma_entered_keeps_task<F>(machine: Machine<F>, events: Seq<Event<F>>, at: int)
    requires
        machine.admits(events),
        0 <= at,
        machine.stays_entered(events, at),
    ensures
        at < machine.run(events).active.len(),
        machine.run(events).active[at] == machine.active[at],
    decreases events.len(),
{
    if events.len() > 0 {
        lemma_entered_keeps_task(machine, events.drop_last(), at);
    }
}

/// The minimum deadline obeys a stack discipline. Take a task that is
/// promoted while the minimum deadline is `machine.scheduler.min_deadline`.
/// Whatever happens `before` its dispatcher is entered, and whatever happens
/// `during` its run while its dispatcher stays entered: when that dispatcher
/// is the innermost again and leaves, the minimum deadline that it puts back
/// in force is the one from before the promotion.
pub proof fn lemma_min_deadline_restored<F>(
    machine: Machine<F>,
    task: ScheduledTaskView<F>,
    before: Seq<Event<F>>,
    during: Seq<Event<F>>,
)
    requires
        machine.scheduler.valid(),
        machine.scheduler.promotion_error(task) is None,
        (Machine { scheduler: machine.scheduler.promote(task), ..machine }).admits(before),
        forall|i: int|
            0 <= i < before.len() ==> before[i] != (Event::<F>::Enter { level: task.dispatcher_prio }),
        entry_of(machine, task, before).admits(during),
        entry_of(machine, task, before).stays_entered(
            during,
            entry_of(machine, task, before).active.len() - 1,
        ),
        entry_of(machine, task, before).run(during).active.len() == entry_of(
            machine,
            task,
            before,
        ).active.len(),
    ensures
        entry_of(machine, task, before).run(during).active.last().task == promoted(
            task,
            machine.scheduler.min_deadline,
        ),
        entry_of(machine, task, before).run(during).scheduler.leave(
            entry_of(machine, task, before).run(during).active.last().level,
            entry_of(machine, task, before).run(during).active.last().task.prev_deadline,
        ).min_deadline == machine.scheduler.min_deadline,
{
    let level = task.dispatcher_prio;
    let promoting = Machine { scheduler: machine.scheduler.promote(task), ..machine };
    lemma_slot_keeps_task_until_entered(promoting, before, level);
    let entry = entry_of(machine, task, before);
    lemma_entered_keeps_task(entry, during, entry.active.len() - 1);
}

/// The machine right after the dispatcher of `task` was entered, where
/// `task` was promoted in `machine` and `before` happened in between.
pub open spec fn entry_of<F>(
    machine: Machine<F>,
    task: ScheduledTaskView<F>,
    before: Seq<Event<F>>,
) -> Machine<F> {
    (Machine { scheduler: machine.scheduler.promote(task), ..machine }).run(before).step(
        Event::Enter { level: task.dispatcher_prio },
    )
}

/// The callbacks of the tasks that wait in `slots`, each as often as it
/// occurs.
pub open spec fn slot_callbacks<F>(slots: Seq<Option<RunningTaskView<F>>>) -> Multiset<F>
    decreases slots.len(),
{
    if slots.len() == 0 {
        Multiset::empty()
    } else {
        match slots.last() {
            Some(task) => slot_callbacks(slots.drop_last()).insert(task.callback),
            None => slot_callbacks(slots.drop_last()),
        }
    }
}

/// The callbacks of the tasks in `parked`, each as often as it occurs.
pub open spec fn parked_callbacks<F>(parked: Seq<ScheduledTaskView<F>>) -> Multiset<F> {
    parked.map_values(|task: ScheduledTaskView<F>| task.callback).to_multiset()
}

/// The callbacks of the tasks that the scheduler holds: those that wait in a
/// slot and those that are parked.
pub open spec fn waiting<F>(scheduler: SchedulerView<F>) -> Multiset<F> {
    slot_callbacks(scheduler.slots).add(parked_callbacks(scheduler.parked))
}

/// The callbacks of the tasks that `events` submit.
pub open spec fn submitted<F>(events: Seq<Event<F>>) -> Multiset<F>
    decreases events.len(),
{
    if events.len() == 0 {
        Multiset::empty()
    } else {
        match events.last() {
            Event::Submit { task, now } => submitted(events.drop_last()).insert(task.callback),
            _ => submitted(events.drop_last()),
        }
    }
}

/// The number of tasks that `events` submit.
pub open spec fn submissions<F>(events: Seq<Event<F>>) -> nat
    decreases events.len(),
{
    if events.len() == 0 {
        0
    } else {
        match events.last() {
            Event::Submit { task, now } => submissions(events.drop_last()) + 1,
            _ => submissions(events.drop_last()),
        }
    }
}

/// The callbacks that the dispatchers are handed for running when `events`
/// happen to `machine`.
pub open spec fn handed_out<F>(machine: Machine<F>, events: Seq<Event<F>>) -> Multiset<F>
    decreases events.len(),
{
    if events.len() == 0 {
        Multiset::empty()
    } else {
        match events.last() {
            Event::Enter { level } => handed_out(machine, events.drop_last()).insert(
                machine.run(events.drop_last()).scheduler.slots[level as int].unwrap().callback,
            ),
            _ => handed_out(machine, events.drop_last()),
        }
    }
}

/// Placing a task in an empty slot adds its callback to those that wait in
/// the slots.
proof fn lemma_slot_filled<F>(
    slots: Seq<Option<RunningTaskView<F>>>,
    level: int,
    task: RunningTaskView<F>,
)
    requires
        0 <= level < slots.len(),
        slots[level] is None,
    ensures
        slot_callbacks(slots.update(level, Some(task))) == slot_callbacks(slots).insert(
            task.callback,
        ),
    decreases slots.len(),
{
    let filled = slots.update(level, Some(task));
    if level == slots.len() - 1 {
        assert(filled.drop_last() =~= slots.drop_last());
    } else {
        assert(filled.drop_last() =~= slots.drop_last().update(level, Some(task)));
        lemma_slot_filled(slots.drop_last(), level, task);
    }
}

/// Emptying a slot takes the callback of its task, once, from those that
/// wait in the slots.
proof fn lemma_slot_emptied<F>(slots: Seq<Option<RunningTaskView<F>>>, level: int)
    requires
        0 <= level < slots.len(),
        slots[level] is Some,
    ensures
        slot_callbacks(slots).contains(slots[level].unwrap().callback),
        slot_callbacks(slots.update(level, None)) == slot_callbacks(slots).remove(
            slots[level].unwrap().callback,
        ),
    decreases slots.len(),
{
    let emptied = slots.update(level, None);
    if level == slots.len() - 1 {
        assert(emptied.drop_last() =~= slots.drop_last());
    } else {
        assert(emptied.drop_last() =~= slots.drop_last().update(level, None));
        lemma_slot_emptied(slots.drop_last(), level);
    }
}

/// A promotion adds the callback of the promoted task to those that wait in
/// the slots.
proof fn lemma_promotion_fills<F>(scheduler: SchedulerView<F>, task: ScheduledTaskView<F>)
    requires
        scheduler.valid(),
        scheduler.promotion_error(task) is None,
    ensures
        slot_callbacks(scheduler.promote(task).slots) == slot_callbacks(scheduler.slots).insert(
            task.callback,
        ),
        scheduler.promote(task).parked == scheduler.parked,
{
    lemma_slot_filled(
        scheduler.slots,
        task.dispatcher_prio as int,
        promoted(task, scheduler.min_deadline),
    );
}

/// An event that can happen neither loses nor doubles a task: a submission
/// adds the callback of its task to those that the scheduler holds, the entry
/// of a dispatcher takes from them the one callback that the dispatcher is
/// handed, and nothing else changes them.
pub proof fn lemma_step_keeps_tasks<F>(machine: Machine<F>, event: Event<F>)
    requires
        machine.scheduler.valid(),
        machine.allows(event),
    ensures
        match event {
            Event::Submit { task, now } => waiting(machine.step(event).scheduler) == waiting(
                machine.scheduler,
            ).insert(task.callback),
            Event::Enter { level } => waiting(machine.scheduler).contains(
                machine.scheduler.slots[level as int].unwrap().callback,
            ) && waiting(machine.step(event).scheduler) == waiting(machine.scheduler).remove(
                machine.scheduler.slots[level as int].unwrap().callback,
            ),
            _ => waiting(machine.step(event).scheduler) == waiting(machine.scheduler),
        },
{
    broadcast use vstd::seq_lib::group_to_multiset_ensures;

    let scheduler = machine.scheduler;
    let after = machine.step(event).scheduler;
    match event {
        Event::Init => {},
        Event::Submit { task, now } => {
            let scheduled = queued(task, now);
            if scheduler.preempts(scheduled.deadline) {
                lemma_promotion_fills(scheduler, scheduled);
            } else {
                assert(after.parked.map_values(|task: ScheduledTaskView<F>| task.callback)
                    =~= scheduler.parked.map_values(
                    |task: ScheduledTaskView<F>| task.callback,
                ).push(task.callback));
            }
        },
        Event::Enter { level } => {
            lemma_slot_emptied(scheduler.slots, level as int);
        },
        Event::Leave => {
            let restored = scheduler.leave(
                machine.active.last().level,
                machine.active.last().task.prev_deadline,
            );
            if restored.cascades() {
                lemma_earliest(scheduler.parked);
                let next = scheduler.next_parked();
                let at = earliest(scheduler.parked);
                let callbacks = scheduler.parked.map_values(
                    |task: ScheduledTaskView<F>| task.callback,
                );
                assert(restored.unpark().parked.map_values(
                    |task: ScheduledTaskView<F>| task.callback,
                ) =~= callbacks.remove(at));
                lemma_promotion_fills(restored.unpark(), next);
            }
        },
    }
}

/// No task is lost and none is doubled. Through every run of events that can
/// happen, the tasks that the scheduler held at first and those that were
/// submitted are, callback for callback, those that the dispatchers were
/// handed for running and those that the scheduler still holds.
pub proof fn lemma_no_lost_task<F>(machine: Machine<F>, events: Seq<Event<F>>)
    requires
        machine.scheduler.valid(),
        machine.admits(events),
    ensures
        waiting(machine.scheduler).add(submitted(events)) == handed_out(machine, events).add(
            waiting(machine.run(events).scheduler),
        ),
    decreases events.len(),
{
    if events.len() == 0 {
        assert(waiting(machine.scheduler).add(submitted(events)) =~= handed_out(machine, events).add(
            waiting(machine.run(events).scheduler),
        ));
    } else {
        let front = events.drop_last();
        lemma_no_lost_task(machine, front);
        lemma_run_valid(machine, front);
        let reached = machine.run(front);
        lemma_step_keeps_tasks(reached, events.last());
        let held = waiting(machine.scheduler);
        let held_before = waiting(reached.scheduler);
        match events.last() {
            Event::Submit { task, now } => {
                assert(held.add(submitted(front).insert(task.callback)) =~= held.add(
                    submitted(front),
                ).insert(task.callback));
                assert(handed_out(machine, front).add(held_before.insert(task.callback))
                    =~= handed_out(machine, front).add(held_before).insert(task.callback));
            },
            Event::Enter { level } => {
                let callback = reached.scheduler.slots[level as int].unwrap().callback;
                assert(handed_out(machine, front).insert(callback).add(held_before.remove(callback))
                    =~= handed_out(machine, front).add(held_before));
            },
            _ => {},
        }
    }
}

/// An event that can happen parks at most one task, and only if it is a
/// submission.
pub proof fn lemma_step_parks_one<F>(machine: Machine<F>, event: Event<F>)
    requires
        machine.scheduler.valid(),
        machine.allows(event),
    ensures
        event is Submit ==> machine.step(event).scheduler.parked.len()
            <= machine.scheduler.parked.len() + 1,
        !(event is Submit) ==> machine.step(event).scheduler.parked.len()
            <= machine.scheduler.parked.len(),
{
    if machine.scheduler.parked.len() > 0 {
        lemma_earliest(machine.scheduler.parked);
    }
}

/// Through a run of events that can happen, the parked queue grows by no
/// more than the number of tasks submitted.
pub proof fn lemma_parked_bounded<F>(machine: Machine<F>, events: Seq<Event<F>>)
    requires
        machine.scheduler.valid(),
        machine.admits(events),
    ensures
        machine.run(events).scheduler.parked.len() <= machine.scheduler.parked.len() + submissions(
            events,
        ),
    decreases events.len(),
{
    if events.len() > 0 {
        let front = events.drop_last();
        lemma_parked_bounded(machine, front);
        lemma_run_valid(machine, front);
        lemma_step_parks_one(machine.run(front), events.last());
    }
}

/// The parked queue is never found full while the tasks that it held at
/// first and the tasks submitted, the new one counted, are no more than its
/// capacity.
pub proof fn lemma_queue_never_full<F>(
    machine: Machine<F>,
    events: Seq<Event<F>>,
    task: TaskView<F>,
    now: Timestamp,
)
    requires
        machine.scheduler.valid(),
        machine.admits(events),
        machine.scheduler.parked.len() + submissions(events) + 1 <= QUEUE_CAPACITY,
    ensures
        machine.run(events).scheduler.schedule_error(task, now) != Some(SchedulerError::QueueFull),
{
    lemma_parked_bounded(machine, events);
}

/// The cascade is complete. When a dispatcher leaves while a task is parked
/// and no other task is in flight, the parked task that leaves next is
/// promoted: it leaves the parked queue for the slot of its level, its
/// deadline becomes the minimum deadline, and its dispatcher is to be pended.
pub proof fn lemma_cascade_promotes<F>(
    scheduler: SchedulerView<F>,
    level: u8,
    prev_deadline: Timestamp,
)
    requires
        scheduler.valid(),
        scheduler.parked.len() > 0,
        scheduler.leave(level, prev_deadline).idle(),
        scheduler.complete_error(level, prev_deadline) is None,
    ensures
        scheduler.complete(level, prev_deadline).parked == scheduler.parked.remove(
            earliest(scheduler.parked),
        ),
        scheduler.complete(level, prev_deadline).slots[scheduler.next_parked().dispatcher_prio as int]
            == Some(promoted(scheduler.next_parked(), prev_deadline)),
        scheduler.complete(level, prev_deadline).min_deadline == scheduler.next_parked().deadline,
        scheduler.complete_pends(level, prev_deadline) == Some(
            scheduler.next_parked().dispatcher_prio,
        ),
{
}

/// While another task is in flight, a dispatcher that leaves promotes a
/// parked task only if it is due before the minimum deadline that is in
/// force again; else the parked queue and the slots stay as they are, and
/// nothing is to be pended.
pub proof fn lemma_no_cascade_past_a_task_in_flight<F>(
    scheduler: SchedulerView<F>,
    level: u8,
    prev_deadline: Timestamp,
)
    requires
        scheduler.valid(),
        level < NUM_DISPATCHERS,
        !scheduler.leave(level, prev_deadline).idle(),
        scheduler.parked.len() > 0 ==> prev_deadline <= scheduler.next_parked().deadline,
    ensures
        scheduler.complete_error(level, prev_deadline) is None,
        scheduler.complete(level, prev_deadline) == scheduler.leave(level, prev_deadline),
        scheduler.complete(level, prev_deadline).min_deadline == prev_deadline,
        scheduler.complete_pends(level, prev_deadline) is None,
{
}

/// While a task is in flight, a submission that is not due before the
/// minimum deadline is parked: the minimum deadline and the slots stay as
/// they are, nothing is to be pended, and a full queue is an error.
pub proof fn lemma_later_task_is_parked<F>(
    scheduler: SchedulerView<F>,
    task: TaskView<F>,
    now: Timestamp,
)
    requires
        scheduler.valid(),
        scheduler.ready,
        !scheduler.idle(),
        scheduler.min_deadline <= queued(task, now).deadline,
    ensures
        scheduler.parked.len() >= QUEUE_CAPACITY <==> scheduler.schedule_error(task, now) == Some(
            SchedulerError::QueueFull,
        ),
        scheduler.parked.len() < QUEUE_CAPACITY ==> scheduler.schedule_error(task, now) is None,
        scheduler.schedule(task, now) == (SchedulerView {
            parked: scheduler.parked.push(queued(task, now)),
            ..scheduler
        }),
        scheduler.schedule_pends(task, now) is None,
{
}

/// A submission never raises the minimum deadline, where no deadline is in
/// force while no task is in flight: it lowers the minimum deadline to the
/// deadline of the submitted task if that one is due earlier, and leaves it
/// as it is if not.
pub proof fn lemma_submission_never_raises<F>(
    scheduler: SchedulerView<F>,
    task: TaskView<F>,
    now: Timestamp,
)
    requires
        scheduler.idle() ==> scheduler.min_deadline == NO_DEADLINE,
    ensures
        scheduler.schedule(task, now).min_deadline == if queued(task, now).deadline
            < scheduler.min_deadline {
            queued(task, now).deadline
        } else {
            scheduler.min_deadline
        },
{
}

/// Whether the parked tasks of `scheduler` are attended to: if a task is
/// parked, then a task is in flight, so that a dispatcher will leave and look
/// at the parked queue.
pub open spec fn attended<F>(scheduler: SchedulerView<F>) -> bool {
    scheduler.parked.len() > 0 ==> !scheduler.idle()
}

/// An event that can happen leaves the parked tasks attended to. After a
/// submission, and after a dispatcher left, that holds whatever was before.
pub proof fn lemma_step_keeps_attended<F>(machine: Machine<F>, event: Event<F>)
    requires
        machine.scheduler.valid(),
        machine.allows(event),
        attended(machine.scheduler) || event is Submit || event is Leave,
    ensures
        attended(machine.step(event).scheduler),
{
    let scheduler = machine.scheduler;
    let after = machine.step(event).scheduler;
    match event {
        Event::Init => {},
        Event::Submit { task, now } => {
            let scheduled = queued(task, now);
            if scheduler.preempts(scheduled.deadline) {
                assert(after.slots[scheduled.dispatcher_prio as int] is Some);
            } else {
                lemma_idle_is_local(scheduler, after);
            }
        },
        Event::Enter { level } => {
            assert(after.entered[level as int]);
        },
        Event::Leave => {
            let left = scheduler.leave(
                machine.active.last().level,
                machine.active.last().task.prev_deadline,
            );
            if left.cascades() {
                assert(after.slots[scheduler.next_parked().dispatcher_prio as int] is Some);
            }
        },
    }
}

/// Whether a scheduler is idle depends on its slots and its marks alone.
proof fn lemma_idle_is_local<F>(before: SchedulerView<F>, after: SchedulerView<F>)
    requires
        before.slots == after.slots,
        before.entered == after.entered,
    ensures
        before.idle() == after.idle(),
{
}

/// No task is parked for good. Through every run of events that can happen,
/// the parked tasks stay attended to.
pub proof fn lemma_parked_attended<F>(machine: Machine<F>, events: Seq<Event<F>>)
    requires
        machine.scheduler.valid(),
        attended(machine.scheduler),
        machine.admits(events),
    ensures
        attended(machine.run(events).scheduler),
    decreases events.len(),
{
    if events.len() > 0 {
        let front = events.drop_last();
        lemma_parked_attended(machine, front);
        lemma_run_valid(machine, front);
        lemma_step_keeps_attended(machine.run(front), events.last());
    }
}

} // verus!
