//! Earliest deadline first: the order in which the dispatchers are entered.
//!
//! The scheduler decides which task is promoted, and to which level; the
//! interrupt controller decides which dispatcher is entered. This module says
//! what the two owe each other, and proves that then the tasks in flight are
//! stacked by deadline, the one that is due first on top, and that whenever a
//! dispatcher is entered, no other task is due before the task it takes.

use vstd::prelude::*;
use crate::Timestamp;
use crate::dispatchers::NUM_DISPATCHERS;
use crate::parked::lemma_earliest;
use crate::scheduler::{SchedulerView, NO_DEADLINE};
use crate::task::{queued, RunningTaskView, ScheduledTaskView};
use crate::trace::{
    attended, lemma_run_valid, lemma_step_keeps_attended, lemma_step_valid, Entered, Event, Machine,
};

verus! {

/// The task of the entered dispatcher of level `level`, if one is entered.
pub open spec fn entered_at<F>(active: Seq<Entered<F>>, level: int) -> Option<RunningTaskView<F>>
    decreases active.len(),
{
    if active.len() == 0 {
        None
    } else if active.last().level == level {
        Some(active.last().task)
    } else {
        entered_at(active.drop_last(), level)
    }
}

/// The tasks in flight, by level: at each level the task that waits in the
/// slot or, if the slot is empty, the task of the entered dispatcher.
pub open spec fn in_flight<F>(machine: Machine<F>) -> Seq<Option<RunningTaskView<F>>> {
    Seq::new(
        NUM_DISPATCHERS as nat,
        |level: int|
            if machine.scheduler.slots[level] is Some {
                machine.scheduler.slots[level]
            } else {
                entered_at(machine.active, level)
            },
    )
}

/// The deadline of the highest task of `flight` below `level`, and
/// [`NO_DEADLINE`] if there is none.
pub open spec fn ground<F>(flight: Seq<Option<RunningTaskView<F>>>, level: int) -> Timestamp
    decreases level,
{
    if level <= 0 {
        NO_DEADLINE
    } else {
        match flight[level - 1] {
            Some(task) => task.deadline,
            None => ground(flight, level - 1),
        }
    }
}

/// Every entered dispatcher has a level below `level`.
pub open spec fn above_entered<F>(active: Seq<Entered<F>>, level: int) -> bool {
    forall|i: int| 0 <= i < active.len() ==> (#[trigger] active[i]).level < level
}

/// No slot from `level` upwards holds a task.
pub open spec fn empty_from<F>(slots: Seq<Option<RunningTaskView<F>>>, level: int) -> bool {
    forall|above: int| level <= above < slots.len() ==> (#[trigger] slots[above]) is None
}

/// What the interrupt controller lets happen. It enters a dispatcher only if
/// its level is above those of the entered ones and no dispatcher of a higher
/// level is pended; and while a dispatcher of a higher level is pended, the
/// innermost entered one does not get to leave.
pub open spec fn dispatched<F>(machine: Machine<F>, event: Event<F>) -> bool {
    match event {
        Event::Enter { level } => above_entered(machine.active, level as int) && empty_from(
            machine.scheduler.slots,
            level + 1,
        ),
        Event::Leave => machine.active.len() > 0 && empty_from(
            machine.scheduler.slots,
            machine.active.last().level + 1,
        ),
        _ => true,
    }
}

/// What the submitters owe: a task that is promoted names a level above
/// those of all tasks in flight.
pub open spec fn levelled<F>(machine: Machine<F>, event: Event<F>) -> bool {
    match event {
        Event::Submit { task, now } => machine.scheduler.preempts(queued(task, now).deadline)
            ==> above_entered(machine.active, task.dispatcher_prio as int) && empty_from(
            machine.scheduler.slots,
            task.dispatcher_prio as int,
        ),
        Event::Leave => machine.scheduler.leave(
            machine.active.last().level,
            machine.active.last().task.prev_deadline,
        ).cascades() ==> above_entered(
            machine.active.drop_last(),
            machine.scheduler.next_parked().dispatcher_prio as int,
        ) && empty_from(
            machine.scheduler.slots,
            machine.scheduler.next_parked().dispatcher_prio as int,
        ),
        _ => true,
    }
}

/// Whether `event` can happen and is in order.
pub open spec fn orderly<F>(machine: Machine<F>, event: Event<F>) -> bool {
    &&& machine.allows(event)
    &&& dispatched(machine, event)
    &&& levelled(machine, event)
}

/// Whether each of `events` can happen and is in order in the state that it
/// meets.
pub open spec fn orderly_run<F>(machine: Machine<F>, events: Seq<Event<F>>) -> bool
    decreases events.len(),
{
    if events.len() == 0 {
        true
    } else {
        orderly_run(machine, events.drop_last()) && orderly(
            machine.run(events.drop_last()),
            events.last(),
        )
    }
}

/// The entered dispatchers nest by level: each has a higher level than those
/// that were entered before it.
pub open spec fn nested<F>(active: Seq<Entered<F>>) -> bool {
    &&& forall|i: int| 0 <= i < active.len() ==> (#[trigger] active[i]).level < NUM_DISPATCHERS
    &&& forall|i: int, j: int|
        0 <= i < j < active.len() ==> (#[trigger] active[i]).level < (#[trigger] active[j]).level
}

/// The scheduler's marks say which dispatchers are entered.
pub open spec fn recorded<F>(machine: Machine<F>) -> bool {
    forall|level: int|
        0 <= level < NUM_DISPATCHERS ==> (#[trigger] machine.scheduler.entered[level]) == (entered_at(
            machine.active,
            level,
        ) is Some)
}

/// The slot of an entered dispatcher is empty.
pub open spec fn apart<F>(machine: Machine<F>) -> bool {
    forall|i: int|
        0 <= i < machine.active.len() ==> machine.scheduler.slots[(
        #[trigger] machine.active[i]).level as int] is None
}

/// The minimum deadline is the deadline of the highest task in flight, and
/// every task in flight remembers the deadline of the highest one below it.
pub open spec fn chained<F>(machine: Machine<F>) -> bool {
    &&& machine.scheduler.min_deadline == ground(in_flight(machine), NUM_DISPATCHERS as int)
    &&& forall|level: int|
        0 <= level < NUM_DISPATCHERS ==> ((#[trigger] in_flight(machine)[level]) matches Some(task)
            ==> task.prev_deadline == ground(in_flight(machine), level))
}

/// A task in flight is due before every task in flight below it, whether
/// that one waits in its slot or runs in an entered dispatcher.
pub open spec fn sorted<F>(machine: Machine<F>) -> bool {
    forall|lower: int, upper: int|
        0 <= lower < upper < NUM_DISPATCHERS && (#[trigger] in_flight(machine)[lower]) is Some && (
        #[trigger] in_flight(machine)[upper]) is Some ==> in_flight(machine)[upper].unwrap().deadline
            < in_flight(machine)[lower].unwrap().deadline
}

/// No parked task is due before the minimum deadline.
pub open spec fn parked_later<F>(scheduler: SchedulerView<F>) -> bool {
    forall|i: int|
        0 <= i < scheduler.parked.len() ==> scheduler.min_deadline <= (
        #[trigger] scheduler.parked[i]).deadline
}

/// The tasks in flight are in the order of their deadlines.
pub open spec fn in_order<F>(machine: Machine<F>) -> bool {
    &&& nested(machine.active)
    &&& recorded(machine)
    &&& apart(machine)
    &&& chained(machine)
    &&& sorted(machine)
}

/// The invariant of the earliest-deadline-first order: the tasks in flight
/// are in the order of their deadlines, no parked task is due before the one
/// on top, and no task is parked while none is in flight.
pub open spec fn edf<F>(machine: Machine<F>) -> bool {
    &&& in_order(machine)
    &&& parked_later(machine.scheduler)
    &&& attended(machine.scheduler)
}

/// No dispatcher is entered at a level that none of the entered ones has.
proof fn lemma_not_entered<F>(active: Seq<Entered<F>>, level: int)
    requires
        forall|i: int| 0 <= i < active.len() ==> (#[trigger] active[i]).level != level,
    ensures
        entered_at(active, level) is None,
    decreases active.len(),
{
    if active.len() > 0 {
        assert forall|i: int| 0 <= i < active.drop_last().len() implies (
        #[trigger] active.drop_last()[i]).level != level by {}
        lemma_not_entered(active.drop_last(), level);
    }
}

/// A change at `at` leaves the ground below `level` as it is, for every
/// `level` up to `at`.
proof fn lemma_ground_below<F>(
    flight: Seq<Option<RunningTaskView<F>>>,
    at: int,
    task: Option<RunningTaskView<F>>,
    level: int,
)
    requires
        0 <= level <= at < flight.len(),
    ensures
        ground(flight.update(at, task), level) == ground(flight, level),
    decreases level,
{
    if level > 0 {
        lemma_ground_below(flight, at, task, level - 1);
    }
}

/// Where nothing is in flight from `from` up to `level`, the ground below
/// `level` is the ground below `from`.
proof fn lemma_ground_skips<F>(flight: Seq<Option<RunningTaskView<F>>>, from: int, level: int)
    requires
        0 <= from <= level <= flight.len(),
        forall|between: int| from <= between < level ==> (#[trigger] flight[between]) is None,
    ensures
        ground(flight, level) == ground(flight, from),
    decreases level,
{
    if level > from {
        lemma_ground_skips(flight, from, level - 1);
    }
}

/// The ground below `level` is the deadline of a task in flight below
/// `level`, above which nothing is in flight below `level`; or nothing is in
/// flight below `level`.
proof fn lemma_ground_top<F>(flight: Seq<Option<RunningTaskView<F>>>, level: int) -> (top: int)
    requires
        0 <= level <= flight.len(),
    ensures
        -1 <= top < level,
        top >= 0 ==> flight[top] is Some && flight[top].unwrap().deadline == ground(flight, level),
        top < 0 ==> ground(flight, level) == NO_DEADLINE,
        forall|between: int| top < between < level ==> (#[trigger] flight[between]) is None,
    decreases level,
{
    if level <= 0 {
        -1
    } else if flight[level - 1] is Some {
        level - 1
    } else {
        lemma_ground_top(flight, level - 1)
    }
}

/// The dispatcher at place `at` of the entered ones is the one that is
/// entered at its level.
proof fn lemma_entered_at<F>(active: Seq<Entered<F>>, at: int)
    requires
        nested(active),
        0 <= at < active.len(),
    ensures
        entered_at(active, active[at].level as int) == Some(active[at].task),
    decreases active.len(),
{
    if at < active.len() - 1 {
        assert(active.drop_last()[at] == active[at]);
        assert(active[at].level < active[active.len() - 1].level);
        assert(nested(active.drop_last())) by {
            assert forall|i: int, j: int| 0 <= i < j < active.drop_last().len() implies (
            #[trigger] active.drop_last()[i]).level < (#[trigger] active.drop_last()[j]).level by {
                assert(active.drop_last()[i] == active[i]);
                assert(active.drop_last()[j] == active[j]);
            }
            assert forall|i: int| 0 <= i < active.drop_last().len() implies (
            #[trigger] active.drop_last()[i]).level < NUM_DISPATCHERS by {
                assert(active.drop_last()[i] == active[i]);
            }
        }
        lemma_entered_at(active.drop_last(), at);
    }
}

/// Nothing is in flight at a level that no entered dispatcher has and from
/// which upwards no slot holds a task.
proof fn lemma_nothing_in_flight_from<F>(machine: Machine<F>, level: int)
    requires
        machine.scheduler.valid(),
        0 <= level,
        above_entered(machine.active, level),
        empty_from(machine.scheduler.slots, level),
    ensures
        forall|above: int|
            level <= above < NUM_DISPATCHERS ==> (#[trigger] in_flight(machine)[above]) is None,
{
    assert forall|above: int| level <= above < NUM_DISPATCHERS implies (#[trigger] in_flight(
        machine,
    )[above]) is None by {
        lemma_not_entered(machine.active, above);
    }
}

/// Where the marks say which dispatchers are entered, the scheduler is idle
/// exactly if nothing is in flight.
proof fn lemma_idle_means_nothing_in_flight<F>(machine: Machine<F>)
    requires
        machine.scheduler.valid(),
        recorded(machine),
    ensures
        machine.scheduler.idle() <==> (forall|level: int|
            0 <= level < NUM_DISPATCHERS ==> (#[trigger] in_flight(machine)[level]) is None),
{
    if machine.scheduler.idle() {
        assert forall|level: int| 0 <= level < NUM_DISPATCHERS implies (#[trigger] in_flight(
            machine,
        )[level]) is None by {
            assert(machine.scheduler.slots[level] is None);
            assert(!machine.scheduler.entered[level]);
        }
    }
    if forall|level: int|
        0 <= level < NUM_DISPATCHERS ==> (#[trigger] in_flight(machine)[level]) is None {
        assert forall|level: int| 0 <= level < NUM_DISPATCHERS implies (
        #[trigger] machine.scheduler.slots[level]) is None by {
            assert(in_flight(machine)[level] is None);
        }
        assert forall|level: int| 0 <= level < NUM_DISPATCHERS implies !(
        #[trigger] machine.scheduler.entered[level]) by {
            assert(in_flight(machine)[level] is None);
        }
    }
}

/// A promotion to a level above those of all tasks in flight keeps the
/// tasks in flight in the order of their deadlines, if the promoted task is
/// due before the minimum deadline or no task is in flight.
proof fn lemma_promotion_in_order<F>(machine: Machine<F>, task: ScheduledTaskView<F>)
    requires
        machine.scheduler.valid(),
        in_order(machine),
        machine.scheduler.promotion_error(task) is None,
        above_entered(machine.active, task.dispatcher_prio as int),
        empty_from(machine.scheduler.slots, task.dispatcher_prio as int),
        task.deadline < machine.scheduler.min_deadline || machine.scheduler.idle(),
    ensures
        in_order(Machine { scheduler: machine.scheduler.promote(task), ..machine }),
{
    let level = task.dispatcher_prio as int;
    let count = NUM_DISPATCHERS as int;
    let after = Machine { scheduler: machine.scheduler.promote(task), ..machine };
    let placed = after.scheduler.slots[level];
    let flight = in_flight(machine);
    lemma_nothing_in_flight_from(machine, level);
    lemma_idle_means_nothing_in_flight(machine);
    assert(in_flight(after) =~= flight.update(level, placed));

    // The promoted task is the highest in flight, above the ground that was
    // the minimum deadline.
    lemma_ground_skips(flight, level, count);
    lemma_ground_skips(in_flight(after), level + 1, count);
    assert forall|at: int| 0 <= at <= level implies ground(in_flight(after), at) == ground(
        flight,
        at,
    ) by {
        lemma_ground_below(flight, level, placed, at);
    }

    // It is due before every task in flight: before the highest one, which
    // is due before those below it.
    let top = lemma_ground_top(flight, level);
    assert forall|lower: int, upper: int|
        0 <= lower < upper < NUM_DISPATCHERS && (#[trigger] in_flight(after)[lower]) is Some && (
        #[trigger] in_flight(after)[upper]) is Some implies in_flight(after)[upper].unwrap().deadline
        < in_flight(after)[lower].unwrap().deadline by {
        if upper == level {
            assert(flight[lower] is Some);
            assert(top >= lower);
            if top > lower {
                assert(flight[top] is Some);
            }
        } else {
            assert(flight[lower] is Some);
            assert(flight[upper] is Some);
        }
    }
    assert(recorded(after));
    assert(apart(after));
}

/// The entry of a dispatcher moves its task from the slot to the entered
/// dispatchers and leaves what is in flight as it is.
proof fn lemma_entry_in_flight<F>(machine: Machine<F>, level: u8)
    requires
        machine.scheduler.valid(),
        machine.allows(Event::Enter { level }),
        apart(machine),
    ensures
        in_flight(machine.step(Event::Enter { level })) == in_flight(machine),
{
    let after = machine.step(Event::Enter { level });
    assert(after.active.drop_last() =~= machine.active);
    assert(in_flight(after) =~= in_flight(machine));
}

/// When the innermost dispatcher leaves and no slot above it holds a task,
/// its task is the highest in flight, and only that task leaves the flight.
proof fn lemma_exit_in_flight<F>(machine: Machine<F>)
    requires
        machine.scheduler.valid(),
        nested(machine.active),
        apart(machine),
        machine.active.len() > 0,
        empty_from(machine.scheduler.slots, machine.active.last().level + 1),
    ensures
        in_flight(machine)[machine.active.last().level as int] == Some(machine.active.last().task),
        forall|above: int|
            machine.active.last().level < above < NUM_DISPATCHERS ==> (#[trigger] in_flight(
                machine,
            )[above]) is None,
        in_flight(Machine { active: machine.active.drop_last(), ..machine }) == in_flight(
            machine,
        ).update(machine.active.last().level as int, None),
        entered_at(machine.active.drop_last(), machine.active.last().level as int) is None,
{
    let level = machine.active.last().level as int;
    let rest = machine.active.drop_last();
    assert(above_entered(machine.active, level + 1));
    lemma_nothing_in_flight_from(machine, level + 1);
    assert forall|i: int| 0 <= i < rest.len() implies (#[trigger] rest[i]).level != level by {}
    lemma_not_entered(rest, level);
    assert(in_flight(Machine { active: rest, ..machine }) =~= in_flight(machine).update(level, None));
}

/// Without the innermost dispatcher, and with the minimum deadline that its
/// task remembers, the tasks in flight are still in the order of their
/// deadlines.
proof fn lemma_exit_in_order<F>(machine: Machine<F>)
    requires
        machine.scheduler.valid(),
        in_order(machine),
        machine.active.len() > 0,
        empty_from(machine.scheduler.slots, machine.active.last().level + 1),
    ensures
        in_order(
            Machine {
                scheduler: machine.scheduler.leave(
                    machine.active.last().level,
                    machine.active.last().task.prev_deadline,
                ),
                active: machine.active.drop_last(),
            },
        ),
{
    let top = machine.active.last();
    let level = top.level as int;
    let count = NUM_DISPATCHERS as int;
    let rest = machine.active.drop_last();
    let after = Machine {
        scheduler: machine.scheduler.leave(top.level, top.task.prev_deadline),
        active: rest,
    };
    let flight = in_flight(machine);
    lemma_exit_in_flight(machine);
    assert(in_flight(after) =~= flight.update(level, None));

    // The ground below the task that leaves is the ground of what stays.
    lemma_ground_skips(in_flight(after), level, count);
    assert forall|at: int| 0 <= at <= level implies ground(in_flight(after), at) == ground(
        flight,
        at,
    ) by {
        lemma_ground_below(flight, level, None, at);
    }
    assert forall|i: int| 0 <= i < rest.len() implies (#[trigger] rest[i]) == machine.active[i] by {}
    assert(sorted(after)) by {
        assert forall|lower: int, upper: int|
            0 <= lower < upper < NUM_DISPATCHERS && (#[trigger] in_flight(after)[lower]) is Some && (
            #[trigger] in_flight(after)[upper]) is Some implies in_flight(
            after,
        )[upper].unwrap().deadline < in_flight(after)[lower].unwrap().deadline by {
            assert(flight[lower] is Some);
            assert(flight[upper] is Some);
        }
    }
    assert(recorded(after));
}

/// No parked task is due before the minimum deadline: that holds through
/// every event that can happen, whatever the levels and the interrupt
/// controller, where the parked tasks are attended to.
pub proof fn lemma_step_keeps_parked_later<F>(machine: Machine<F>, event: Event<F>)
    requires
        machine.scheduler.valid(),
        parked_later(machine.scheduler),
        attended(machine.scheduler),
        machine.allows(event),
    ensures
        parked_later(machine.step(event).scheduler),
{
    if machine.scheduler.parked.len() > 0 {
        lemma_earliest(machine.scheduler.parked);
    }
}

/// No parked task is due before the minimum deadline, through every run of
/// events that can happen.
pub proof fn lemma_run_keeps_parked_later<F>(machine: Machine<F>, events: Seq<Event<F>>)
    requires
        machine.scheduler.valid(),
        parked_later(machine.scheduler),
        attended(machine.scheduler),
        machine.admits(events),
    ensures
        parked_later(machine.run(events).scheduler),
        attended(machine.run(events).scheduler),
    decreases events.len(),
{
    if events.len() > 0 {
        let front = events.drop_last();
        lemma_run_keeps_parked_later(machine, front);
        lemma_run_valid(machine, front);
        lemma_step_keeps_parked_later(machine.run(front), events.last());
        lemma_step_keeps_attended(machine.run(front), events.last());
    }
}

/// An event that can happen and is in order keeps the invariant of the
/// earliest-deadline-first order.
pub proof fn lemma_step_keeps_edf<F>(machine: Machine<F>, event: Event<F>)
    requires
        machine.scheduler.valid(),
        edf(machine),
        orderly(machine, event),
    ensures
        edf(machine.step(event)),
{
    let scheduler = machine.scheduler;
    let after = machine.step(event);
    lemma_step_keeps_parked_later(machine, event);
    lemma_step_keeps_attended(machine, event);
    match event {
        Event::Init => {
            assert(in_flight(after) =~= in_flight(machine));
        },
        Event::Submit { task, now } => {
            if scheduler.preempts(queued(task, now).deadline) {
                lemma_promotion_in_order(machine, queued(task, now));
            } else {
                assert(in_flight(after) =~= in_flight(machine));
            }
        },
        Event::Enter { level } => {
            lemma_entry_in_flight(machine, level);
            assert(after.active.drop_last() =~= machine.active);
            assert forall|i: int| 0 <= i < machine.active.len() implies (
            #[trigger] after.active[i]) == machine.active[i] by {}
            assert(recorded(after));
        },
        Event::Leave => {
            let top = machine.active.last();
            let left = Machine {
                scheduler: scheduler.leave(top.level, top.task.prev_deadline),
                active: machine.active.drop_last(),
            };
            lemma_exit_in_order(machine);
            if left.scheduler.cascades() {
                lemma_earliest(scheduler.parked);
                let unparked = Machine { scheduler: left.scheduler.unpark(), ..left };
                assert(in_flight(unparked) =~= in_flight(left));
                lemma_promotion_in_order(unparked, scheduler.next_parked());
            }
        },
    }
}

/// A fresh machine keeps the invariant of the earliest-deadline-first order.
pub proof fn lemma_edf_at_first<F>()
    ensures
        edf(Machine::<F>::initial()),
{
    let machine = Machine::<F>::initial();
    assert forall|at: int| 0 <= at < NUM_DISPATCHERS implies (#[trigger] in_flight(machine)[at])
        is None by {}
    lemma_ground_skips(in_flight(machine), 0, NUM_DISPATCHERS as int);
}

/// A run of events that can happen and are in order keeps the invariant of
/// the earliest-deadline-first order.
pub proof fn lemma_run_keeps_edf<F>(machine: Machine<F>, events: Seq<Event<F>>)
    requires
        machine.scheduler.valid(),
        edf(machine),
        orderly_run(machine, events),
    ensures
        machine.admits(events),
        machine.run(events).scheduler.valid(),
        edf(machine.run(events)),
    decreases events.len(),
{
    if events.len() > 0 {
        let front = events.drop_last();
        lemma_run_keeps_edf(machine, front);
        lemma_step_valid(machine.run(front), events.last());
        lemma_step_keeps_edf(machine.run(front), events.last());
    }
}

/// Where the invariant holds and no task is in flight, no deadline is in
/// force and no task is parked: the minimum deadline is [`NO_DEADLINE`]
/// again.
pub proof fn lemma_no_deadline_when_idle<F>(machine: Machine<F>)
    requires
        machine.scheduler.valid(),
        edf(machine),
        machine.scheduler.idle(),
    ensures
        machine.scheduler.min_deadline == NO_DEADLINE,
        machine.scheduler.parked.len() == 0,
{
    lemma_idle_means_nothing_in_flight(machine);
    lemma_ground_skips(in_flight(machine), 0, NUM_DISPATCHERS as int);
}

/// Earliest deadline first. Where the invariant holds and the interrupt
/// controller enters a dispatcher, the task that the dispatcher takes is due
/// before every task that runs in an entered dispatcher and before every
/// other task that waits in a slot, and no parked task is due before it.
pub proof fn lemma_entered_task_is_due_first<F>(machine: Machine<F>, level: u8)
    requires
        machine.scheduler.valid(),
        edf(machine),
        machine.allows(Event::Enter { level }),
        dispatched(machine, Event::Enter { level }),
    ensures
        machine.scheduler.slots[level as int].unwrap().deadline == machine.scheduler.min_deadline,
        forall|other: int|
            0 <= other < NUM_DISPATCHERS && other != level && (
            #[trigger] machine.scheduler.slots[other]) is Some
                ==> machine.scheduler.slots[level as int].unwrap().deadline
                < machine.scheduler.slots[other].unwrap().deadline,
        forall|i: int|
            0 <= i < machine.active.len() ==> machine.scheduler.slots[level as int].unwrap().deadline
                < (#[trigger] machine.active[i]).task.deadline,
        forall|i: int|
            0 <= i < machine.scheduler.parked.len()
                ==> machine.scheduler.slots[level as int].unwrap().deadline <= (
            #[trigger] machine.scheduler.parked[i]).deadline,
{
    let flight = in_flight(machine);
    let taken = machine.scheduler.slots[level as int].unwrap();
    assert(above_entered(machine.active, level + 1));
    lemma_nothing_in_flight_from(machine, level + 1);
    lemma_ground_skips(flight, level + 1, NUM_DISPATCHERS as int);
    assert(flight[level as int] is Some);
    assert forall|other: int|
        0 <= other < NUM_DISPATCHERS && other != level && (
        #[trigger] machine.scheduler.slots[other]) is Some implies taken.deadline
        < machine.scheduler.slots[other].unwrap().deadline by {
        assert(flight[other] is Some);
    }
    assert forall|i: int| 0 <= i < machine.active.len() implies taken.deadline < (
    #[trigger] machine.active[i]).task.deadline by {
        lemma_entered_at(machine.active, i);
        assert(flight[machine.active[i].level as int] == Some(machine.active[i].task));
    }
}

/// The tasks in flight are stacked by deadline. Where the invariant holds,
/// a dispatcher that was entered later runs a task that is due before the
/// tasks of those that were entered before it, and the minimum deadline is
/// not later than the deadline of any task in flight.
pub proof fn lemma_running_task_is_due_first<F>(machine: Machine<F>)
    requires
        machine.scheduler.valid(),
        edf(machine),
    ensures
        forall|i: int, j: int|
            0 <= i < j < machine.active.len() ==> (#[trigger] machine.active[j]).task.deadline < (
            #[trigger] machine.active[i]).task.deadline,
        forall|i: int|
            0 <= i < machine.active.len() ==> machine.scheduler.min_deadline <= (
            #[trigger] machine.active[i]).task.deadline,
        forall|level: int|
            0 <= level < NUM_DISPATCHERS && (#[trigger] machine.scheduler.slots[level]) is Some
                ==> machine.scheduler.min_deadline <= machine.scheduler.slots[level].unwrap().deadline,
{
    let flight = in_flight(machine);
    let top = lemma_ground_top(flight, NUM_DISPATCHERS as int);
    assert forall|i: int| 0 <= i < machine.active.len() implies flight[(
    #[trigger] machine.active[i]).level as int] == Some(machine.active[i].task) by {
        lemma_entered_at(machine.active, i);
    }
    assert forall|i: int, j: int| 0 <= i < j < machine.active.len() implies (
    #[trigger] machine.active[j]).task.deadline < (#[trigger] machine.active[i]).task.deadline by {
        assert(flight[machine.active[i].level as int] is Some);
        assert(flight[machine.active[j].level as int] is Some);
    }
    assert forall|i: int| 0 <= i < machine.active.len() implies machine.scheduler.min_deadline <= (
    #[trigger] machine.active[i]).task.deadline by {
        assert(flight[machine.active[i].level as int] is Some);
        assert(flight[top] is Some);
    }
    assert forall|level: int|
        0 <= level < NUM_DISPATCHERS && (#[trigger] machine.scheduler.slots[level])
            is Some implies machine.scheduler.min_deadline
        <= machine.scheduler.slots[level].unwrap().deadline by {
        assert(flight[level] is Some);
        assert(flight[top] is Some);
    }
}

/// Earliest deadline first, for whole runs. From a fresh machine, through
/// every run of events that can happen and are in order: when the interrupt
/// controller then enters a dispatcher, the task that it takes is due before
/// every task that runs and before every other task that waits in a slot, and
/// no parked task is due before it.
pub proof fn lemma_earliest_deadline_first<F>(events: Seq<Event<F>>, level: u8)
    requires
        orderly_run(Machine::<F>::initial(), events),
        orderly(Machine::<F>::initial().run(events), Event::Enter { level }),
    ensures
        forall|other: int|
            0 <= other < NUM_DISPATCHERS && other != level && (#[trigger] Machine::<F>::initial().run(
                events,
            ).scheduler.slots[other]) is Some ==> Machine::<F>::initial().run(
                events,
            ).scheduler.slots[level as int].unwrap().deadline < Machine::<F>::initial().run(
                events,
            ).scheduler.slots[other].unwrap().deadline,
        forall|i: int|
            0 <= i < Machine::<F>::initial().run(events).active.len() ==> Machine::<F>::initial().run(
                events,
            ).scheduler.slots[level as int].unwrap().deadline < (#[trigger] Machine::<F>::initial().run(
                events,
            ).active[i]).task.deadline,
        forall|i: int|
            0 <= i < Machine::<F>::initial().run(events).scheduler.parked.len()
                ==> Machine::<F>::initial().run(events).scheduler.slots[level as int].unwrap().deadline
                <= (#[trigger] Machine::<F>::initial().run(events).scheduler.parked[i]).deadline,
{
    lemma_edf_at_first::<F>();
    lemma_run_keeps_edf(Machine::<F>::initial(), events);
    lemma_entered_task_is_due_first(Machine::<F>::initial().run(events), level);
}

} // verus!
