//! The dispatch slots: one place per preemption level, through which the
//! scheduler hands a task to the dispatcher of that level.
//!
//! A task is dispatched from the moment it is placed in a slot until the
//! dispatcher that took it leaves. The slots therefore remember, beside the
//! tasks that wait, which dispatchers are entered.

use vstd::prelude::*;
use crate::dispatchers::NUM_DISPATCHERS;
use crate::task::{RunningTask, RunningTaskView};

verus! {

/// No slot of `waiting` holds a task.
pub open spec fn none_waiting<F>(waiting: Seq<Option<RunningTaskView<F>>>) -> bool {
    forall|level: int| 0 <= level < waiting.len() ==> (#[trigger] waiting[level]) is None
}

/// No dispatcher of `entered` is entered.
pub open spec fn none_entered(entered: Seq<bool>) -> bool {
    forall|level: int| 0 <= level < entered.len() ==> !(#[trigger] entered[level])
}

/// No task is dispatched: no slot holds a task, and no dispatcher is entered.
pub open spec fn all_empty<F>(waiting: Seq<Option<RunningTaskView<F>>>, entered: Seq<bool>) -> bool {
    none_waiting(waiting) && none_entered(entered)
}

/// What [`DispatchSlots`] are: for each level, lowest first, the task that
/// waits in the slot, and whether the dispatcher is entered.
pub struct DispatchSlotsView<F> {
    pub waiting: Seq<Option<RunningTaskView<F>>>,
    pub entered: Seq<bool>,
}

/// One slot per dispatcher, each empty or holding the task that the
/// dispatcher of that level will run, and one mark per dispatcher that says
/// whether it is entered.
pub struct DispatchSlots<F> {
    slots: [Option<RunningTask<F>>; NUM_DISPATCHERS],
    entered: [bool; NUM_DISPATCHERS],
}

impl<F> View for DispatchSlots<F> {
    type V = DispatchSlotsView<F>;

    closed spec fn view(&self) -> DispatchSlotsView<F> {
        DispatchSlotsView {
            waiting: Seq::new(
                NUM_DISPATCHERS as nat,
                |level: int|
                    match self.slots@[level] {
                        Some(task) => Some(task@),
                        None => None,
                    },
            ),
            entered: self.entered@,
        }
    }
}

impl<F> DispatchSlots<F> {
    /// There are as many slots, and as many marks, as dispatchers.
    pub proof fn lemma_len(&self)
        ensures
            self@.waiting.len() == NUM_DISPATCHERS,
            self@.entered.len() == NUM_DISPATCHERS,
    {
    }

    /// Slots that are all empty, with no dispatcher entered.
    pub fn new() -> (slots: Self)
        ensures
            slots@.waiting.len() == NUM_DISPATCHERS,
            slots@.entered.len() == NUM_DISPATCHERS,
            all_empty(slots@.waiting, slots@.entered),
    {
        DispatchSlots { slots: [None, None, None], entered: [false, false, false] }
    }

    /// Places `task` in the slot of level `level`, over what was there.
    pub fn store(&mut self, task: RunningTask<F>, level: usize)
        requires
            level < NUM_DISPATCHERS,
        ensures
            final(self)@ == (DispatchSlotsView {
                waiting: old(self)@.waiting.update(level as int, Some(task@)),
                ..old(self)@
            }),
    {
        self.slots[level] = Some(task);
        proof {
            assert(self@.waiting =~= old(self)@.waiting.update(level as int, Some(task@)));
        }
    }

    /// Enters the dispatcher of level `level`: empties its slot and hands out
    /// what was there. If there was a task, the dispatcher counts as entered
    /// until [`release`](Self::release).
    pub fn take(&mut self, level: usize) -> (task: Option<RunningTask<F>>)
        requires
            level < NUM_DISPATCHERS,
        ensures
            final(self)@.waiting == old(self)@.waiting.update(level as int, None),
            old(self)@.waiting[level as int] is None ==> task is None
                && final(self)@.entered == old(self)@.entered,
            old(self)@.waiting[level as int] is Some ==> task is Some
                && Some(task.unwrap()@) == old(self)@.waiting[level as int]
                && final(self)@.entered == old(self)@.entered.update(level as int, true),
    {
        let task = self.slots[level].take();
        if task.is_some() {
            self.entered[level] = true;
        }
        proof {
            assert(self@.waiting =~= old(self)@.waiting.update(level as int, None));
        }
        task
    }

    /// Leaves the dispatcher of level `level`: it no longer counts as
    /// entered.
    pub fn release(&mut self, level: usize)
        requires
            level < NUM_DISPATCHERS,
        ensures
            final(self)@ == (DispatchSlotsView {
                entered: old(self)@.entered.update(level as int, false),
                ..old(self)@
            }),
    {
        self.entered[level] = false;
        proof {
            assert(self@.waiting =~= old(self)@.waiting);
        }
    }

    /// Whether the slot of level `level` holds a task.
    pub fn is_occupied(&self, level: usize) -> (occupied: bool)
        requires
            level < NUM_DISPATCHERS,
        ensures
            occupied == (self@.waiting[level as int] is Some),
    {
        self.slots[level].is_some()
    }

    /// Whether the dispatcher of level `level` is entered.
    pub fn is_entered(&self, level: usize) -> (entered: bool)
        requires
            level < NUM_DISPATCHERS,
        ensures
            entered == self@.entered[level as int],
    {
        self.entered[level]
    }

    /// Whether no task would be dispatched if the dispatcher of level `level`
    /// had left.
    pub fn all_empty_but(&self, level: usize) -> (empty: bool)
        requires
            level < NUM_DISPATCHERS,
        ensures
            empty == all_empty(self@.waiting, self@.entered.update(level as int, false)),
    {
        let ghost left = self@.entered.update(level as int, false);
        let mut at: usize = 0;
        while at < NUM_DISPATCHERS
            invariant
                0 <= at <= NUM_DISPATCHERS,
                level < NUM_DISPATCHERS,
                self@.waiting.len() == NUM_DISPATCHERS,
                left == self@.entered.update(level as int, false),
                left.len() == NUM_DISPATCHERS,
                forall|below: int| 0 <= below < at ==> (#[trigger] self@.waiting[below]) is None,
                forall|below: int| 0 <= below < at ==> !(#[trigger] left[below]),
            decreases NUM_DISPATCHERS - at,
        {
            if self.slots[at].is_some() || (at != level && self.entered[at]) {
                proof {
                    assert(self@.waiting[at as int] is Some || left[at as int]);
                }
                return false;
            }
            at += 1;
        }
        true
    }

    /// Whether no task is dispatched: no slot holds a task, and no dispatcher
    /// is entered.
    pub fn all_empty(&self) -> (empty: bool)
        ensures
            empty == all_empty(self@.waiting, self@.entered),
    {
        let mut level: usize = 0;
        while level < NUM_DISPATCHERS
            invariant
                0 <= level <= NUM_DISPATCHERS,
                self@.waiting.len() == NUM_DISPATCHERS,
                self@.entered.len() == NUM_DISPATCHERS,
                forall|below: int| 0 <= below < level ==> (#[trigger] self@.waiting[below]) is None,
                forall|below: int| 0 <= below < level ==> !(#[trigger] self@.entered[below]),
            decreases NUM_DISPATCHERS - level,
        {
            if self.slots[level].is_some() || self.entered[level] {
                proof {
                    assert(self@.waiting[level as int] is Some || self@.entered[level as int]);
                }
                return false;
            }
            level += 1;
        }
        true
    }
}

} // verus!
