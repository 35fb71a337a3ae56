//! The parked queue: scheduled tasks that wait for a dispatcher, kept in the
//! order of their arrival and handed out earliest deadline first.

use vstd::prelude::*;
use vstd::multiset::Multiset;
use vstd::seq_lib::group_to_multiset_ensures;
use crate::Timestamp;
use crate::task::{ScheduledTask, ScheduledTaskView};

verus! {

/// How many tasks the parked queue holds at most.
pub const QUEUE_CAPACITY: usize = 16;

/// A bounded min-heap of absolute deadlines.
///
/// It keeps a `heapless::BinaryHeap` out of the verifier's sight: Verus
/// cannot name the storage type that the heap is built on. What the heap holds
/// is [`heap_items`], and the functions below say what each call does to it.
#[verifier::external_body]
pub struct DeadlineHeap {
    heap: heapless::BinaryHeap<Timestamp, heapless::binary_heap::Min, QUEUE_CAPACITY>,
}

/// The deadlines that a [`DeadlineHeap`] holds, each as often as it was
/// pushed and not yet popped.
pub uninterp spec fn heap_items(heap: DeadlineHeap) -> Multiset<Timestamp>;

/// `heapless::BinaryHeap::new`: a heap that holds nothing.
#[verifier::external_body]
fn heap_new() -> (heap: DeadlineHeap)
    ensures
        heap_items(heap) == Multiset::<Timestamp>::empty(),
{
    DeadlineHeap { heap: heapless::BinaryHeap::new() }
}

/// `heapless::BinaryHeap::push`: below capacity the deadline is added and the
/// call succeeds; at capacity the heap stays as it is and the deadline comes
/// back as the error.
#[verifier::external_body]
fn heap_push(heap: &mut DeadlineHeap, deadline: Timestamp) -> (pushed: Result<(), Timestamp>)
    ensures
        heap_items(*old(heap)).len() < QUEUE_CAPACITY ==> pushed is Ok
            && heap_items(*final(heap)) == heap_items(*old(heap)).insert(deadline),
        heap_items(*old(heap)).len() >= QUEUE_CAPACITY ==> (pushed matches Err(back) && back == deadline)
            && heap_items(*final(heap)) == heap_items(*old(heap)),
{
    heap.heap.push(deadline)
}

/// `heapless::BinaryHeap::peek` on a min-heap: nothing if the heap is empty,
/// else the smallest deadline in it.
#[verifier::external_body]
fn heap_peek(heap: &DeadlineHeap) -> (top: Option<Timestamp>)
    ensures
        heap_items(*heap).len() == 0 ==> top is None,
        heap_items(*heap).len() > 0 ==> top is Some && is_least(heap_items(*heap), top.unwrap()),
{
    heap.heap.peek().copied()
}

/// `heapless::BinaryHeap::pop` on a min-heap: nothing if the heap is empty,
/// else the smallest deadline in it, which leaves the heap once.
#[verifier::external_body]
fn heap_pop(heap: &mut DeadlineHeap) -> (top: Option<Timestamp>)
    ensures
        heap_items(*old(heap)).len() == 0 ==> top is None
            && heap_items(*final(heap)) == heap_items(*old(heap)),
        heap_items(*old(heap)).len() > 0 ==> top is Some
            && is_least(heap_items(*old(heap)), top.unwrap())
            && heap_items(*final(heap)) == heap_items(*old(heap)).remove(top.unwrap()),
{
    heap.heap.pop()
}

/// `deadline` occurs in `items` and nothing in `items` is smaller.
pub open spec fn is_least(items: Multiset<Timestamp>, deadline: Timestamp) -> bool {
    &&& items.contains(deadline)
    &&& forall|other: Timestamp| items.contains(other) ==> deadline <= other
}

/// The place in `tasks` of the task to hand out next: the one that arrived
/// first among those with the earliest deadline. Zero for an empty sequence.
pub open spec fn earliest<F>(tasks: Seq<ScheduledTaskView<F>>) -> int
    decreases tasks.len(),
{
    if tasks.len() <= 1 {
        0
    } else {
        let before = earliest(tasks.drop_last());
        if tasks.last().deadline < tasks[before].deadline {
            tasks.len() - 1
        } else {
            before
        }
    }
}

/// The deadlines of `tasks`, in the same order.
pub open spec fn deadlines<F>(tasks: Seq<ScheduledTaskView<F>>) -> Seq<Timestamp> {
    tasks.map_values(|task: ScheduledTaskView<F>| task.deadline)
}

/// [`earliest`] is a place in a non-empty sequence; no task has an earlier
/// deadline than the one there, and every task before it has a later one.
pub proof fn lemma_earliest<F>(tasks: Seq<ScheduledTaskView<F>>)
    requires
        tasks.len() > 0,
    ensures
        0 <= earliest(tasks) < tasks.len(),
        forall|i: int|
            0 <= i < tasks.len() ==> tasks[earliest(tasks)].deadline <= (#[trigger] tasks[i]).deadline,
        forall|i: int|
            0 <= i < earliest(tasks) ==> tasks[earliest(tasks)].deadline < (#[trigger] tasks[i]).deadline,
    decreases tasks.len(),
{
    if tasks.len() > 1 {
        let front = tasks.drop_last();
        lemma_earliest(front);
        assert forall|i: int| 0 <= i < tasks.len() implies tasks[earliest(tasks)].deadline <= (
        #[trigger] tasks[i]).deadline by {
            if i < front.len() {
                assert(front[i] == tasks[i]);
            }
        }
        assert forall|i: int| 0 <= i < earliest(tasks) implies tasks[earliest(tasks)].deadline < (
        #[trigger] tasks[i]).deadline by {
            assert(front[i] == tasks[i]);
        }
    }
}

/// Only [`earliest`] is the first place with the least deadline.
pub proof fn lemma_earliest_unique<F>(tasks: Seq<ScheduledTaskView<F>>, at: int)
    requires
        0 <= at < tasks.len(),
        forall|i: int| 0 <= i < tasks.len() ==> tasks[at].deadline <= (#[trigger] tasks[i]).deadline,
        forall|i: int| 0 <= i < at ==> tasks[at].deadline != (#[trigger] tasks[i]).deadline,
    ensures
        at == earliest(tasks),
{
    lemma_earliest(tasks);
}

/// An empty sequence of tasks has no deadlines.
proof fn lemma_nothing_parked<F>()
    ensures
        deadlines(Seq::<ScheduledTaskView<F>>::empty()).to_multiset() == Multiset::<Timestamp>::empty(),
{
    let none = deadlines(Seq::<ScheduledTaskView<F>>::empty());
    none.to_multiset_ensures();
    vstd::multiset::lemma_multiset_empty_len(none.to_multiset());
}

/// The deadline-ordered, bounded holding area for tasks that were submitted
/// and have not been promoted.
///
/// Its view is the sequence of the parked tasks in the order of their
/// arrival. Among tasks with the same deadline the one that arrived first
/// leaves first.
///
/// The tasks stand in a fixed array in the order of their arrival; a heap of
/// their deadlines beside it gives the earliest deadline at once. Nothing is
/// allocated.
pub struct ParkedQueue<F> {
    heap: DeadlineHeap,
    tasks: [Option<ScheduledTask<F>>; QUEUE_CAPACITY],
    len: usize,
}

impl<F> View for ParkedQueue<F> {
    type V = Seq<ScheduledTaskView<F>>;

    closed spec fn view(&self) -> Seq<ScheduledTaskView<F>> {
        Seq::new(self.len as nat, |at: int| self.tasks@[at].unwrap()@)
    }
}

impl<F> ParkedQueue<F> {
    /// The queue is within its capacity, and its tasks fill the front of the
    /// array.
    spec fn filled(&self) -> bool {
        &&& self.len <= QUEUE_CAPACITY
        &&& forall|at: int| 0 <= at < self.len ==> (#[trigger] self.tasks@[at]) is Some
        &&& forall|at: int| self.len <= at < QUEUE_CAPACITY ==> (#[trigger] self.tasks@[at]) is None
    }

    /// The queue is within its capacity, its tasks fill the front of the
    /// array, and its heap holds the deadlines of the parked tasks and
    /// nothing else.
    pub closed spec fn wf(&self) -> bool {
        &&& self.filled()
        &&& heap_items(self.heap) == deadlines(self@).to_multiset()
    }

    /// A well-formed queue holds at most [`QUEUE_CAPACITY`] tasks.
    pub proof fn lemma_bounded(&self)
        requires
            self.wf(),
        ensures
            self@.len() <= QUEUE_CAPACITY,
    {
    }

    /// An empty queue.
    pub fn new() -> (queue: Self)
        ensures
            queue.wf(),
            queue@ == Seq::<ScheduledTaskView<F>>::empty(),
    {
        let queue = ParkedQueue {
            heap: heap_new(),
            tasks: [
                None,
                None,
                None,
                None,
                None,
                None,
                None,
                None,
                None,
                None,
                None,
                None,
                None,
                None,
                None,
                None,
            ],
            len: 0,
        };
        proof {
            lemma_nothing_parked::<F>();
        }
        queue
    }

    /// The number of parked tasks.
    pub fn len(&self) -> (len: usize)
        ensures
            len == self@.len(),
    {
        self.len
    }

    /// Whether no task is parked.
    pub fn is_empty(&self) -> (empty: bool)
        ensures
            empty == (self@.len() == 0),
    {
        self.len == 0
    }

    /// Whether the queue is at capacity.
    pub fn is_full(&self) -> (full: bool)
        ensures
            full == (self@.len() >= QUEUE_CAPACITY),
    {
        self.len >= QUEUE_CAPACITY
    }

    /// Parks `task` behind the tasks that are there. At capacity the queue
    /// stays as it is and the task comes back.
    pub fn push(&mut self, task: ScheduledTask<F>) -> (pushed: Result<(), ScheduledTask<F>>)
        requires
            old(self).wf(),
        ensures
            final(self).wf(),
            old(self)@.len() < QUEUE_CAPACITY ==> pushed is Ok && final(self)@ == old(self)@.push(task@),
            old(self)@.len() >= QUEUE_CAPACITY ==> (pushed matches Err(back) && back == task)
                && final(self)@ == old(self)@,
    {
        proof {
            broadcast use group_to_multiset_ensures;
        }
        match heap_push(&mut self.heap, task.abs_deadline()) {
            Ok(()) => {
                let at = self.len;
                self.tasks[at] = Some(task);
                self.len = at + 1;
                proof {
                    assert(deadlines(self@) =~= deadlines(old(self)@).push(task@.deadline));
                }
                Ok(())
            },
            Err(_) => Err(task),
        }
    }

    /// The least deadline of `self` stands at [`earliest`], and that is the
    /// first place where it stands.
    proof fn lemma_least_is_earliest(&self, least: Timestamp)
        requires
            is_least(deadlines(self@).to_multiset(), least),
        ensures
            self@.len() > 0,
            self@[earliest(self@)].deadline == least,
            forall|i: int| 0 <= i < earliest(self@) ==> (#[trigger] self@[i]).deadline != least,
    {
        let due = deadlines(self@);
        due.to_multiset_ensures();
        lemma_earliest(self@);
        assert(due.to_multiset().contains(due[earliest(self@)]));
    }

    /// The earliest deadline among the parked tasks, if there is one.
    pub fn peek_deadline(&self) -> (deadline: Option<Timestamp>)
        requires
            self.wf(),
        ensures
            self@.len() == 0 ==> deadline is None,
            self@.len() > 0 ==> deadline == Some(self@[earliest(self@)].deadline),
    {
        proof {
            deadlines(self@).to_multiset_ensures();
        }
        let top = heap_peek(&self.heap);
        proof {
            if let Some(least) = top {
                self.lemma_least_is_earliest(least);
            }
        }
        top
    }

    /// The place of the first parked task that is due at `least`.
    fn first_due_at(&self, least: Timestamp) -> (at: usize)
        requires
            self.filled(),
            is_least(deadlines(self@).to_multiset(), least),
        ensures
            at == earliest(self@),
            at < self@.len(),
            self@[at as int].deadline == least,
    {
        proof {
            self.lemma_least_is_earliest(least);
            lemma_earliest(self@);
        }
        let mut at: usize = 0;
        while !self.is_due_at(at, least)
            invariant
                self.filled(),
                0 <= at <= earliest(self@) < self@.len(),
                self@[earliest(self@)].deadline == least,
                forall|i: int| 0 <= i < earliest(self@) ==> (#[trigger] self@[i]).deadline != least,
            decreases self@.len() - at,
        {
            at += 1;
        }
        at
    }

    /// Whether the task at place `at` is due at `deadline`.
    fn is_due_at(&self, at: usize, deadline: Timestamp) -> (due: bool)
        requires
            self.filled(),
            at < self@.len(),
        ensures
            due == (self@[at as int].deadline == deadline),
    {
        match &self.tasks[at] {
            Some(task) => task.abs_deadline() == deadline,
            None => false,
        }
    }

    /// The task to hand out next, if there is one: among the parked tasks with
    /// the earliest deadline the one that arrived first.
    pub fn peek(&self) -> (next: Option<&ScheduledTask<F>>)
        requires
            self.wf(),
        ensures
            self@.len() == 0 ==> next is None,
            self@.len() > 0 ==> next is Some && next.unwrap()@ == self@[earliest(self@)],
    {
        proof {
            deadlines(self@).to_multiset_ensures();
        }
        match heap_peek(&self.heap) {
            None => None,
            Some(least) => {
                let at = self.first_due_at(least);
                self.tasks[at].as_ref()
            },
        }
    }

    /// Takes out the task that [`peek`](Self::peek) shows. The other tasks
    /// keep their order.
    pub fn pop_min(&mut self) -> (next: Option<ScheduledTask<F>>)
        requires
            old(self).wf(),
        ensures
            final(self).wf(),
            old(self)@.len() == 0 ==> next is None && final(self)@ == old(self)@,
            old(self)@.len() > 0 ==> next is Some && next.unwrap()@ == old(self)@[earliest(old(self)@)]
                && final(self)@ == old(self)@.remove(earliest(old(self)@)),
    {
        proof {
            deadlines(self@).to_multiset_ensures();
        }
        match heap_pop(&mut self.heap) {
            None => None,
            Some(least) => {
                let at = self.first_due_at(least);
                let task = self.tasks[at].take();
                let ghost before = old(self)@;
                let ghost stored = old(self).tasks@;
                let ghost items = heap_items(self.heap);
                let end = self.len;
                let mut hole = at;
                while hole + 1 < end
                    invariant
                        at <= hole < end <= QUEUE_CAPACITY,
                        end == self.len == old(self).len,
                        heap_items(self.heap) == items,
                        stored.len() == QUEUE_CAPACITY,
                        self.tasks@[hole as int] is None,
                        forall|i: int| 0 <= i < at ==> self.tasks@[i] == stored[i],
                        forall|i: int| at <= i < hole ==> #[trigger] self.tasks@[i] == stored[i + 1],
                        forall|i: int|
                            hole < i < QUEUE_CAPACITY ==> #[trigger] self.tasks@[i] == stored[i],
                    decreases end - hole,
                {
                    let moved = self.tasks[hole + 1].take();
                    self.tasks[hole] = moved;
                    hole += 1;
                }
                self.len = end - 1;
                proof {
                    assert forall|i: int| 0 <= i < self.len implies (#[trigger] self.tasks@[i])
                        is Some by {
                        if i < at {
                            assert(stored[i] is Some);
                        }
                    }
                    assert(deadlines(self@) =~= deadlines(before).remove(at as int));
                }
                task
            },
        }
    }
}

} // verus!
