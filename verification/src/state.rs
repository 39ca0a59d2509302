//! The executor as a transition system over mathematical values.
//!
//! A [`State`] is what an executor looks like from outside: the slot of every
//! task spawned so far, the run queue, the task being resumed if there is one,
//! and the history of resumptions. The four transitions `spawn`, `wake`,
//! `begin` and `finish` are total functions on states. The contracts of the
//! executable executor are stated over them, and the laws of the scheduler
//! are proved about them below.

use vstd::prelude::*;
use crate::task::{Computation, Poll, Task, WakeHandle};

verus! {

/// The abstract state of an executor.
pub struct State<C> {
    /// The slot of every task, in spawn order. A task is named by its
    /// position here.
    pub tasks: Seq<Task<C>>,
    /// The tasks that wait to be resumed, the next one first.
    pub queue: Seq<int>,
    /// The task whose resumption is in progress.
    pub running: Option<int>,
    /// Every resumption begun so far, the oldest first.
    pub resumed: Seq<int>,
}

/// One atomic step of an executor.
pub enum Event<C> {
    /// A new task is spawned around the computation.
    Spawn(C),
    /// The wake handle of the task at this position is triggered.
    Wake(int),
    /// The run loop takes the next task off the queue and starts resuming it.
    Begin,
    /// The resumption in progress returns the computation and its report.
    Finish(C, Poll),
}

/// The queue without `task`. In a queue free of duplicates this removes the
/// one entry for `task`, if there is one, and keeps the order of the rest.
pub open spec fn without(queue: Seq<int>, task: int) -> Seq<int> {
    if queue.contains(task) {
        queue.remove(queue.index_of(task))
    } else {
        queue
    }
}

/// The slot of a task after a resumption that left `computation` and
/// reported `outcome`.
pub open spec fn parked_or_finished<C>(computation: C, outcome: Poll) -> Task<C> {
    match outcome {
        Poll::Pending => Task::Holding(computation),
        Poll::Ready => Task::Completed,
    }
}

impl<C> State<C> {
    /// The state of an executor on which nothing has happened yet.
    pub open spec fn empty() -> Self {
        State { tasks: Seq::empty(), queue: Seq::empty(), running: None, resumed: Seq::empty() }
    }

    /// `task` has been spawned and has not finished.
    pub open spec fn live(self, task: int) -> bool {
        0 <= task < self.tasks.len() && !(self.tasks[task] is Completed)
    }

    /// `task` has been spawned and has finished.
    pub open spec fn completed(self, task: int) -> bool {
        0 <= task < self.tasks.len() && self.tasks[task] is Completed
    }

    /// How many resumptions of `task` have begun so far.
    pub open spec fn resumptions(self, task: int) -> nat {
        self.resumed.to_multiset().count(task)
    }

    /// The invariant of every reachable state: no task is queued twice, only
    /// live tasks are queued, and the slot marked as running is exactly the
    /// one whose resumption is in progress.
    pub open spec fn wf(self) -> bool {
        &&& self.queue.no_duplicates()
        &&& forall|k: int| 0 <= k < self.queue.len() ==> self.live(#[trigger] self.queue[k])
        &&& forall|t: int|
            0 <= t < self.tasks.len() ==> ((#[trigger] self.tasks[t]) is Running <==> self.running
                == Some(t))
        &&& self.running matches Some(t) ==> 0 <= t < self.tasks.len()
    }

    /// Spawning: the computation gets a fresh slot, parked, at the end of the
    /// task table, and the new task joins the back of the queue.
    pub open spec fn spawn(self, computation: C) -> Self {
        State {
            tasks: self.tasks.push(Task::Holding(computation)),
            queue: self.queue.push(self.tasks.len() as int),
            ..self
        }
    }

    /// Triggering the wake handle of `task`: a live task that is not queued
    /// joins the back of the queue. Anything else leaves the state as it is.
    pub open spec fn wake(self, task: int) -> Self {
        if self.live(task) && !self.queue.contains(task) {
            State { queue: self.queue.push(task), ..self }
        } else {
            self
        }
    }

    /// Starting a resumption: the front of the queue leaves the queue, its
    /// slot is marked as running, and the resumption is recorded. Nothing
    /// happens while another resumption is in progress or on an empty queue.
    pub open spec fn begin(self) -> Self {
        if self.running is Some || self.queue.len() == 0 {
            self
        } else {
            State {
                tasks: self.tasks.update(self.queue[0], Task::Running),
                queue: self.queue.drop_first(),
                running: Some(self.queue[0]),
                resumed: self.resumed.push(self.queue[0]),
            }
        }
    }

    /// Ending the resumption in progress. A computation that is not ready is
    /// parked in its slot again; whether the task is queued does not change.
    /// A computation that has finished leaves its slot empty for good, and
    /// the task leaves the queue. Nothing happens when no resumption is in
    /// progress.
    pub open spec fn finish(self, computation: C, outcome: Poll) -> Self {
        match self.running {
            None => self,
            Some(task) => State {
                tasks: self.tasks.update(task, parked_or_finished(computation, outcome)),
                queue: match outcome {
                    Poll::Pending => self.queue,
                    Poll::Ready => without(self.queue, task),
                },
                running: None,
                ..self
            },
        }
    }

    /// The state after one event.
    pub open spec fn step(self, event: Event<C>) -> Self {
        match event {
            Event::Spawn(computation) => self.spawn(computation),
            Event::Wake(task) => self.wake(task),
            Event::Begin => self.begin(),
            Event::Finish(computation, outcome) => self.finish(computation, outcome),
        }
    }

    /// The state after a sequence of events, the first event first.
    pub open spec fn after(self, events: Seq<Event<C>>) -> Self
        decreases events.len(),
    {
        if events.len() == 0 {
            self
        } else {
            self.after(events.drop_last()).step(events.last())
        }
    }

    /// What draining the queue does, whatever the computations report: with
    /// no resumption in progress, every queued task is resumed once, in queue
    /// order, and ends parked or finished; the queue ends empty and no other
    /// slot changes. While a resumption is in progress nothing can be
    /// drained.
    pub open spec fn drains_to(self, post: Self) -> bool {
        if self.running is Some {
            post == self
        } else {
            &&& post.queue == Seq::<int>::empty()
            &&& post.running is None
            &&& post.resumed == self.resumed + self.queue
            &&& post.tasks.len() == self.tasks.len()
            &&& forall|t: int|
                0 <= t < self.tasks.len() ==> if self.queue.contains(t) {
                    !((#[trigger] post.tasks[t]) is Running)
                } else {
                    post.tasks[t] == self.tasks[t]
                }
        }
    }
}

/// What one resumption makes of the slot of task `task`: the slot held a
/// parked computation, the computation was resumed with a wake handle bound
/// to the task, and the slot now holds the computation as that resumption
/// left it, or nothing if the resumption finished it.
pub open spec fn resumed_once<C: Computation>(before: Task<C>, task: int, after: Task<C>) -> bool {
    exists|waker: WakeHandle, held: C, left: C, outcome: Poll|
        before == Task::Holding(held) && waker@ == task && #[trigger] held.resumes_to(
            waker,
            &left,
            outcome,
        ) && after == parked_or_finished(left, outcome)
}

impl<C: Computation> State<C> {
    /// Draining resumes the computation of every queued task once, with a
    /// wake handle bound to that task, and keeps what the resumption left.
    pub open spec fn resumes_into(self, post: Self) -> bool {
        self.running is None ==> forall|t: int|
            0 <= t < self.tasks.len() && self.queue.contains(t) ==> resumed_once(
                self.tasks[t],
                t,
                #[trigger] post.tasks[t],
            )
    }
}

/// A queue with one more entry at the back holds that entry and what it
/// held before.
pub proof fn lemma_push_contains(queue: Seq<int>, entry: int)
    ensures
        forall|task: int| #[trigger]
            queue.push(entry).contains(task) <==> queue.contains(task) || task == entry,
{
    let longer = queue.push(entry);
    assert forall|task: int| #[trigger]
        longer.contains(task) <==> queue.contains(task) || task == entry by {
        if queue.contains(task) {
            let k = choose|k: int| 0 <= k < queue.len() && queue[k] == task;
            assert(longer[k] == task);
        }
        if task == entry {
            assert(longer[queue.len() as int] == task);
        }
        if longer.contains(task) && task != entry {
            let k = choose|k: int| 0 <= k < longer.len() && longer[k] == task;
            assert(queue[k] == task);
        }
    }
}

/// A queue free of duplicates that loses its front holds what it held
/// before, but for the front.
pub proof fn lemma_drop_first_contains(queue: Seq<int>)
    requires
        queue.len() > 0,
        queue.no_duplicates(),
    ensures
        forall|task: int| #[trigger]
            queue.drop_first().contains(task) <==> queue.contains(task) && task != queue[0],
{
    let rest = queue.drop_first();
    assert forall|task: int| #[trigger]
        rest.contains(task) <==> queue.contains(task) && task != queue[0] by {
        if rest.contains(task) {
            let k = choose|k: int| 0 <= k < rest.len() && rest[k] == task;
            assert(queue[k + 1] == task);
        }
        if queue.contains(task) && task != queue[0] {
            let k = choose|k: int| 0 <= k < queue.len() && queue[k] == task;
            assert(rest[k - 1] == task);
        }
    }
}

/// What removing a task from a queue free of duplicates leaves: a queue free
/// of duplicates, without the task, with every other entry still in it.
pub proof fn lemma_without(queue: Seq<int>, task: int)
    requires
        queue.no_duplicates(),
    ensures
        without(queue, task).no_duplicates(),
        !without(queue, task).contains(task),
        forall|other: int|
            other != task ==> (without(queue, task).contains(other) <==> queue.contains(other)),
        forall|k: int|
            0 <= k < without(queue, task).len() ==> queue.contains(
                #[trigger] without(queue, task)[k],
            ),
{
    let rest = without(queue, task);
    if queue.contains(task) {
        let at = queue.index_of(task);
        assert forall|k: int| 0 <= k < rest.len() implies queue.contains(#[trigger] rest[k])
            && rest[k] != task by {
            if k < at {
                assert(rest[k] == queue[k]);
            } else {
                assert(rest[k] == queue[k + 1]);
            }
        }
        assert forall|other: int| other != task && queue.contains(other) implies rest.contains(
            other,
        ) by {
            let k = choose|k: int| 0 <= k < queue.len() && queue[k] == other;
            if k < at {
                assert(rest[k] == other);
            } else {
                assert(rest[k - 1] == other);
            }
        }
    }
}

impl<C> State<C> {
    /// The empty state is well formed.
    pub proof fn lemma_empty_wf()
        ensures
            Self::empty().wf(),
    {
    }

    /// Spawning keeps a state well formed.
    pub proof fn lemma_spawn_wf(self, computation: C)
        requires
            self.wf(),
        ensures
            self.spawn(computation).wf(),
    {
        let post = self.spawn(computation);
        assert forall|k: int| 0 <= k < post.queue.len() implies post.live(
            #[trigger] post.queue[k],
        ) by {
            if k < self.queue.len() {
                assert(self.live(self.queue[k]));
            }
        }
        assert forall|i: int, j: int|
            0 <= i < post.queue.len() && 0 <= j < post.queue.len() && i != j implies post.queue[i]
            != post.queue[j] by {
            if i < self.queue.len() {
                assert(self.live(self.queue[i]));
            }
            if j < self.queue.len() {
                assert(self.live(self.queue[j]));
            }
        }
        assert forall|t: int| 0 <= t < post.tasks.len() implies ((#[trigger] post.tasks[t])
            is Running <==> post.running == Some(t)) by {
            if t < self.tasks.len() {
                assert(post.tasks[t] == self.tasks[t]);
            }
        }
    }

    /// Triggering a wake handle keeps a state well formed.
    pub proof fn lemma_wake_wf(self, task: int)
        requires
            self.wf(),
        ensures
            self.wake(task).wf(),
    {
        let post = self.wake(task);
        if self.live(task) && !self.queue.contains(task) {
            assert forall|k: int| 0 <= k < post.queue.len() implies post.live(
                #[trigger] post.queue[k],
            ) by {
                if k < self.queue.len() {
                    assert(self.live(self.queue[k]));
                }
            }
        }
    }

    /// Starting a resumption keeps a state well formed.
    pub proof fn lemma_begin_wf(self)
        requires
            self.wf(),
        ensures
            self.begin().wf(),
    {
        let post = self.begin();
        if !(self.running is Some || self.queue.len() == 0) {
            let task = self.queue[0];
            assert(self.live(task));
            assert forall|k: int| 0 <= k < post.queue.len() implies post.live(
                #[trigger] post.queue[k],
            ) by {
                assert(post.queue[k] == self.queue[k + 1]);
                assert(self.live(self.queue[k + 1]));
            }
            assert forall|i: int, j: int|
                0 <= i < post.queue.len() && 0 <= j < post.queue.len() && i != j implies
                post.queue[i] != post.queue[j] by {
                assert(post.queue[i] == self.queue[i + 1]);
                assert(post.queue[j] == self.queue[j + 1]);
            }
            assert forall|t: int| 0 <= t < post.tasks.len() implies ((#[trigger] post.tasks[t])
                is Running <==> post.running == Some(t)) by {
                if t != task {
                    assert(post.tasks[t] == self.tasks[t]);
                }
            }
        }
    }

    /// Ending a resumption keeps a state well formed.
    pub proof fn lemma_finish_wf(self, computation: C, outcome: Poll)
        requires
            self.wf(),
        ensures
            self.finish(computation, outcome).wf(),
    {
        let post = self.finish(computation, outcome);
        if let Some(task) = self.running {
            lemma_without(self.queue, task);
            assert forall|t: int| 0 <= t < post.tasks.len() implies ((#[trigger] post.tasks[t])
                is Running <==> post.running == Some(t)) by {
                if t != task {
                    assert(post.tasks[t] == self.tasks[t]);
                }
            }
            assert forall|k: int| 0 <= k < post.queue.len() implies post.live(
                #[trigger] post.queue[k],
            ) by {
                let t = post.queue[k];
                assert(self.queue.contains(t));
                let j = choose|j: int| 0 <= j < self.queue.len() && self.queue[j] == t;
                assert(self.live(self.queue[j]));
                if outcome == Poll::Ready {
                    assert(post.queue.contains(t));
                    assert(t != task);
                }
            }
        }
    }

    /// Every event keeps a state well formed.
    pub proof fn lemma_step_wf(self, event: Event<C>)
        requires
            self.wf(),
        ensures
            self.step(event).wf(),
    {
        match event {
            Event::Spawn(computation) => self.lemma_spawn_wf(computation),
            Event::Wake(task) => self.lemma_wake_wf(task),
            Event::Begin => self.lemma_begin_wf(),
            Event::Finish(computation, outcome) => self.lemma_finish_wf(computation, outcome),
        }
    }

    /// Every sequence of events keeps a state well formed.
    pub proof fn lemma_after_wf(self, events: Seq<Event<C>>)
        requires
            self.wf(),
        ensures
            self.after(events).wf(),
        decreases events.len(),
    {
        if events.len() > 0 {
            self.lemma_after_wf(events.drop_last());
            self.after(events.drop_last()).lemma_step_wf(events.last());
        }
    }
}

/// Appending one entry to a history adds one to the count of that entry and
/// leaves every other count as it was.
pub proof fn lemma_count_push(history: Seq<int>, entry: int, task: int)
    ensures
        history.push(entry).to_multiset().count(task) == history.to_multiset().count(task) + (if entry
            == task {
            1nat
        } else {
            0nat
        }),
{
    broadcast use vstd::seq_lib::group_to_multiset_ensures;

}

/// A queue free of duplicates holds a task once or not at all.
pub proof fn lemma_count_queue(queue: Seq<int>, task: int)
    requires
        queue.no_duplicates(),
    ensures
        queue.to_multiset().count(task) == (if queue.contains(task) {
            1nat
        } else {
            0nat
        }),
{
    broadcast use vstd::seq_lib::group_to_multiset_ensures;

    queue.lemma_multiset_has_no_duplicates();
}

impl<C> State<C> {
    /// A finished task is on no queue and is not being resumed.
    pub proof fn lemma_completed_is_at_rest(self, task: int)
        requires
            self.wf(),
            self.completed(task),
        ensures
            !self.queue.contains(task),
            self.running != Some(task),
    {
        if self.queue.contains(task) {
            let k = choose|k: int| 0 <= k < self.queue.len() && self.queue[k] == task;
            assert(self.live(self.queue[k]));
        }
    }

    /// No single event resumes or revives a finished task.
    pub proof fn lemma_step_keeps_completed(self, event: Event<C>, task: int)
        requires
            self.wf(),
            self.completed(task),
        ensures
            self.step(event).completed(task),
            self.step(event).resumptions(task) == self.resumptions(task),
    {
        self.lemma_completed_is_at_rest(task);
        match event {
            Event::Begin => {
                if !(self.running is Some || self.queue.len() == 0) {
                    assert(self.live(self.queue[0]));
                    lemma_count_push(self.resumed, self.queue[0], task);
                }
            },
            _ => {},
        }
    }

    /// Completion is terminal: whatever happens after a task has finished,
    /// the task stays finished, stays off the run queue, is never the task
    /// being resumed, and not one more resumption of it begins.
    pub proof fn lemma_completion_is_terminal(self, events: Seq<Event<C>>, task: int)
        requires
            self.wf(),
            self.completed(task),
        ensures
            self.after(events).completed(task),
            !self.after(events).queue.contains(task),
            self.after(events).running != Some(task),
            self.after(events).resumptions(task) == self.resumptions(task),
        decreases events.len(),
    {
        if events.len() > 0 {
            let before = self.after(events.drop_last());
            self.lemma_completion_is_terminal(events.drop_last(), task);
            self.lemma_after_wf(events.drop_last());
            before.lemma_step_keeps_completed(events.last(), task);
        }
        self.lemma_after_wf(events);
        self.after(events).lemma_completed_is_at_rest(task);
    }

    /// Triggering the wake handle of a finished task, or a handle that names
    /// no task, changes nothing.
    pub proof fn lemma_wake_without_effect(self, task: int)
        requires
            !self.live(task),
        ensures
            self.wake(task) == self,
    {
    }

    /// Triggering the wake handle of a live task leaves the task on the run
    /// queue exactly once, whether or not it was queued before.
    pub proof fn lemma_wake_queues_once(self, task: int)
        requires
            self.wf(),
            self.live(task),
        ensures
            self.wake(task).queue.contains(task),
            self.wake(task).queue.to_multiset().count(task) == 1,
    {
        self.lemma_wake_wf(task);
        if !self.queue.contains(task) {
            assert(self.wake(task).queue[self.queue.len() as int] == task);
        }
        lemma_count_queue(self.wake(task).queue, task);
    }

    /// Triggering a wake handle any number of times in a row, with nothing
    /// in between, has the effect of triggering it once.
    pub proof fn lemma_repeated_wake_is_one_wake(self, events: Seq<Event<C>>, task: int)
        requires
            events.len() >= 1,
            forall|k: int| 0 <= k < events.len() ==> events[k] == Event::<C>::Wake(task),
        ensures
            self.after(events) == self.wake(task),
        decreases events.len(),
    {
        if events.len() == 1 {
            assert(events.drop_last().len() == 0);
            assert(self.after(events.drop_last()) == self);
        } else {
            self.lemma_repeated_wake_is_one_wake(events.drop_last(), task);
            if self.live(task) && !self.queue.contains(task) {
                assert(self.wake(task).queue[self.queue.len() as int] == task);
            }
        }
    }

    /// Draining resumes every queued task exactly once and no other task.
    pub proof fn lemma_drain_resumes_queued_once(self, post: Self, task: int)
        requires
            self.wf(),
            self.running is None,
            self.drains_to(post),
        ensures
            post.resumptions(task) == self.resumptions(task) + (if self.queue.contains(task) {
                1nat
            } else {
                0nat
            }),
    {
        broadcast use vstd::seq_lib::group_to_multiset_ensures;

        vstd::seq_lib::lemma_multiset_commutative(self.resumed, self.queue);
        lemma_count_queue(self.queue, task);
    }

    /// However often the wake handle of a parked task is triggered before the
    /// queue is drained, draining resumes the task exactly once.
    pub proof fn lemma_repeated_wake_resumes_once(
        self,
        events: Seq<Event<C>>,
        post: Self,
        task: int,
    )
        requires
            self.wf(),
            self.running is None,
            self.live(task),
            events.len() >= 1,
            forall|k: int| 0 <= k < events.len() ==> events[k] == Event::<C>::Wake(task),
            self.after(events).drains_to(post),
        ensures
            post.resumptions(task) == self.resumptions(task) + 1,
    {
        self.lemma_repeated_wake_is_one_wake(events, task);
        self.lemma_wake_wf(task);
        self.lemma_wake_queues_once(task);
        self.wake(task).lemma_drain_resumes_queued_once(post, task);
    }

    /// Tasks are resumed in the order in which they were woken: two parked
    /// tasks woken one after the other are resumed after everything that was
    /// queued before them, the one woken first before the other.
    pub proof fn lemma_woken_first_resumed_first(self, first: int, second: int, post: Self)
        requires
            self.wf(),
            self.running is None,
            self.live(first),
            self.live(second),
            first != second,
            !self.queue.contains(first),
            !self.queue.contains(second),
            self.wake(first).wake(second).drains_to(post),
        ensures
            post.resumed == self.resumed + self.queue + seq![first, second],
    {
        lemma_push_contains(self.queue, first);
        assert(self.wake(first).wake(second).queue == self.queue.push(first).push(second));
        assert(self.queue.push(first).push(second) =~= self.queue + seq![first, second]);
        assert(post.resumed =~= self.resumed + self.queue + seq![first, second]);
    }

    /// Draining keeps a state well formed, and leaves finished tasks
    /// finished.
    pub proof fn lemma_drain_wf(self, post: Self)
        requires
            self.wf(),
            self.drains_to(post),
        ensures
            post.wf(),
            forall|task: int| self.completed(task) ==> post.completed(task),
    {
        if self.running is None {
            assert forall|t: int| 0 <= t < post.tasks.len() implies ((#[trigger] post.tasks[t])
                is Running <==> post.running == Some(t)) by {
                if !self.queue.contains(t) {
                    assert(post.tasks[t] == self.tasks[t]);
                }
            }
            assert forall|task: int| self.completed(task) implies post.completed(task) by {
                self.lemma_completed_is_at_rest(task);
            }
        }
    }

    /// Draining resumes no finished task.
    pub proof fn lemma_drain_spares_completed(self, post: Self, task: int)
        requires
            self.wf(),
            self.completed(task),
            self.drains_to(post),
        ensures
            post.completed(task),
            post.resumptions(task) == self.resumptions(task),
    {
        self.lemma_drain_wf(post);
        if self.running is None {
            self.lemma_completed_is_at_rest(task);
            self.lemma_drain_resumes_queued_once(post, task);
        }
    }

    /// Draining twice is draining once: on a queue that is already empty,
    /// draining resumes nothing and changes nothing.
    pub proof fn lemma_drain_is_idempotent(self, once: Self, twice: Self)
        requires
            self.drains_to(once),
            once.drains_to(twice),
        ensures
            twice == once,
    {
        if self.running is None {
            assert(twice.resumed =~= once.resumed);
            assert(twice.tasks =~= once.tasks);
        }
    }
}

} // verus!
