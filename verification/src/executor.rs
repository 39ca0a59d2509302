//! The executor: a task table, a run queue and the run loop.
//!
//! Duplicate wake-ups are absorbed by a mark kept for every task, which says
//! whether the task is on the run queue: a task that is already queued is not
//! queued a second time. A task that finishes leaves the queue at once, so a
//! slot that has been emptied for good is never popped.

use std::collections::VecDeque;
use vstd::prelude::*;
use crate::state::{
    lemma_drop_first_contains, lemma_push_contains, lemma_without, parked_or_finished,
    resumed_once, State,
};
use crate::task::{Computation, Poll, Task, WakeHandle};

verus! {

/// The queue of task positions as the model sees it.
pub open spec fn positions(queue: Seq<usize>) -> Seq<int> {
    queue.map_values(|task: usize| task as int)
}

/// A cooperative, single-threaded executor of computations of type `C`.
pub struct Executor<C> {
    /// The slot of every task that was ever spawned, in spawn order.
    tasks: Vec<Task<C>>,
    /// For every task, whether it is on the run queue.
    queued: Vec<bool>,
    /// The tasks that wait to be resumed, the next one at the front.
    ready_queue: VecDeque<usize>,
    /// The task whose resumption is in progress.
    running: Option<usize>,
    /// Every resumption begun so far.
    resumed: Ghost<Seq<int>>,
}

impl<C> View for Executor<C> {
    type V = State<C>;

    closed spec fn view(&self) -> State<C> {
        State {
            tasks: self.tasks@,
            queue: positions(self.ready_queue@),
            running: match self.running {
                Some(task) => Some(task as int),
                None => None,
            },
            resumed: self.resumed@,
        }
    }
}

impl<C> Executor<C> {
    /// The marks say exactly which tasks are on the run queue.
    pub closed spec fn marks_agree(&self) -> bool {
        &&& self.queued@.len() == self.tasks@.len()
        &&& forall|task: int|
            0 <= task < self.queued@.len() ==> (#[trigger] self.queued@[task])
                == self@.queue.contains(task)
    }

    /// The executor is in a reachable state and its bookkeeping is sound.
    pub open spec fn wf(&self) -> bool {
        self@.wf() && self.marks_agree()
    }

    /// An executor with no task.
    pub fn new() -> (executor: Self)
        ensures
            executor.wf(),
            executor@ == State::<C>::empty(),
    {
        let executor = Executor {
            tasks: Vec::new(),
            queued: Vec::new(),
            ready_queue: VecDeque::new(),
            running: None,
            resumed: Ghost(Seq::empty()),
        };
        assert(executor@.queue =~= Seq::<int>::empty());
        executor
    }

    /// Wraps `computation` in a new task and puts the task at the back of the
    /// run queue. The task is named by the number of tasks spawned before it.
    /// Spawning is possible at any time, also between [`Executor::begin`] and
    /// [`Executor::finish`], while a resumption is in progress.
    pub fn spawn(&mut self, computation: C)
        requires
            old(self).wf(),
        ensures
            final(self).wf(),
            final(self)@ == old(self)@.spawn(computation),
    {
        let task = self.tasks.len();
        self.tasks.push(Task::Holding(computation));
        self.queued.push(true);
        self.ready_queue.push_back(task);
        proof {
            let pre = old(self)@;
            pre.lemma_spawn_wf(computation);
            lemma_push_contains(pre.queue, task as int);
            assert(self@.queue =~= pre.queue.push(task as int));
        }
    }

    /// Triggers a wake handle: the task it names joins the back of the run
    /// queue, unless the task is already queued or has finished. A handle
    /// that names no task of this executor does nothing. A task that is woken
    /// while it is being resumed is queued like any other, and is resumed
    /// again only after that resumption has ended.
    pub fn wake(&mut self, handle: WakeHandle)
        requires
            old(self).wf(),
        ensures
            final(self).wf(),
            final(self)@ == old(self)@.wake(handle@),
    {
        let task = handle.task();
        if task < self.tasks.len() {
            let live = match &self.tasks[task] {
                Task::Completed => false,
                _ => true,
            };
            if live && !self.queued[task] {
                self.queued[task] = true;
                self.ready_queue.push_back(task);
                proof {
                    let pre = old(self)@;
                    pre.lemma_wake_wf(task as int);
                    lemma_push_contains(pre.queue, task as int);
                    assert(self@.queue =~= pre.queue.push(task as int));
                }
            }
        }
    }

    /// Takes the next task off the run queue and starts a resumption of it:
    /// the task's slot is marked as running and its computation is handed
    /// out together with a wake handle bound to the task. The caller resumes
    /// the computation and reports back through [`Executor::finish`].
    ///
    /// Returns `None`, and changes nothing, when the queue is empty or when a
    /// resumption is already in progress.
    pub fn begin(&mut self) -> (next: Option<(WakeHandle, C)>)
        requires
            old(self).wf(),
        ensures
            final(self).wf(),
            final(self)@ == old(self)@.begin(),
            next is Some <==> old(self)@.running is None && old(self)@.queue.len() > 0,
            next matches Some((handle, computation)) ==> handle@ == old(self)@.queue[0]
                && old(self)@.tasks[handle@] == Task::Holding(computation),
    {
        if self.running.is_some() {
            return None;
        }
        match self.ready_queue.pop_front() {
            None => {
                assert(self@.queue =~= old(self)@.queue);
                None
            },
            Some(task) => {
                proof {
                    assert(old(self)@.queue[0] == task);
                    assert(old(self)@.live(old(self)@.queue[0]));
                }
                let mut slot = Task::Running;
                core::mem::swap(&mut self.tasks[task], &mut slot);
                self.queued[task] = false;
                self.running = Some(task);
                proof {
                    self.resumed@ = self.resumed@.push(task as int);
                    let pre = old(self)@;
                    pre.lemma_begin_wf();
                    lemma_drop_first_contains(pre.queue);
                    assert(self@.queue =~= pre.queue.drop_first());
                }
                match slot {
                    Task::Holding(computation) => Some((WakeHandle::new(task), computation)),
                    Task::Running | Task::Completed => {
                        // Only parked tasks are queued while nothing runs.
                        proof {
                            assert(false);
                        }
                        None
                    },
                }
            },
        }
    }

    /// Ends the resumption in progress with what the computation reported.
    ///
    /// On [`Poll::Pending`] the computation is parked in its slot again; the
    /// task is resumed next when a wake handle has put it on the queue, which
    /// may have happened while it ran. On [`Poll::Ready`] the slot is emptied
    /// for good and the task leaves the queue if it was woken meanwhile; the
    /// computation is dropped. When no resumption is in progress nothing
    /// changes.
    pub fn finish(&mut self, computation: C, outcome: Poll)
        requires
            old(self).wf(),
        ensures
            final(self).wf(),
            final(self)@ == old(self)@.finish(computation, outcome),
    {
        match self.running {
            None => {},
            Some(task) => {
                self.running = None;
                match outcome {
                    Poll::Pending => {
                        self.tasks[task] = Task::Holding(computation);
                        proof {
                            old(self)@.lemma_finish_wf(computation, outcome);
                        }
                    },
                    Poll::Ready => {
                        self.tasks[task] = Task::Completed;
                        if self.queued[task] {
                            let at = self.position(task);
                            self.ready_queue.remove(at);
                            self.queued[task] = false;
                        }
                        proof {
                            let pre = old(self)@;
                            pre.lemma_finish_wf(computation, outcome);
                            lemma_without(pre.queue, task as int);
                            if old(self).queued@[task as int] {
                                assert(self@.queue =~= pre.queue.remove(
                                    pre.queue.index_of(task as int),
                                ));
                            }
                        }
                    },
                }
            },
        }
    }

    /// The number of tasks spawned so far, finished ones included.
    pub fn len(&self) -> (len: usize)
        ensures
            len == self@.tasks.len(),
    {
        self.tasks.len()
    }

    /// The number of tasks on the run queue.
    pub fn queued(&self) -> (queued: usize)
        ensures
            queued == self@.queue.len(),
    {
        self.ready_queue.len()
    }

    /// Whether a resumption is in progress.
    pub fn is_running(&self) -> (running: bool)
        ensures
            running == self@.running is Some,
    {
        self.running.is_some()
    }

    /// A wake handle bound to the task at position `task`, if there is such a
    /// task. Taking a handle changes nothing and may be done at any time, also
    /// while the task is being resumed.
    pub fn waker(&self, task: usize) -> (handle: Option<WakeHandle>)
        ensures
            handle is Some <==> task < self@.tasks.len(),
            handle matches Some(h) ==> h@ == task,
    {
        if task < self.tasks.len() {
            Some(WakeHandle::new(task))
        } else {
            None
        }
    }

    /// Whether the task that `handle` names has finished.
    pub fn is_completed(&self, handle: WakeHandle) -> (completed: bool)
        ensures
            completed == self@.completed(handle@),
    {
        let task = handle.task();
        if task < self.tasks.len() {
            match &self.tasks[task] {
                Task::Completed => true,
                _ => false,
            }
        } else {
            false
        }
    }

    /// Whether the task that `handle` names is on the run queue.
    pub fn is_queued(&self, handle: WakeHandle) -> (queued: bool)
        requires
            self.wf(),
        ensures
            queued == self@.queue.contains(handle@),
    {
        let task = handle.task();
        if task < self.tasks.len() {
            self.queued[task]
        } else {
            proof {
                if self@.queue.contains(task as int) {
                    let k = choose|k: int| 0 <= k < self@.queue.len() && self@.queue[k] == task;
                    assert(self@.live(self@.queue[k]));
                }
            }
            false
        }
    }

    /// Where `task` stands on the run queue.
    fn position(&self, task: usize) -> (at: usize)
        requires
            self@.queue.no_duplicates(),
            self@.queue.contains(task as int),
        ensures
            at < self@.queue.len(),
            at == self@.queue.index_of(task as int),
    {
        let mut at: usize = 0;
        while self.ready_queue[at] != task
            invariant
                at < self.ready_queue.len(),
                self@.queue.contains(task as int),
                forall|k: int| 0 <= k < at ==> self.ready_queue@[k] != task,
            decreases self.ready_queue.len() - at,
        {
            proof {
                let k = choose|k: int| 0 <= k < self@.queue.len() && self@.queue[k] == task as int;
                assert(self.ready_queue@[k] == task);
                assert(k > at);
            }
            at = at + 1;
        }
        proof {
            let k = self@.queue.index_of(task as int);
            assert(self@.queue[at as int] == task as int);
        }
        at
    }
}

impl<C: Computation> Executor<C> {
    /// Drains the run queue: resumes the task at the front, again and again,
    /// until the queue is empty, and then returns.
    ///
    /// Each task that was queued is resumed exactly once, in queue order, with
    /// a wake handle bound to itself. A task whose computation reports
    /// [`Poll::Ready`] is finished; one whose computation reports
    /// [`Poll::Pending`] is parked off the queue until its wake handle is
    /// triggered. Tasks that nothing wakes stay parked: running never waits.
    /// On an empty queue the call changes nothing.
    pub fn run(&mut self)
        requires
            old(self).wf(),
        ensures
            final(self).wf(),
            old(self)@.drains_to(final(self)@),
            old(self)@.resumes_into(final(self)@),
    {
        if self.running.is_some() {
            return ;
        }
        let ghost start = self@;
        let ghost mut done: int = 0;
        loop
            invariant_except_break
                self.wf(),
                start.wf(),
                start.running is None,
                0 <= done <= start.queue.len(),
                self@.running is None,
                self@.queue == start.queue.skip(done),
                self@.resumed == start.resumed + start.queue.take(done),
                self@.tasks.len() == start.tasks.len(),
                forall|t: int|
                    0 <= t < start.tasks.len() ==> if start.queue.take(done).contains(t) {
                        resumed_once(start.tasks[t], t, #[trigger] self@.tasks[t])
                    } else {
                        self@.tasks[t] == start.tasks[t]
                    },
            ensures
                self.wf(),
                start.drains_to(self@),
                start.resumes_into(self@),
            decreases start.queue.len() - done,
        {
            let ghost pre = self@;
            match self.begin() {
                None => {
                    proof {
                        assert(start.queue.take(done) =~= start.queue);
                        assert(self@.queue =~= Seq::<int>::empty());
                    }
                    break ;
                },
                Some((handle, mut computation)) => {
                    let ghost mid = self@;
                    let ghost held = computation;
                    let outcome = computation.resume(handle);
                    self.finish(computation, outcome);
                    proof {
                        let task = start.queue[done];
                        let before = start.queue.take(done);
                        let upto = start.queue.take(done + 1);
                        assert(upto =~= before.push(task));
                        lemma_push_contains(before, task);
                        lemma_drop_first_contains(pre.queue);
                        assert(mid.queue =~= start.queue.skip(done + 1));
                        assert(!before.contains(task)) by {
                            if before.contains(task) {
                                let k = choose|k: int| 0 <= k < before.len() && before[k] == task;
                                assert(start.queue[k] == start.queue[done]);
                            }
                        }
                        assert(self@.resumed =~= start.resumed + upto);
                        assert(held.resumes_to(handle, &computation, outcome));
                        assert(self@.tasks[task] == parked_or_finished(computation, outcome));
                        assert forall|t: int| 0 <= t < start.tasks.len() implies if upto.contains(
                            t,
                        ) {
                            resumed_once(start.tasks[t], t, #[trigger] self@.tasks[t])
                        } else {
                            self@.tasks[t] == start.tasks[t]
                        } by {
                            if t != task {
                                assert(self@.tasks[t] == pre.tasks[t]);
                            }
                        }
                        done = done + 1;
                    }
                },
            }
        }
    }
}

} // verus!
