//! The vocabulary shared by the executor and by suspension sources.

use vstd::prelude::*;

verus! {

/// What one resumption of a computation reports.
#[derive(Clone, Copy, PartialEq, Eq, Debug, Structural)]
pub enum Poll {
    /// The computation has finished; it must not be resumed again.
    Ready,
    /// The computation waits for an event and has kept a wake handle for it.
    Pending,
}

/// A capability to put one task back on the run queue.
///
/// A handle names a task by its position in the executor's task table. It is
/// plain data: it can be copied, stored and sent anywhere, and it stays valid
/// for as long as the executor lives.
#[derive(Clone, Copy, PartialEq, Eq, Debug, Structural)]
pub struct WakeHandle {
    task: usize,
}

impl View for WakeHandle {
    type V = int;

    /// The position of the task that the handle names.
    closed spec fn view(&self) -> int {
        self.task as int
    }
}

impl WakeHandle {
    pub(crate) fn new(task: usize) -> (handle: WakeHandle)
        ensures
            handle@ == task,
    {
        WakeHandle { task }
    }

    /// The position, in spawn order, of the task that the handle names.
    pub fn task(&self) -> (task: usize)
        ensures
            task == self@,
    {
        self.task
    }
}

/// Two handles that name the same task are the same handle.
pub proof fn lemma_handle_by_task(a: WakeHandle, b: WakeHandle)
    ensures
        a@ == b@ <==> a == b,
{
}

/// A suspendable computation: code that runs in discrete resumption steps.
///
/// Each resumption either finishes the computation or reports that it waits
/// for an event. In the second case the computation has handed `waker`, or a
/// copy of it, to whoever will signal the event.
pub trait Computation {
    /// What one resumption may do: whether a resumption with `waker` can
    /// turn this computation into `after` and report `outcome`. Each kind of
    /// computation says this for itself; one that says nothing allows
    /// everything.
    open spec fn resumes_to(&self, waker: WakeHandle, after: &Self, outcome: Poll) -> bool {
        true
    }

    /// Runs the computation up to its next suspension point.
    fn resume(&mut self, waker: WakeHandle) -> (outcome: Poll)
        ensures
            old(self).resumes_to(waker, final(self), outcome),
    ;
}

/// The slot of one task: its computation while it is parked, and nothing
/// while it is being resumed or after it has finished.
pub enum Task<C> {
    /// The computation is present and not being resumed.
    Holding(C),
    /// A resumption of the computation is in progress.
    Running,
    /// The computation has finished; the slot stays empty for good.
    Completed,
}

} // verus!
