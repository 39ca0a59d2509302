//! A one-shot timer, the example of a suspension source.
//!
//! A timer is a small state shared by two parties: the computation that waits
//! on it and polls it at every resumption, and the waiter that fires it once
//! the configured duration has passed. Each of the two operations is one
//! atomic step on the shared state; a caller that shares a timer between
//! threads takes a lock around each step.

use std::time::Duration;
use vstd::prelude::*;
use crate::state::State;
use crate::task::{Computation, Poll, WakeHandle};

verus! {

/// What the polling side and the firing side of a timer share.
pub struct SharedState {
    /// Whether the duration has elapsed. Once set it stays set.
    pub completed: bool,
    /// The wake handle of the task that polled last, until the timer fires.
    pub waker: Option<WakeHandle>,
}

impl SharedState {
    /// The state of a timer that has just been started.
    pub open spec fn started() -> Self {
        SharedState { completed: false, waker: None }
    }

    /// What a poll reports in this state.
    pub open spec fn report(self) -> Poll {
        if self.completed {
            Poll::Ready
        } else {
            Poll::Pending
        }
    }

    /// The state after a poll with `waker`: while the timer has not fired,
    /// `waker` replaces whatever handle was registered before.
    pub open spec fn poll(self, waker: WakeHandle) -> Self {
        if self.completed {
            self
        } else {
            SharedState { completed: false, waker: Some(waker) }
        }
    }

    /// The state after the timer has fired. The registered handle is given
    /// to whoever fired the timer and is registered no longer.
    pub open spec fn fire(self) -> Self {
        SharedState { completed: true, waker: None }
    }
}

/// One atomic step on the shared state of a timer.
pub enum Signal {
    /// The waiting computation polls the timer with this wake handle.
    Poll(WakeHandle),
    /// The waiter fires the timer.
    Fire,
}

impl SharedState {
    /// The state after one step.
    pub open spec fn step(self, signal: Signal) -> Self {
        match signal {
            Signal::Poll(waker) => self.poll(waker),
            Signal::Fire => self.fire(),
        }
    }

    /// The state after a sequence of steps, the first step first.
    pub open spec fn after(self, signals: Seq<Signal>) -> Self
        decreases signals.len(),
    {
        if signals.len() == 0 {
            self
        } else {
            self.after(signals.drop_last()).step(signals.last())
        }
    }

    /// Until the timer is fired, every poll reports that it is not ready,
    /// and the handle of the latest poll is the one that is registered.
    pub proof fn lemma_pending_until_fired(self, signals: Seq<Signal>)
        requires
            !self.completed,
            forall|k: int| 0 <= k < signals.len() ==> signals[k] is Poll,
        ensures
            self.after(signals).report() == Poll::Pending,
            signals.len() > 0 ==> self.after(signals).waker == Some(signals.last()->Poll_0),
        decreases signals.len(),
    {
        if signals.len() > 0 {
            self.lemma_pending_until_fired(signals.drop_last());
        }
    }

    /// Once the timer has fired it stays fired: whatever polls and firings
    /// follow, every poll reports that the timer is ready, with or without a
    /// handle registered before, and no firing hands out a wake handle again.
    pub proof fn lemma_ready_once_fired(self, signals: Seq<Signal>)
        ensures
            self.fire().after(signals) == self.fire(),
            self.fire().report() == Poll::Ready,
            self.fire().waker is None,
        decreases signals.len(),
    {
        if signals.len() > 0 {
            self.lemma_ready_once_fired(signals.drop_last());
        }
    }

    /// The elapsed mark is never reset.
    pub proof fn lemma_elapsed_is_permanent(self, signals: Seq<Signal>)
        requires
            self.completed,
        ensures
            self.after(signals).completed,
        decreases signals.len(),
    {
        if signals.len() > 0 {
            self.lemma_elapsed_is_permanent(signals.drop_last());
        }
    }

    /// A poll and a firing that race are two steps in one order or the
    /// other, and in neither order is the wake-up lost. If the firing comes
    /// first, the poll reports that the timer is ready. If the poll comes
    /// first, the firing hands out the handle that this poll registered.
    pub proof fn lemma_race_loses_no_wakeup(self, waker: WakeHandle)
        requires
            !self.completed,
        ensures
            self.fire().report() == Poll::Ready,
            self.poll(waker).report() == Poll::Pending,
            self.poll(waker).waker == Some(waker),
            self.poll(waker).fire() == self.fire(),
    {
    }
}

/// A wake-up handed out by a timer reaches the task: triggering the handle
/// puts a live task on the run queue, and a task that is woken while its
/// own resumption is still in progress is on the queue when that resumption
/// ends without finishing.
pub proof fn lemma_wakeup_reaches_task<C>(executor: State<C>, waker: WakeHandle, computation: C)
    requires
        executor.wf(),
        executor.live(waker@),
    ensures
        executor.wake(waker@).queue.contains(waker@),
        executor.wake(waker@).finish(computation, Poll::Pending).queue.contains(waker@),
        executor.wake(waker@).finish(computation, Poll::Pending).live(waker@),
{
    executor.lemma_wake_queues_once(waker@);
}

/// A timer that completes once, after a fixed duration.
pub struct TimerFuture {
    duration: Duration,
    shared_state: SharedState,
}

impl View for TimerFuture {
    type V = SharedState;

    closed spec fn view(&self) -> SharedState {
        self.shared_state
    }
}

impl TimerFuture {
    /// The duration the timer was created with.
    pub closed spec fn configured(&self) -> Duration {
        self.duration
    }

    /// Creates a timer that is to fire after `duration`. The timer has not
    /// elapsed and no wake handle is registered with it.
    ///
    /// Time does not pass inside a timer: whoever starts it waits for
    /// [`TimerFuture::duration`] and then calls [`TimerFuture::fire`].
    pub fn new(duration: Duration) -> (timer: Self)
        ensures
            timer@ == SharedState::started(),
            timer.configured() == duration,
    {
        TimerFuture { duration, shared_state: SharedState { completed: false, waker: None } }
    }

    /// The duration after which the timer is to fire.
    pub fn duration(&self) -> (duration: Duration)
        ensures
            duration == self.configured(),
    {
        self.duration
    }

    /// Whether the timer has fired.
    pub fn is_completed(&self) -> (completed: bool)
        ensures
            completed == self@.completed,
    {
        self.shared_state.completed
    }

    /// Polls the timer on behalf of the task that `waker` is bound to.
    ///
    /// Reports [`Poll::Ready`] once the timer has fired. Until then it
    /// registers `waker`, in place of any handle registered by an earlier
    /// poll, and reports [`Poll::Pending`].
    pub fn poll(&mut self, waker: WakeHandle) -> (outcome: Poll)
        ensures
            outcome == old(self)@.report(),
            final(self)@ == old(self)@.poll(waker),
            final(self).configured() == old(self).configured(),
    {
        if self.shared_state.completed {
            Poll::Ready
        } else {
            self.shared_state.waker = Some(waker);
            Poll::Pending
        }
    }

    /// Fires the timer: marks it as elapsed and hands out the registered wake
    /// handle, which the caller triggers. A second firing hands out nothing.
    pub fn fire(&mut self) -> (woken: Option<WakeHandle>)
        ensures
            woken == old(self)@.waker,
            final(self)@ == old(self)@.fire(),
            final(self).configured() == old(self).configured(),
    {
        self.shared_state.completed = true;
        self.shared_state.waker.take()
    }
}

/// A timer is itself a suspendable computation: one that does nothing but
/// wait until it is fired.
impl Computation for TimerFuture {
    open spec fn resumes_to(&self, waker: WakeHandle, after: &Self, outcome: Poll) -> bool {
        &&& outcome == self@.report()
        &&& after@ == self@.poll(waker)
        &&& after.configured() == self.configured()
    }

    fn resume(&mut self, waker: WakeHandle) -> (outcome: Poll) {
        self.poll(waker)
    }
}

} // verus!
