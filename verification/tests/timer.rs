use std::time::Duration;

use mini_executor::executor::Executor;
use mini_executor::task::{Computation, Poll, WakeHandle};
use mini_executor::timer::TimerFuture;

/// Two handles, bound to the first two tasks of a throwaway executor.
fn two_handles() -> (WakeHandle, WakeHandle) {
    let mut executor = Executor::new();
    executor.spawn(TimerFuture::new(Duration::from_secs(1)));
    executor.spawn(TimerFuture::new(Duration::from_secs(2)));
    (executor.waker(0).unwrap(), executor.waker(1).unwrap())
}

#[test]
fn new_timer_has_not_elapsed() {
    let timer = TimerFuture::new(Duration::from_millis(250));
    assert!(!timer.is_completed());
    assert_eq!(timer.duration(), Duration::from_millis(250));
}

#[test]
fn timer_of_no_duration_waits_to_be_fired() {
    let (first, _) = two_handles();
    let mut timer = TimerFuture::new(Duration::ZERO);
    assert_eq!(timer.duration(), Duration::ZERO);
    assert_eq!(timer.poll(first), Poll::Pending);
    assert_eq!(timer.fire(), Some(first));
    assert_eq!(timer.poll(first), Poll::Ready);
}

#[test]
fn poll_is_pending_until_the_timer_fires() {
    let (first, second) = two_handles();
    let mut timer = TimerFuture::new(Duration::from_secs(3));
    for _ in 0..5 {
        assert_eq!(timer.poll(first), Poll::Pending);
        assert_eq!(timer.poll(second), Poll::Pending);
        assert!(!timer.is_completed());
    }
    assert_eq!(timer.duration(), Duration::from_secs(3));
}

#[test]
fn poll_is_ready_after_the_timer_fired() {
    let (first, second) = two_handles();
    let mut timer = TimerFuture::new(Duration::from_secs(3));
    assert_eq!(timer.poll(first), Poll::Pending);
    assert_eq!(timer.fire(), Some(first));
    assert!(timer.is_completed());
    for _ in 0..5 {
        assert_eq!(timer.poll(first), Poll::Ready);
        assert_eq!(timer.poll(second), Poll::Ready);
        assert!(timer.is_completed());
    }
}

#[test]
fn poll_is_ready_after_firing_without_a_waker() {
    let (first, _) = two_handles();
    let mut timer = TimerFuture::new(Duration::from_secs(3));
    assert_eq!(timer.fire(), None);
    assert!(timer.is_completed());
    assert_eq!(timer.poll(first), Poll::Ready);
    assert_eq!(timer.fire(), None);
}

#[test]
fn latest_poll_replaces_the_registered_handle() {
    let (first, second) = two_handles();
    let mut timer = TimerFuture::new(Duration::from_secs(3));
    assert_eq!(timer.poll(first), Poll::Pending);
    assert_eq!(timer.poll(second), Poll::Pending);
    assert_eq!(timer.fire(), Some(second));
}

#[test]
fn registered_handle_is_handed_out_once() {
    let (first, second) = two_handles();
    let mut timer = TimerFuture::new(Duration::from_secs(3));
    assert_eq!(timer.poll(first), Poll::Pending);
    assert_eq!(timer.fire(), Some(first));
    assert_eq!(timer.fire(), None);
    assert_eq!(timer.poll(second), Poll::Ready);
    assert_eq!(timer.fire(), None);
    assert!(timer.is_completed());
}

#[test]
fn poll_before_fire_gets_the_wakeup() {
    let (first, _) = two_handles();
    let mut timer = TimerFuture::new(Duration::from_secs(1));
    let outcome = timer.poll(first);
    let woken = timer.fire();
    assert_eq!(outcome, Poll::Pending);
    assert_eq!(woken, Some(first));
}

#[test]
fn poll_after_fire_sees_the_timer_elapsed() {
    let (first, _) = two_handles();
    let mut timer = TimerFuture::new(Duration::from_secs(1));
    let woken = timer.fire();
    let outcome = timer.poll(first);
    assert_eq!(woken, None);
    assert_eq!(outcome, Poll::Ready);
}

#[test]
fn timer_is_a_computation_that_waits() {
    let (first, second) = two_handles();
    let mut timer = TimerFuture::new(Duration::from_secs(1));
    assert_eq!(timer.resume(first), Poll::Pending);
    assert_eq!(timer.resume(second), Poll::Pending);
    assert_eq!(timer.fire(), Some(second));
    assert_eq!(timer.resume(first), Poll::Ready);
}

#[test]
fn executor_parks_timers_that_have_not_fired() {
    let mut executor = Executor::new();
    executor.spawn(TimerFuture::new(Duration::from_secs(1)));
    let mut fired = TimerFuture::new(Duration::from_secs(2));
    assert_eq!(fired.fire(), None);
    executor.spawn(fired);
    executor.run();
    assert!(!executor.is_completed(executor.waker(0).unwrap()));
    assert!(executor.is_completed(executor.waker(1).unwrap()));
    assert_eq!(executor.queued(), 0);
}
