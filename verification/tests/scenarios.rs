use std::cell::RefCell;
use std::rc::Rc;
use std::time::Duration;

use mini_executor::executor::Executor;
use mini_executor::task::{Computation, Poll, WakeHandle};
use mini_executor::timer::TimerFuture;

type Timer = Rc<RefCell<TimerFuture>>;
type Journal = Rc<RefCell<Vec<String>>>;

/// The timers started so far, for the test to fire in place of a clock.
type Timers = Rc<RefCell<Vec<Timer>>>;

/// Greets, waits on a timer of `seconds` seconds, then announces.
struct Greeter {
    seconds: u64,
    timer: Option<Timer>,
    timers: Timers,
    journal: Journal,
}

impl Greeter {
    fn new(seconds: u64, timers: &Timers, journal: &Journal) -> Greeter {
        Greeter { seconds, timer: None, timers: timers.clone(), journal: journal.clone() }
    }
}

impl Computation for Greeter {
    fn resume(&mut self, waker: WakeHandle) -> Poll {
        if self.timer.is_none() {
            self.journal.borrow_mut().push(format!("Hello {}!", self.seconds));
            self.journal.borrow_mut().push(format!("waiting {}", self.seconds));
            let timer = Rc::new(RefCell::new(TimerFuture::new(Duration::from_secs(self.seconds))));
            self.timers.borrow_mut().push(timer.clone());
            self.timer = Some(timer);
        }
        let outcome = self.timer.as_ref().unwrap().borrow_mut().poll(waker);
        if outcome == Poll::Ready {
            self.journal.borrow_mut().push(format!("World {}!", self.seconds));
        }
        outcome
    }
}

/// Fires the started timers in the order of their durations, as a clock
/// would, and lets the executor run after each firing.
fn let_time_pass(executor: &mut Executor<Greeter>, timers: &Timers) {
    let mut pending: Vec<Timer> = timers.borrow().clone();
    pending.sort_by_key(|timer| timer.borrow().duration());
    for timer in pending {
        let woken = timer.borrow_mut().fire();
        if let Some(waker) = woken {
            executor.wake(waker);
        }
        executor.run();
    }
}

fn lines(journal: &Journal) -> Vec<String> {
    journal.borrow().clone()
}

/// Finishes at its first resumption.
struct Once {
    journal: Journal,
}

impl Computation for Once {
    fn resume(&mut self, _waker: WakeHandle) -> Poll {
        self.journal.borrow_mut().push(String::from("done"));
        Poll::Ready
    }
}

#[test]
fn computation_without_suspension_runs_to_completion() {
    let journal: Journal = Rc::new(RefCell::new(Vec::new()));
    let mut executor = Executor::new();
    executor.spawn(Once { journal: journal.clone() });
    executor.run();
    assert_eq!(lines(&journal), vec!["done"]);
    assert!(executor.is_completed(executor.waker(0).unwrap()));
    assert_eq!(executor.queued(), 0);
}

#[test]
fn computation_waits_for_its_timer() {
    let timers: Timers = Rc::new(RefCell::new(Vec::new()));
    let journal: Journal = Rc::new(RefCell::new(Vec::new()));
    let mut executor = Executor::new();
    executor.spawn(Greeter::new(1, &timers, &journal));

    executor.run();
    assert_eq!(lines(&journal), vec!["Hello 1!", "waiting 1"]);
    assert!(!executor.is_completed(executor.waker(0).unwrap()));
    executor.run();
    assert_eq!(lines(&journal), vec!["Hello 1!", "waiting 1"]);

    let_time_pass(&mut executor, &timers);
    assert_eq!(lines(&journal), vec!["Hello 1!", "waiting 1", "World 1!"]);
    assert!(executor.is_completed(executor.waker(0).unwrap()));

    executor.run();
    assert_eq!(lines(&journal), vec!["Hello 1!", "waiting 1", "World 1!"]);
}

#[test]
fn computations_complete_in_order_of_their_durations() {
    let timers: Timers = Rc::new(RefCell::new(Vec::new()));
    let journal: Journal = Rc::new(RefCell::new(Vec::new()));
    let mut executor = Executor::new();
    for seconds in [10, 5, 2, 1] {
        executor.spawn(Greeter::new(seconds, &timers, &journal));
    }

    executor.run();
    assert_eq!(
        lines(&journal),
        vec![
            "Hello 10!",
            "waiting 10",
            "Hello 5!",
            "waiting 5",
            "Hello 2!",
            "waiting 2",
            "Hello 1!",
            "waiting 1",
        ]
    );
    assert_eq!(executor.queued(), 0);

    let_time_pass(&mut executor, &timers);
    assert_eq!(lines(&journal)[8..], ["World 1!", "World 2!", "World 5!", "World 10!"]);
    for task in 0..4 {
        assert!(executor.is_completed(executor.waker(task).unwrap()));
    }
}

#[test]
fn timers_that_fire_together_wake_in_firing_order() {
    let timers: Timers = Rc::new(RefCell::new(Vec::new()));
    let journal: Journal = Rc::new(RefCell::new(Vec::new()));
    let mut executor = Executor::new();
    for seconds in [3, 4] {
        executor.spawn(Greeter::new(seconds, &timers, &journal));
    }
    executor.run();
    let started: Vec<Timer> = timers.borrow().clone();
    let late = started[1].borrow_mut().fire().unwrap();
    let early = started[0].borrow_mut().fire().unwrap();
    executor.wake(late);
    executor.wake(early);
    executor.wake(late);
    executor.run();
    assert_eq!(lines(&journal)[4..], ["World 4!", "World 3!"]);
}

#[test]
fn task_that_nothing_wakes_is_left_parked() {
    let timers: Timers = Rc::new(RefCell::new(Vec::new()));
    let journal: Journal = Rc::new(RefCell::new(Vec::new()));
    let mut executor = Executor::new();
    executor.spawn(Greeter::new(2, &timers, &journal));
    executor.run();
    executor.run();
    assert_eq!(lines(&journal), vec!["Hello 2!", "waiting 2"]);
    assert!(!executor.is_completed(executor.waker(0).unwrap()));
    assert_eq!(executor.queued(), 0);
    assert!(!timers.borrow()[0].borrow().is_completed());
}

#[test]
fn timer_fired_during_the_resumption_wakes_the_task() {
    let timers: Timers = Rc::new(RefCell::new(Vec::new()));
    let journal: Journal = Rc::new(RefCell::new(Vec::new()));
    let mut executor = Executor::new();
    executor.spawn(Greeter::new(1, &timers, &journal));

    let (waker, mut greeter) = executor.begin().unwrap();
    let outcome = greeter.resume(waker);
    assert_eq!(outcome, Poll::Pending);
    let woken = timers.borrow()[0].borrow_mut().fire();
    assert_eq!(woken, Some(waker));
    executor.wake(woken.unwrap());
    executor.finish(greeter, outcome);

    assert!(executor.is_queued(waker));
    executor.run();
    assert_eq!(lines(&journal), vec!["Hello 1!", "waiting 1", "World 1!"]);
    assert!(executor.is_completed(waker));
}
