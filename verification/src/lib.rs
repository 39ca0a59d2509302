//! A minimal cooperative scheduler for suspendable computations.
//!
//! The crate is the sequential core of a run-to-completion executor: a table
//! of tasks, a first-in first-out run queue, wake handles that put a task
//! back on the queue, and a one-shot timer that hands a wake handle back when
//! it fires. Every operation is one atomic step of a small transition system;
//! threads, clocks and locks that drive those steps live with the caller.

pub mod executor;
pub mod state;
pub mod task;
pub mod timer;
