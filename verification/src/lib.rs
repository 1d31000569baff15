//! A cooperative task scheduler: computations that can be suspended and
//! resumed, the ready-queue that orders them, the wake handles that put a
//! suspended task back into the queue, and the run loop that drives
//! everything to completion.
//!
//! The scheduler is sequential: one owner holds the queue, and whoever wants
//! to wake a task from elsewhere hands its wake handle to that owner. Time is
//! a number of milliseconds that the owner tells the scheduler.

pub mod executor;
pub mod futures;
pub mod model;
pub mod task;
pub mod waker;
