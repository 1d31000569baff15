//! Computations that come with the scheduler.

pub mod sleep;
pub mod test;
