//! Threads and the round-robin scheduler.
pub mod scheduler;
pub mod thread;
