//! Device-side state: key events, the terminal and the interval timer.
pub mod key;
pub mod terminal;
pub mod pit;
