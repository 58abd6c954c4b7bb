//! Small helpers shared by the shell and the demos.
pub mod input;
pub mod bitmap;
