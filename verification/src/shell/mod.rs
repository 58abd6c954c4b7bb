//! The interactive shell: command parsing, the command table, the history
//! and the line editor.
pub mod parser;
pub mod registry;
pub mod history;
pub mod input;
pub mod commands;
