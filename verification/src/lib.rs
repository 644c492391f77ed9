//! One-shot build rules: declared outputs, declared inputs and a command.
//!
//! A rule is stale when an output is missing, when an input is newer than the
//! newest output (at whole seconds), or when it declares no inputs at all.
//! The library decides; the caller reads the file system and runs the shell.

pub mod error;
pub mod file;
pub mod grammar;
pub mod laws;
pub mod shell;
pub mod target;
pub mod text;
pub mod walk;
