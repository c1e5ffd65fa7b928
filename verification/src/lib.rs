//! A personal task-list manager: an ordered collection of tasks with unique,
//! monotonically increasing identifiers, together with a textual persistence
//! format, a command-line command handler, and the request handling behind a
//! small HTTP surface.

pub mod api;
pub mod cli;
pub mod todo;
pub mod prompter;
pub mod shared;
