//! The id-keyed task list shared by every front end, and its persistence
//! format.

pub mod codec;
pub mod num;
pub mod todo;
