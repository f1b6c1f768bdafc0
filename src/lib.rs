//! Turns exercise records into the files of a local exercise workspace.
//!
//! Everything here computes: the text of each generated file, the name of a
//! starter-file backup, and the plan of what to write for one exercise.
//! Performing the plan against a real file system is left to the caller.

pub mod record;
pub mod text;
pub mod scaffold;
pub mod laws;
pub mod request;
