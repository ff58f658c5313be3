//! Configuration handed to a run, already deserialized by the caller.

pub mod project;
pub mod run;
