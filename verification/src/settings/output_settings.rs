//! Options of the output side of a run.

pub mod image;
