//! Options of the code block highlighter.

pub mod highlight;
