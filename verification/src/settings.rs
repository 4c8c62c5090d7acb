//! Process-wide configuration: input and output directories, code
//! highlighting options, and image handling options.

pub mod code;
pub mod code_settings;
pub mod input;
pub mod output;
pub mod output_settings;
pub mod settings;
