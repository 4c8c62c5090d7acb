//! A markdown event-stream transformer for static site generation.
//!
//! The library rewrites a sequence of parsed markdown structural events in a
//! single forward pass while tracking lightweight cross-event state.  It
//! performs three state-sharing tasks: extracting sidecar document metadata
//! from a restricted dialect of HTML comments, replacing code-block bodies
//! with syntax-highlighted markup, and substituting emoji shortcodes inside
//! plain text runs.  Reading files, compiling stylesheets and assembling the
//! final documents are left to the surrounding application, which feeds the
//! event stream in and consumes the transformed stream plus the metadata map.

pub mod bytes;
pub mod html_gen;
pub mod md_event;
pub mod settings;
