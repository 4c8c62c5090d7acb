//! Per-event handlers of the transformation pass, and the state they share.

pub mod end;
pub mod event;
pub mod html;
pub mod start;
pub mod text;
pub mod workarea;
