//! Files on their way: dragged out of a fence, dropped into one, moved and copied.

pub mod drag_source;
pub mod drop_target;
pub mod file_ops;
pub mod formats;
