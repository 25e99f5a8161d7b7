//! The desktop: icons that make room for fences, and where dropped files land.

pub mod avoidance;
pub mod drop_position;
pub mod host;
pub mod probe;
