//! The logic of a desktop-fences tool, verified.

pub mod command;
pub mod config;
pub mod desktop;
pub mod desktop_icons;
pub mod download;
pub mod dragout;
pub mod fence;
pub mod fencelife;
pub mod geometry;
pub mod global;
pub mod hotkey;
pub mod icons;
pub mod perf;
pub mod shortcut;
pub mod sweep;
pub mod text;
pub mod tracking;
pub mod transfer;
pub mod tray;
pub mod utf16;
pub mod utils;
pub mod watcher;
pub mod winpath;
