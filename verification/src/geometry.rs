//! Points and rectangles of the screen.

use vstd::prelude::*;

verus! {

/// A point of the screen or of a window.
#[derive(Clone, Copy, Debug, PartialEq, Eq, Structural)]
pub struct Point {
    pub x: i32,
    pub y: i32,
}

/// A rectangle of the screen or of a window.
#[derive(Clone, Copy, Debug, PartialEq, Eq, Structural)]
pub struct Area {
    pub left: i32,
    pub top: i32,
    pub right: i32,
    pub bottom: i32,
}

impl Area {
    /// Whether the pixel (`px`, `py`) belongs to the area.
    pub open spec fn has(&self, px: int, py: int) -> bool {
        self.left <= px < self.right && self.top <= py < self.bottom
    }
}

/// Whether the pixel (`px`, `py`) belongs to the rectangle of size `w` and `h` at (`x`, `y`).
pub open spec fn has_pixel(x: int, y: int, w: int, h: int, px: int, py: int) -> bool {
    x <= px < x + w && y <= py < y + h
}

} // verus!
