//! What the pointer is doing to a fence.

use vstd::prelude::*;

verus! {

/// The edge or corner by which a fence is being resized.
#[derive(Clone, Copy, Debug, PartialEq, Eq, Structural)]
pub enum ResizeDir {
    N,
    S,
    E,
    W,
    NW,
    NE,
    SW,
    SE,
}

/// What the pointer is doing to a fence.
#[derive(Clone, Copy, Debug)]
pub struct FenceInteraction {
    /// Wheel movement that has not yet made a page, in 120ths of a notch.
    pub wheel_acc: i32,
    pub hover: Option<usize>,
    pub moving: bool,
    pub move_off: (i32, i32),
    pub resizing: Option<ResizeDir>,
    /// Whether the fence was really moved or resized since the press.
    pub drag_moved: bool,
    pub hover_visible: bool,
    /// The pressed entry; it is dragged out once the pointer has moved far enough.
    pub drag_idx: Option<usize>,
    /// Where the press was, in the window.
    pub drag_down: (i32, i32),
}

impl FenceInteraction {
    /// Nothing is going on.
    pub open spec fn idle() -> FenceInteraction {
        FenceInteraction {
            wheel_acc: 0,
            hover: None,
            moving: false,
            move_off: (0, 0),
            resizing: None,
            drag_moved: false,
            hover_visible: false,
            drag_idx: None,
            drag_down: (0, 0),
        }
    }

    /// Whether a press is being followed.
    pub open spec fn is_active(self) -> bool {
        self.moving || self.resizing is Some || self.drag_idx is Some
    }
}

impl Default for FenceInteraction {
    fn default() -> (interaction: Self)
        ensures
            interaction == FenceInteraction::idle(),
    {
        FenceInteraction {
            wheel_acc: 0,
            hover: None,
            moving: false,
            move_off: (0, 0),
            resizing: None,
            drag_moved: false,
            hover_visible: false,
            drag_idx: None,
            drag_down: (0, 0),
        }
    }
}

} // verus!
