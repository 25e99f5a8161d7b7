//! What the messages to a fence's window say.

use super::window::{high16, low16, packed_numbers_come_back, signed16};
use vstd::prelude::*;

verus! {

pub const WM_DESTROY: u32 = 0x0002;
pub const WM_SIZE: u32 = 0x0005;
pub const WM_PAINT: u32 = 0x000F;
pub const WM_ERASEBKGND: u32 = 0x0014;
pub const WM_CANCELMODE: u32 = 0x001F;
pub const WM_SETCURSOR: u32 = 0x0020;
pub const WM_DISPLAYCHANGE: u32 = 0x007E;
pub const WM_NCHITTEST: u32 = 0x0084;
pub const WM_KEYDOWN: u32 = 0x0100;
pub const WM_SYSCOMMAND: u32 = 0x0112;
pub const WM_TIMER: u32 = 0x0113;
pub const WM_MOUSEMOVE: u32 = 0x0200;
pub const WM_LBUTTONDOWN: u32 = 0x0201;
pub const WM_LBUTTONUP: u32 = 0x0202;
pub const WM_LBUTTONDBLCLK: u32 = 0x0203;
pub const WM_RBUTTONUP: u32 = 0x0205;
pub const WM_MOUSEWHEEL: u32 = 0x020A;
pub const WM_CAPTURECHANGED: u32 = 0x0215;
pub const WM_MOUSELEAVE: u32 = 0x02A3;
pub const WM_DPICHANGED: u32 = 0x02E0;

/// The folder of the fence has news.
pub const WM_APP_REFRESH: u32 = 0x8001;

/// Something was dropped on the fence.
pub const WM_APP_DROP: u32 = 0x8002;

/// "Show desktop" minimised the fence, which is to come back.
pub const WM_APP_DESKTOP_RESTORE: u32 = 0x8014;

/// The timer by which a page turns.
pub const ANIM_TIMER: usize = 0xFE10;

/// The timer by which a folder with news is read again.
pub const REFRESH_TIMER: usize = 0xFE11;

/// The system command that minimises, in its low bits but the last four.
pub const SC_MINIMIZE: usize = 0xF020;

pub const SIZE_MINIMIZED: usize = 1;
pub const VK_DELETE: usize = 0x2E;

/// What a message to the window of a fence says.
#[derive(Clone, Copy, Debug, PartialEq, Eq, Structural)]
pub enum FenceEvent {
    /// Answered at once: a fence is not minimised, does not erase its background, and is all client.
    Answered(isize),
    /// The window was minimised all the same.
    Minimized,
    /// It is to come back from that.
    Restore,
    Paint,
    Destroyed,
    /// The folder has news.
    News,
    /// Items were dropped, in this operation.
    Dropped(u32),
    /// The pointer was taken away.
    PointerLost { capture_changed: bool },
    Delete,
    Moved { x: i32, y: i32, left_button: bool },
    Pressed { x: i32, y: i32 },
    Released,
    DoubleClicked { x: i32, y: i32 },
    MenuAsked,
    Wheel(i32),
    RefreshTimer,
    TurnTimer,
    Left,
    CursorAsked,
    /// The screen has this DPI now.
    DpiChanged(u32),
    DisplayChanged,
    /// For the system to handle.
    Other,
}

/// What a timer of a fence's window says.
pub open spec fn timer_event(id: int) -> FenceEvent {
    if id == REFRESH_TIMER {
        FenceEvent::RefreshTimer
    } else if id == ANIM_TIMER {
        FenceEvent::TurnTimer
    } else {
        FenceEvent::Answered(0)
    }
}

/// What a message about the pointer says, at the place in `lparam`.
pub open spec fn pointer_event(msg: u32, wparam: int, lparam: int) -> FenceEvent {
    let x = signed16(lparam) as i32;
    let y = signed16(lparam / 0x1_0000) as i32;
    if msg == WM_MOUSEMOVE {
        FenceEvent::Moved { x, y, left_button: wparam % 2 == 1 }
    } else if msg == WM_LBUTTONDOWN {
        FenceEvent::Pressed { x, y }
    } else if msg == WM_LBUTTONDBLCLK {
        FenceEvent::DoubleClicked { x, y }
    } else if msg == WM_LBUTTONUP {
        FenceEvent::Released
    } else if msg == WM_RBUTTONUP {
        FenceEvent::MenuAsked
    } else if msg == WM_MOUSEWHEEL {
        FenceEvent::Wheel(signed16(wparam / 0x1_0000) as i32)
    } else if msg == WM_MOUSELEAVE {
        FenceEvent::Left
    } else if msg == WM_CANCELMODE || msg == WM_CAPTURECHANGED {
        FenceEvent::PointerLost { capture_changed: msg == WM_CAPTURECHANGED }
    } else {
        FenceEvent::Other
    }
}

/// Whether a system command minimises.
pub open spec fn minimizes(command: int) -> bool {
    command % 0x1_0000 / 0x10 == SC_MINIMIZE as int / 0x10
}

/// What a message to a fence's window says.
pub open spec fn event_of(msg: u32, wparam: int, lparam: int) -> FenceEvent {
    if msg == WM_SYSCOMMAND {
        if minimizes(wparam) {
            FenceEvent::Answered(0)
        } else {
            FenceEvent::Other
        }
    } else if msg == WM_SIZE {
        if wparam % 0x1_0000_0000 == SIZE_MINIMIZED {
            FenceEvent::Minimized
        } else {
            FenceEvent::Other
        }
    } else if msg == WM_KEYDOWN {
        if wparam == VK_DELETE {
            FenceEvent::Delete
        } else {
            FenceEvent::Other
        }
    } else if msg == WM_ERASEBKGND || msg == WM_NCHITTEST {
        FenceEvent::Answered(1)
    } else if msg == WM_TIMER {
        timer_event(wparam)
    } else if msg == WM_PAINT {
        FenceEvent::Paint
    } else if msg == WM_DESTROY {
        FenceEvent::Destroyed
    } else if msg == WM_SETCURSOR {
        FenceEvent::CursorAsked
    } else if msg == WM_DPICHANGED {
        FenceEvent::DpiChanged((wparam % 0x1_0000) as u32)
    } else if msg == WM_DISPLAYCHANGE {
        FenceEvent::DisplayChanged
    } else if msg == WM_APP_REFRESH {
        FenceEvent::News
    } else if msg == WM_APP_DROP {
        FenceEvent::Dropped((wparam % 0x1_0000_0000) as u32)
    } else if msg == WM_APP_DESKTOP_RESTORE {
        FenceEvent::Restore
    } else {
        pointer_event(msg, wparam, lparam)
    }
}

fn pointer_event_of(msg: u32, wparam: usize, lparam: usize) -> (event: FenceEvent)
    ensures
        event == pointer_event(msg, wparam as int, lparam as int),
{
    let x: i32 = low16(lparam);
    let y: i32 = high16(lparam);
    if msg == WM_MOUSEMOVE {
        FenceEvent::Moved { x, y, left_button: wparam % 2 == 1 }
    } else if msg == WM_LBUTTONDOWN {
        FenceEvent::Pressed { x, y }
    } else if msg == WM_LBUTTONDBLCLK {
        FenceEvent::DoubleClicked { x, y }
    } else if msg == WM_LBUTTONUP {
        FenceEvent::Released
    } else if msg == WM_RBUTTONUP {
        FenceEvent::MenuAsked
    } else if msg == WM_MOUSEWHEEL {
        FenceEvent::Wheel(high16(wparam))
    } else if msg == WM_MOUSELEAVE {
        FenceEvent::Left
    } else if msg == WM_CANCELMODE || msg == WM_CAPTURECHANGED {
        FenceEvent::PointerLost { capture_changed: msg == WM_CAPTURECHANGED }
    } else {
        FenceEvent::Other
    }
}

/// See [`event_of`].
pub fn fence_event(msg: u32, wparam: usize, lparam: usize) -> (event: FenceEvent)
    ensures
        event == event_of(msg, wparam as int, lparam as int),
{
    // A parameter of 32 bits in a wider one.
    let word: u32 = ((wparam as u64) % 0x1_0000_0000) as u32;
    if msg == WM_SYSCOMMAND {
        if wparam % 0x1_0000 / 0x10 == SC_MINIMIZE / 0x10 {
            FenceEvent::Answered(0)
        } else {
            FenceEvent::Other
        }
    } else if msg == WM_SIZE {
        if word == 1 {
            FenceEvent::Minimized
        } else {
            FenceEvent::Other
        }
    } else if msg == WM_KEYDOWN {
        if wparam == VK_DELETE {
            FenceEvent::Delete
        } else {
            FenceEvent::Other
        }
    } else if msg == WM_ERASEBKGND || msg == WM_NCHITTEST {
        FenceEvent::Answered(1)
    } else if msg == WM_TIMER {
        if wparam == REFRESH_TIMER {
            FenceEvent::RefreshTimer
        } else if wparam == ANIM_TIMER {
            FenceEvent::TurnTimer
        } else {
            FenceEvent::Answered(0)
        }
    } else if msg == WM_PAINT {
        FenceEvent::Paint
    } else if msg == WM_DESTROY {
        FenceEvent::Destroyed
    } else if msg == WM_SETCURSOR {
        FenceEvent::CursorAsked
    } else if msg == WM_DPICHANGED {
        FenceEvent::DpiChanged((wparam % 0x1_0000) as u32)
    } else if msg == WM_DISPLAYCHANGE {
        FenceEvent::DisplayChanged
    } else if msg == WM_APP_REFRESH {
        FenceEvent::News
    } else if msg == WM_APP_DROP {
        FenceEvent::Dropped(word)
    } else if msg == WM_APP_DESKTOP_RESTORE {
        FenceEvent::Restore
    } else {
        pointer_event_of(msg, wparam, lparam)
    }
}

/// A message about the pointer tells where it is: the packed place comes back, with its sign; so does the
/// turn of the wheel.
pub proof fn a_message_tells_where_the_pointer_is(x: int, y: int, keys: int, turn: int)
    requires
        -0x8000 <= x < 0x8000,
        -0x8000 <= y < 0x8000,
        -0x8000 <= turn < 0x8000,
        0 <= keys < 0x1_0000,
    ensures
        ({
            let at = (x % 0x1_0000) + 0x1_0000 * (y % 0x1_0000);
            let wheel = keys + 0x1_0000 * (turn % 0x1_0000);
            let (px, py) = (x as i32, y as i32);
            &&& event_of(0x0200, keys, at) == (FenceEvent::Moved {
                x: px,
                y: py,
                left_button: keys % 2 == 1,
            })
            &&& event_of(0x0201, keys, at) == (FenceEvent::Pressed { x: px, y: py })
            &&& event_of(0x0203, keys, at) == (FenceEvent::DoubleClicked { x: px, y: py })
            &&& event_of(0x020A, wheel, at) == FenceEvent::Wheel(turn as i32)
        }),
{
    packed_numbers_come_back(x, y, 0);
    let wheel = keys + 0x1_0000 * (turn % 0x1_0000);
    assert(wheel / 0x1_0000 == turn % 0x1_0000);
}

/// A fence is never minimised by the system's command, whatever its lowest four bits, which the system uses
/// itself; no other command is kept from the system.
pub proof fn a_fence_is_not_minimised(command: int, low: int, high: int)
    requires
        0 <= low < 16,
        0 <= command < 0x1000,
        0 <= high,
    ensures
        ({
            let w = low + 16 * command + 0x1_0000 * high;
            event_of(0x0112, w, 0) == if command == 0xF02 {
                FenceEvent::Answered(0)
            } else {
                FenceEvent::Other
            }
        }),
{
    let w = low + 16 * command + 0x1_0000 * high;
    assert(w % 0x1_0000 == low + 16 * command);
}

} // verus!
