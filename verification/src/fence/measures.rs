//! How large the parts of a fence are at the DPI of its window, in pixels.

use super::grid::{a_fence_shows_all_cells_that_fit, columns, rows, Metrics, MAX_MEASURE};
use crate::utils::{at_dpi, pixels};
use vstd::prelude::*;

verus! {

/// The room around the cells.
pub const MARGIN: u32 = 12;

/// The strip of page dots.
pub const RAIL: u32 = 14;

/// How near to an edge the pointer resizes.
pub const EDGE: u32 = 8;

/// The two lines of a label.
pub const LABEL_HEIGHT: u32 = 36;

/// The size of the letters of a label.
pub const LABEL_FONT: u32 = 12;

/// What a cell is wider than its icon.
pub const CELL_EXTRA_W: u32 = 44;

/// What a cell is higher than its icon: the label, and the room above and below.
pub const CELL_EXTRA_H: u32 = 44;

/// What the title bar is higher than the letters of the title.
pub const TITLE_EXTRA: u32 = 16;

/// No icon is drawn larger than this.
pub const MAX_ICON: u32 = 512;

/// No title is written larger than this.
pub const MAX_TITLE: u32 = 256;

/// Nothing is drawn smaller than at this DPI.
pub const MIN_DPI: u32 = 96;

/// Nothing is drawn larger than at this DPI.
pub const MAX_DPI: u32 = 0x1_0000;

/// `n` held between `low` and `high`.
pub open spec fn limited(n: int, low: int, high: int) -> int {
    if n < low {
        low
    } else if n > high {
        high
    } else {
        n
    }
}

/// `len` logical pixels at `dpi`.
pub open spec fn measured(len: int, dpi: int) -> int {
    at_dpi(len, limited(dpi, MIN_DPI as int, MAX_DPI as int))
}

/// Lengths grow with the DPI, from their logical size at 96 on, and no two of them grow past the sum of
/// both: a cell that is larger by `b` than an icon of `a` has that room at each DPI.
pub proof fn room_grows_with_the_dpi(a: int, b: int, dpi: int)
    requires
        0 <= a,
        0 <= b,
        a + b <= 1024,
    ensures
        measured(a, dpi) + measured(b, dpi) <= measured(a + b, dpi) <= measured(a, dpi) + measured(
            b,
            dpi,
        ) + 1,
        a <= measured(a, dpi),
        dpi <= 96 ==> measured(a, dpi) == a,
        96 <= dpi <= 0x1_0000 ==> 96 * measured(a, dpi) <= a * dpi < 96 * (measured(a, dpi) + 1),
{
    let d = limited(dpi, 96, 0x1_0000);
    assert((a + b) * d == a * d + b * d) by (nonlinear_arith);
    assert(a * 96 <= a * d <= a * 0x1_0000 && b * 96 <= b * d <= b * 0x1_0000)
        by (nonlinear_arith)
        requires
            96 <= d <= 0x1_0000,
            0 <= a,
            0 <= b,
    ;
}

fn limit(n: u32, low: u32, high: u32) -> (out: u32)
    requires
        low <= high,
    ensures
        out == limited(n as int, low as int, high as int),
{
    if n < low {
        low
    } else if n > high {
        high
    } else {
        n
    }
}

fn measure(len: u32, dpi: u32) -> (n: i32)
    requires
        len <= 1024,
    ensures
        n == measured(len as int, dpi as int),
        len <= n <= 683 * len,
{
    let d: u32 = limit(dpi, MIN_DPI, MAX_DPI);
    assert(len * 96 <= len * d <= len * 0x1_0000) by (nonlinear_arith)
        requires
            96 <= d <= 0x1_0000,
            0 <= len,
    ;
    pixels(len, d)
}

/// The measures of a fence at `dpi` with icons of size `icon` and a title of size `title`. The
/// smallest fence holds one cell.
pub fn metrics_at(dpi: u32, icon: u32, title: u32) -> (m: Metrics)
    ensures
        m.wf(),
        m.margin == measured(MARGIN as int, dpi as int),
        m.rail == measured(RAIL as int, dpi as int),
        m.edge == measured(EDGE as int, dpi as int),
        m.cell_w == measured(
            limited(icon as int, 0, MAX_ICON as int) + CELL_EXTRA_W,
            dpi as int,
        ),
        m.cell_h == measured(
            limited(icon as int, 0, MAX_ICON as int) + CELL_EXTRA_H,
            dpi as int,
        ),
        m.title_h == measured(
            limited(title as int, 0, MAX_TITLE as int) + TITLE_EXTRA,
            dpi as int,
        ),
        m.min_w == 2 * m.margin + m.rail + m.cell_w,
        m.min_h == 2 * m.margin + m.title_h + m.cell_h,
        columns(m.min_w as int, m) == 1,
        rows(m.min_h as int, m) == 1,
        rows(m.min_h - 1, m) == 0,
{
    let icon: u32 = limit(icon, 0, MAX_ICON);
    let title: u32 = limit(title, 0, MAX_TITLE);
    let margin: i32 = measure(MARGIN, dpi);
    let rail: i32 = measure(RAIL, dpi);
    let cell_w: i32 = measure(icon + CELL_EXTRA_W, dpi);
    let cell_h: i32 = measure(icon + CELL_EXTRA_H, dpi);
    let title_h: i32 = measure(title + TITLE_EXTRA, dpi);
    let m = Metrics {
        margin,
        rail,
        cell_w,
        cell_h,
        title_h,
        edge: measure(EDGE, dpi),
        min_w: 2 * margin + rail + cell_w,
        min_h: 2 * margin + title_h + cell_h,
    };
    proof {
        a_fence_shows_all_cells_that_fit(m.min_w as int, m.min_h as int, m, 2, 1);
        a_fence_shows_all_cells_that_fit(m.min_w as int, m.min_h as int, m, 1, 2);
        a_fence_shows_all_cells_that_fit(m.min_w as int, m.min_h - 1, m, 1, 1);
    }
    m
}

/// The size of an icon at `dpi`: 1 pixel at least.
pub fn icon_at(dpi: u32, icon: u32) -> (n: i32)
    ensures
        n == measured(limited(icon as int, 1, MAX_ICON as int), dpi as int),
        0 < n <= MAX_MEASURE,
{
    measure(limit(icon, 1, MAX_ICON), dpi)
}

/// The height of a label at `dpi`.
pub fn label_height_at(dpi: u32) -> (n: i32)
    ensures
        n == measured(LABEL_HEIGHT as int, dpi as int),
        0 < n <= MAX_MEASURE,
{
    measure(LABEL_HEIGHT, dpi)
}

/// The size of the letters of a label at `dpi`.
pub fn label_font_at(dpi: u32) -> (n: i32)
    ensures
        n == measured(LABEL_FONT as int, dpi as int),
        0 < n <= MAX_MEASURE,
{
    measure(LABEL_FONT, dpi)
}

/// The size of the letters of the title at `dpi`.
pub fn title_font_at(dpi: u32, title: u32) -> (n: i32)
    ensures
        n == measured(limited(title as int, 0, MAX_TITLE as int), dpi as int),
        0 <= n <= MAX_MEASURE,
{
    measure(limit(title, 0, MAX_TITLE), dpi)
}

} // verus!
