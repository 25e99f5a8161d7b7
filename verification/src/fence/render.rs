//! What a fence's picture is made of: its transparency, which entries it shows and where, its page
//! dots, and the pixels as the system wants them. Lengths that need parts of a pixel are in millionths
//! of one.

use super::grid::{
    a_fence_shows_all_cells_that_fit, columns, entry_at, grid_dims, pages_of, rows, start_page_anim, step_page_anim,
    the_pointer_hits_the_entry_of_its_cell, total_pages, trunc_div, turn_begun, turn_stepped,
    Metrics, ROW,
};
use super::model::FenceModel;
use super::Fence;
use crate::config::{opt_view, round_div};
use crate::text::owned;
use crate::utf16::{is_high, is_low};
use crate::winpath::{
    a_joined_name_comes_last, file_name, file_name_of, is_plain, join, takes_names,
};
use vstd::prelude::*;

verus! {

/// The transparency of a fence with `opacity` millionths: at least a tenth, of 255.
pub open spec fn background_alpha(opacity: int) -> int {
    255 * (if opacity < 100_000 {
        100_000
    } else if opacity > 1_000_000 {
        1_000_000
    } else {
        opacity
    }) / 1_000_000
}

/// What everything is faded to: 16 hundredths for a fence in ghost mode without the pointer.
pub open spec fn fade(ghost_mode: bool, hover_visible: bool) -> int {
    if ghost_mode && !hover_visible {
        40
    } else {
        255
    }
}

/// The transparency of the background and what everything is faded to.
pub fn frame_alphas(f: &Fence, ghost_mode: bool) -> (alphas: (u8, u8))
    ensures
        alphas.0 == background_alpha(f.cfg.opacity as int),
        alphas.1 == fade(ghost_mode, f.interaction.hover_visible),
{
    let opacity: u32 = if f.cfg.opacity < 100_000 {
        100_000
    } else if f.cfg.opacity > 1_000_000 {
        1_000_000
    } else {
        f.cfg.opacity
    };
    let bg: u8 = (255 * opacity / 1_000_000) as u8;
    (bg, if ghost_mode && !f.interaction.hover_visible {
        40
    } else {
        255
    })
}

/// The background of a fence is as opaque as it is set to be, of 255, though never less than a tenth;
/// a higher setting never makes it more transparent.
pub proof fn the_background_is_as_opaque_as_set(opacity: int, more: int)
    requires
        opacity <= more,
    ensures
        100_000 <= opacity <= 1_000_000 ==> background_alpha(opacity) * 1_000_000 <= 255 * opacity
            < (background_alpha(opacity) + 1) * 1_000_000,
        opacity <= 100_000 ==> background_alpha(opacity) == 25,
        opacity >= 1_000_000 ==> background_alpha(opacity) == 255,
        background_alpha(opacity) <= background_alpha(more),
{
}

/// A fence is whole, but for one in ghost mode that the pointer is not on: of it 16 hundredths are left,
/// to within one.
pub proof fn only_a_ghost_without_the_pointer_fades(ghost_mode: bool, hover_visible: bool)
    ensures
        fade(ghost_mode, hover_visible) == 255 <==> !ghost_mode || hover_visible,
        ghost_mode && !hover_visible ==> 16 * 255 - 100 < 100 * fade(ghost_mode, hover_visible)
            <= 16 * 255,
{
}

/// The colour of the panel under the transparency `bg_alpha`.
pub fn panel_colour(bg_alpha: u8) -> (argb: u32)
    ensures
        argb == (bg_alpha as int * 170 / 255) * 0x100_0000 + 0x1a1c20,
{
    (bg_alpha as u32 * 170 / 255) * 0x100_0000 + 0x001a_1c20
}

/// One channel of a pixel: 0 blue, 1 green, 2 red, 3 the transparency.
pub open spec fn channel(p: int, k: int) -> int {
    if k == 0 {
        p % 0x100
    } else if k == 1 {
        p / 0x100 % 0x100
    } else if k == 2 {
        p / 0x1_0000 % 0x100
    } else {
        p / 0x100_0000
    }
}

/// The transparency of the pixel `p` faded to `fade`.
pub open spec fn faded(p: int, fade: int) -> int {
    channel(p, 3) * fade / 255
}

/// The pixel `p` faded to `fade`, with its colours multiplied by its transparency, as the system
/// wants the pixels of a transparent window.
pub open spec fn premultiplied(p: int, fade: int) -> int {
    let a = faded(p, fade);
    a * 0x100_0000 + (channel(p, 2) * a / 255) * 0x1_0000 + (channel(p, 1) * a / 255) * 0x100
        + channel(p, 0) * a / 255
}

proof fn product_below(c: int, a: int)
    requires
        0 <= c <= 255,
        0 <= a <= 255,
    ensures
        0 <= c * a <= 65025,
        0 <= c * a / 255 <= a,
        a == 0 ==> c * a == 0,
{
    assert(0 <= c * a <= 255 * a && 255 * a <= 65025 && (a == 0 ==> c * a == 0))
        by (nonlinear_arith)
        requires
            0 <= c <= 255,
            0 <= a <= 255,
    ;
}

proof fn times_255(c: int, a: int)
    requires
        a == 255,
    ensures
        c * a == 255 * c,
{
    assert(c * a == 255 * c) by (nonlinear_arith)
        requires
            a == 255,
    ;
}

/// See [`premultiplied`].
pub fn premultiply_pixel(p: u32, fade: u8) -> (out: u32)
    ensures
        out == premultiplied(p as int, fade as int),
{
    let a: u32 = p / 0x100_0000;
    proof {
        product_below(fade as int, a as int);
        product_below(a as int, fade as int);
    }
    let a2: u32 = a * (fade as u32) / 255;
    let b: u32 = p % 0x100;
    let g: u32 = p / 0x100 % 0x100;
    let r: u32 = p / 0x1_0000 % 0x100;
    proof {
        assert(a <= 255);
        assert(a2 <= 255);
        product_below(b as int, a2 as int);
        product_below(g as int, a2 as int);
        product_below(r as int, a2 as int);
    }
    a2 * 0x100_0000 + (r * a2 / 255) * 0x1_0000 + (g * a2 / 255) * 0x100 + b * a2 / 255
}

/// Premultiplies each of `pixels`.
pub fn premultiply(pixels: &mut Vec<u32>, fade: u8)
    ensures
        final(pixels)@.len() == old(pixels)@.len(),
        forall|i: int|
            0 <= i < old(pixels)@.len() ==> #[trigger] final(pixels)@[i] == premultiplied(
                old(pixels)@[i] as int,
                fade as int,
            ),
{
    let n: usize = pixels.len();
    for i in 0..n
        invariant
            pixels@.len() == n,
            n == old(pixels)@.len(),
            forall|j: int|
                0 <= j < i ==> #[trigger] pixels@[j] == premultiplied(
                    old(pixels)@[j] as int,
                    fade as int,
                ),
            forall|j: int| i <= j < n ==> #[trigger] pixels@[j] == old(pixels)@[j],
    {
        let p: u32 = premultiply_pixel(pixels[i], fade);
        pixels.set(i, p);
    }
}

/// No colour of a premultiplied pixel is stronger than its transparency, a transparent pixel is
/// nothing, and an opaque one that is not faded stays as it is.
pub proof fn premultiplied_pixels_are_valid(p: u32, fade: u8)
    ensures
        ({
            let q = premultiplied(p as int, fade as int);
            &&& channel(q, 3) == faded(p as int, fade as int)
            &&& channel(q, 0) <= channel(q, 3)
            &&& channel(q, 1) <= channel(q, 3)
            &&& channel(q, 2) <= channel(q, 3)
            &&& channel(p as int, 3) == 0 ==> q == 0
            &&& channel(p as int, 3) == 255 && fade == 255 ==> q == p
        }),
{
    let (p, fade) = (p as int, fade as int);
    let a = faded(p, fade);
    product_below(fade, channel(p, 3));
    assert(channel(p, 3) * fade == fade * channel(p, 3)) by (nonlinear_arith);
    product_below(channel(p, 0), a);
    product_below(channel(p, 1), a);
    product_below(channel(p, 2), a);
    channels_of_a_pixel(
        a,
        channel(p, 2) * a / 255,
        channel(p, 1) * a / 255,
        channel(p, 0) * a / 255,
    );
    if channel(p, 3) == 255 && fade == 255 {
        an_opaque_pixel_stays(p);
    }
}

/// Each colour of a premultiplied pixel is the share of the pixel's own that its faded transparency
/// leaves, cut off to whole numbers, and none moves to another channel.
pub proof fn premultiplying_keeps_the_colours(a: int, r: int, g: int, b: int, fade: int)
    requires
        0 <= a <= 255,
        0 <= r <= 255,
        0 <= g <= 255,
        0 <= b <= 255,
        0 <= fade <= 255,
    ensures
        ({
            let q = premultiplied(a * 0x100_0000 + r * 0x1_0000 + g * 0x100 + b, fade);
            let (qa, qr, qg, qb) = (
                q / 0x100_0000,
                q / 0x1_0000 % 0x100,
                q / 0x100 % 0x100,
                q % 0x100,
            );
            &&& 255 * qa <= a * fade < 255 * qa + 255
            &&& 255 * qr <= r * qa < 255 * qr + 255
            &&& 255 * qg <= g * qa < 255 * qg + 255
            &&& 255 * qb <= b * qa < 255 * qb + 255
        }),
{
    let p = a * 0x100_0000 + r * 0x1_0000 + g * 0x100 + b;
    channels_of_a_pixel(a, r, g, b);
    product_below(fade, a);
    assert(a * fade == fade * a) by (nonlinear_arith);
    let qa = faded(p, fade);
    product_below(r, qa);
    product_below(g, qa);
    product_below(b, qa);
    channels_of_a_pixel(qa, r * qa / 255, g * qa / 255, b * qa / 255);
}

proof fn channels_of_a_pixel(a: int, r: int, g: int, b: int)
    requires
        0 <= a <= 255,
        0 <= r <= 255,
        0 <= g <= 255,
        0 <= b <= 255,
    ensures
        ({
            let q = a * 0x100_0000 + r * 0x1_0000 + g * 0x100 + b;
            channel(q, 3) == a && channel(q, 2) == r && channel(q, 1) == g && channel(q, 0) == b
        }),
{
    let q = a * 0x100_0000 + r * 0x1_0000 + g * 0x100 + b;
    assert(q / 0x1_0000 == a * 0x100 + r);
    assert(q / 0x100 == a * 0x1_0000 + r * 0x100 + g);
}

proof fn an_opaque_pixel_stays(p: int)
    requires
        0 <= p <= u32::MAX,
        channel(p, 3) == 255,
    ensures
        premultiplied(p, 255) == p,
{
    assert(faded(p, 255) == 255);
    times_255(channel(p, 0), faded(p, 255));
    times_255(channel(p, 1), faded(p, 255));
    times_255(channel(p, 2), faded(p, 255));
    let r = channel(p, 2);
    let g = channel(p, 1);
    let b = channel(p, 0);
    assert(p == 255 * 0x100_0000 + r * 0x1_0000 + g * 0x100 + b);
    assert(255 * r / 255 == r && 255 * g / 255 == g && 255 * b / 255 == b);
}

/// The title that is shown: the fence's own, or the name of its folder where it has none.
pub open spec fn shown_title(title: Seq<char>, folder: Option<Seq<char>>) -> Seq<char> {
    if folder is Some && title.len() == 0 {
        match file_name(folder->0) {
            Some(name) => name,
            None => Seq::empty(),
        }
    } else {
        title
    }
}

/// A fence with a title shows it; a view of the folder `n` in `d` without one shows that folder's name.
pub proof fn a_view_shows_its_folders_name(title: Seq<char>, d: Seq<char>, n: Seq<char>)
    requires
        takes_names(d),
        is_plain(n),
    ensures
        shown_title(title, Some(join(d, n))) == if title.len() > 0 {
            title
        } else {
            n
        },
        shown_title(title, None) == title,
{
    a_joined_name_comes_last(d, n);
}

/// See [`shown_title`].
pub fn display_title(f: &Fence) -> (title: String)
    ensures
        title@ == shown_title(f.cfg.title@, opt_view(f.cfg.folder)),
{
    if f.cfg.title.as_str().is_empty() {
        if let Some(folder) = &f.cfg.folder {
            return match file_name_of(folder.as_str()) {
                Some(name) => name,
                None => String::new(),
            };
        }
    }
    f.cfg.title.clone()
}

/// What an empty fence says.
pub fn empty_hint(f: &Fence) -> (hint: String)
    ensures
        hint@ == if f.cfg.folder is Some {
            "空文件夹"@
        } else {
            "将文件拖入此处收纳"@
        },
{
    if f.cfg.folder.is_some() {
        owned("空文件夹")
    } else {
        owned("将文件拖入此处收纳")
    }
}

/// Where row `row` begins, in millionths of a pixel.
pub open spec fn row_top(f: Fence, m: Metrics, row: int) -> int {
    (m.title_h + m.margin) * 1_000_000 + (row * ROW - f.top_row) * m.cell_h
}

/// Whether row `row` is drawn: one row more on each side than fits, for the turning of a page, but
/// none below the window.
pub open spec fn row_is_drawn(f: Fence, m: Metrics, row: int) -> bool {
    let first = f.top_row as int / ROW as int - 1;
    0 <= row && first <= row < first + rows(f.cfg.h as int, m) + 2 && row_top(f, m, row) < f.cfg.h
        * 1_000_000
}

/// Whether entry `i` is drawn.
pub open spec fn is_drawn(f: Fence, m: Metrics, i: int) -> bool {
    0 <= i < f.model.entries@.len() && rows(f.cfg.h as int, m) > 0 && row_is_drawn(
        f,
        m,
        i / columns(f.cfg.w as int, m),
    )
}

/// Only entries that are there are drawn, and of these only the ones of the rows shown, of one row above and
/// of one below: none whose cell is a whole row away from what is shown.
pub proof fn nothing_far_off_is_drawn(f: Fence, m: Metrics, i: int)
    requires
        m.wf(),
        f.wf(),
        is_drawn(f, m, i),
    ensures
        0 <= i < f.model.entries@.len(),
        rows(f.cfg.h as int, m) > 0,
        ({
            let row = i / columns(f.cfg.w as int, m);
            &&& f.top_row - 2 * ROW < row * ROW <= f.top_row + rows(f.cfg.h as int, m) * ROW
            &&& row_top(f, m, row) < f.cfg.h * 1_000_000
        }),
{
}

/// The entries that are drawn, from the first up to the last.
pub fn drawn_range(f: &Fence, m: &Metrics) -> (range: (usize, usize))
    requires
        m.wf(),
        f.wf(),
    ensures
        range.0 <= range.1 <= f.model.entries@.len(),
        forall|i: int| range.0 <= i < range.1 <==> #[trigger] is_drawn(*f, *m, i),
{
    let n: usize = f.model.entries.len();
    let (cols, row_count) = grid_dims(&f.cfg, m);
    if row_count <= 0 || n == 0 {
        return (0, 0);
    }
    let top: i128 = f.top_row / ROW;
    let first: i128 = if top < 1 {
        0
    } else {
        top - 1
    };
    let end: i128 = top - 1 + row_count as i128 + 2;
    let mut row: i128 = first;
    let base: i128 = (m.title_h as i128 + m.margin as i128) * 1_000_000;
    let limit: i128 = f.cfg.h as i128 * 1_000_000;
    let c: i128 = m.cell_h as i128;
    let ghost cols_g = cols as int;
    while row < end
        invariant
            m.wf(),
            f.wf(),
            first <= row <= end,
            first == (if top < 1 {
                0int
            } else {
                top - 1
            }),
            top == f.top_row as int / ROW as int,
            end == top + row_count + 1,
            row_count == rows(f.cfg.h as int, *m),
            0 < row_count,
            base == (m.title_h + m.margin) * 1_000_000,
            limit == f.cfg.h * 1_000_000,
            c == m.cell_h,
            forall|r: int| first <= r < row ==> #[trigger] row_is_drawn(*f, *m, r),
        ensures
            first <= row <= end,
            forall|r: int| first <= r < row ==> #[trigger] row_is_drawn(*f, *m, r),
            row == end || !(row_top(*f, *m, row as int) < limit),
        decreases end - row,
    {
        let d: i128 = row * ROW - f.top_row;
        proof {
            assert(-2 * 1_000_000 <= d <= 0x8000_0001 * 1_000_000);
            assert(-0x10_0000 * 2 * 1_000_000 <= d * c <= 0x10_0000 * 0x8000_0001 * 1_000_000)
                by (nonlinear_arith)
                requires
                    -2 * 1_000_000 <= d <= 0x8000_0001 * 1_000_000,
                    0 < c <= 0x10_0000,
            ;
        }
        if base + d * c >= limit {
            break;
        }
        row += 1;
    }
    proof {
        assert forall|r: int| #[trigger] row_is_drawn(*f, *m, r) implies first <= r < row by {
            if r >= row && row < end {
                rows_go_down(*f, *m, row as int, r);
            }
        }
    }
    let from: i128 = first;
    let len: i128 = n as i128;
    let cc: i128 = cols as i128;
    let begin: usize = if from > len {
        n
    } else {
        proof {
            assert(0 <= from * cc <= 0x1_0000_0000_0000_0000 * 0x8000_0000) by (nonlinear_arith)
                requires
                    0 <= from <= 0x1_0000_0000_0000_0000,
                    1 <= cc <= 0x8000_0000,
            ;
        }
        if from * cc > len {
            n
        } else {
            (from * cc) as usize
        }
    };
    let finish: usize = if row > len {
        n
    } else {
        proof {
            assert(0 <= row * cc <= 0x1_0000_0000_0000_0000 * 0x8000_0000) by (nonlinear_arith)
                requires
                    0 <= row <= 0x1_0000_0000_0000_0000,
                    1 <= cc <= 0x8000_0000,
            ;
        }
        if row * cc > len {
            n
        } else {
            (row * cc) as usize
        }
    };
    proof {
        assert(begin <= finish) by {
            assert(from * cc <= row * cc) by (nonlinear_arith)
                requires
                    from <= row,
                    cc >= 1,
            ;
            assert(row <= row * cc) by (nonlinear_arith)
                requires
                    row >= 0,
                    cc >= 1,
            ;
            assert(from <= from * cc) by (nonlinear_arith)
                requires
                    from >= 0,
                    cc >= 1,
            ;
        }
        assert forall|i: int| begin <= i < finish <==> #[trigger] is_drawn(*f, *m, i) by {
            if 0 <= i < n {
                entry_row(i, cc as int, from as int);
                entry_row(i, cc as int, row as int);
                assert((from > len) ==> i / cc as int <= i) by (nonlinear_arith)
                    requires
                        i >= 0,
                        cc >= 1,
                ;
                assert(i / cc as int <= i) by (nonlinear_arith)
                    requires
                        i >= 0,
                        cc >= 1,
                ;
                let r = i / cc as int;
                if first <= r < row {
                    assert(row_is_drawn(*f, *m, r));
                }
            }
        }
    }
    (begin, finish)
}

proof fn entry_row(i: int, cols: int, row: int)
    requires
        cols >= 1,
        i >= 0,
    ensures
        i >= row * cols <==> i / cols >= row,
{
    assert(i >= row * cols <==> i / cols >= row) by (nonlinear_arith)
        requires
            cols >= 1,
            i >= 0,
    ;
}

proof fn rows_go_down(f: Fence, m: Metrics, a: int, b: int)
    requires
        m.wf(),
        a <= b,
    ensures
        row_top(f, m, a) <= row_top(f, m, b),
{
    assert((a * ROW - f.top_row) * m.cell_h <= (b * ROW - f.top_row) * m.cell_h)
        by (nonlinear_arith)
        requires
            a * ROW - f.top_row <= b * ROW - f.top_row,
            m.cell_h >= 0,
    ;
}

/// How an entry is marked.
#[derive(Clone, Copy, Debug, PartialEq, Eq, Structural)]
pub enum Mark {
    Plain,
    Hovered,
    Selected,
}

/// How entry `i` is marked.
pub open spec fn mark_of(f: Fence, i: usize) -> Mark {
    if f.model.selected == Some(i) {
        Mark::Selected
    } else if f.interaction.hover == Some(i) {
        Mark::Hovered
    } else {
        Mark::Plain
    }
}

/// The selected entry is marked as that, even under the pointer; any other under the pointer as hovered; and
/// no third one is marked.
pub proof fn one_entry_is_marked_as_selected(f: Fence, i: usize)
    ensures
        mark_of(f, i) == Mark::Selected <==> f.model.selected == Some(i),
        mark_of(f, i) == Mark::Hovered <==> f.model.selected != Some(i) && f.interaction.hover
            == Some(i),
        mark_of(f, i) == Mark::Plain <==> f.model.selected != Some(i) && f.interaction.hover
            != Some(i),
{
}

/// See [`mark_of`].
pub fn entry_mark(f: &Fence, i: usize) -> (mark: Mark)
    ensures
        mark == mark_of(*f, i),
{
    let selected: bool = match f.model.selected {
        Some(k) => k == i,
        None => false,
    };
    let hovered: bool = match f.interaction.hover {
        Some(k) => k == i,
        None => false,
    };
    if selected {
        Mark::Selected
    } else if hovered {
        Mark::Hovered
    } else {
        Mark::Plain
    }
}

/// The colour behind a marked entry.
pub fn mark_colour(mark: Mark) -> (argb: Option<u32>)
    ensures
        argb == (match mark {
            Mark::Plain => None::<u32>,
            Mark::Hovered => Some(0x22ff_ffffu32),
            Mark::Selected => Some(0x55ff_ffffu32),
        }),
{
    match mark {
        Mark::Plain => None,
        Mark::Hovered => Some(0x22ff_ffff),
        Mark::Selected => Some(0x55ff_ffff),
    }
}

/// Where an entry is drawn, in millionths of a pixel, and its icon in pixels.
#[derive(Clone, Copy, Debug, PartialEq, Eq, Structural)]
pub struct CellPlace {
    pub x: i64,
    pub y: i64,
    pub width: i64,
    pub icon_x: i32,
    pub icon_y: i32,
}

/// What each cell is wide, in millionths of a pixel: the columns share the width.
pub open spec fn cell_width(f: Fence, m: Metrics) -> int {
    (f.cfg.w - m.frame_w()) * 1_000_000 / columns(f.cfg.w as int, m)
}

/// Where the cell of entry `i` begins, in millionths of a pixel.
pub open spec fn cell_left(f: Fence, m: Metrics, i: int) -> int {
    m.margin * 1_000_000 + (i % columns(f.cfg.w as int, m)) * cell_width(f, m)
}

/// In a fence at rest whose inside is a whole number of cells wide, the pointer hits the entry that
/// is drawn under it: anywhere in the cell of entry `i` of the page shown, it hits entry `i`.
#[verifier::rlimit(40)]
pub proof fn the_pointer_hits_what_is_drawn_under_it(
    f: Fence,
    m: Metrics,
    i: int,
    x: int,
    y: int,
)
    requires
        m.wf(),
        f.top_row == f.model.page * rows(f.cfg.h as int, m) * ROW,
        f.cfg.w == m.frame_w() + columns(f.cfg.w as int, m) * m.cell_w,
        0 <= i < f.model.entries@.len(),
        ({
            let size = columns(f.cfg.w as int, m) * rows(f.cfg.h as int, m);
            f.model.page * size <= i < f.model.page * size + size
        }),
        ({
            let left = cell_left(f, m, i);
            left <= x * 1_000_000 < left + cell_width(f, m)
        }),
        ({
            let top = row_top(f, m, i / columns(f.cfg.w as int, m));
            top <= y * 1_000_000 < top + m.cell_h * 1_000_000
        }),
    ensures
        entry_at(f, x, y, columns(f.cfg.w as int, m), m) == Some(i),
{
    let cols = columns(f.cfg.w as int, m);
    let shown = rows(f.cfg.h as int, m);
    let page = f.model.page as int;
    let top = page * shown;
    let (col, line) = (i % cols, i / cols);
    let cw = m.cell_w as int;
    let ch = m.cell_h as int;
    vstd::arithmetic::div_mod::lemma_fundamental_div_mod(i, cols);
    assert(0 <= col < cols);
    assert((cols * cw) * 1_000_000 / cols == cw * 1_000_000) by {
        assert((cols * cw) * 1_000_000 == (cw * 1_000_000) * cols) by (nonlinear_arith);
        vstd::arithmetic::div_mod::lemma_div_by_multiple(cw * 1_000_000, cols);
    }
    assert(cell_width(f, m) == cw * 1_000_000);
    assert(col * (cw * 1_000_000) == col * cw * 1_000_000) by (nonlinear_arith);
    assert(line >= top) by (nonlinear_arith)
        requires
            page * (cols * shown) <= i,
            i == cols * line + col,
            0 <= col < cols,
            top == page * shown,
    {
        assert(page * (cols * shown) == cols * (page * shown));
        assert(cols * top < cols * (line + 1));
    }
    let row = line - top;
    assert((line * ROW - f.top_row) * m.cell_h == row * ch * 1_000_000) by (nonlinear_arith)
        requires
            f.top_row == top * ROW,
            ROW == 1_000_000,
            row == line - top,
            ch == m.cell_h,
    ;
    assert(0 <= top) by (nonlinear_arith)
        requires
            page >= 0,
            shown >= 0,
            top == page * shown,
    ;
    the_pointer_hits_the_entry_of_its_cell(f, m, cols, top, col, row, x, y);
    assert((top + row) * cols + col == i) by (nonlinear_arith)
        requires
            top + row == line,
            i == cols * line + col,
    ;
}

/// In a fence at rest each entry of the page shown is drawn, and all of its cell is inside the fence: the
/// first entry at the upper left, then from left to right and from top to bottom.
#[verifier::rlimit(40)]
pub proof fn a_page_is_drawn_from_left_to_right_and_down(f: Fence, m: Metrics, col: int, row: int)
    requires
        m.wf(),
        f.cfg.w >= m.frame_w(),
        f.top_row == f.model.page * rows(f.cfg.h as int, m) * ROW,
        0 <= col < columns(f.cfg.w as int, m),
        0 <= row < rows(f.cfg.h as int, m),
        ({
            let (cols, shown) = (columns(f.cfg.w as int, m), rows(f.cfg.h as int, m));
            (f.model.page * shown + row) * cols + col < f.model.entries@.len()
        }),
    ensures
        ({
            let (cols, shown) = (columns(f.cfg.w as int, m), rows(f.cfg.h as int, m));
            let i = (f.model.page * shown + row) * cols + col;
            let (x, y) = (cell_left(f, m, i), row_top(f, m, i / cols));
            let w = cell_width(f, m);
            &&& is_drawn(f, m, i)
            &&& x == m.margin * 1_000_000 + col * w
            &&& y == (m.title_h + m.margin + row * m.cell_h) * 1_000_000
            &&& w * cols <= (f.cfg.w - 2 * m.margin - m.rail) * 1_000_000 < (w + 1) * cols
            &&& m.margin * 1_000_000 <= x && x + w <= (f.cfg.w - m.margin - m.rail) * 1_000_000
            &&& y + m.cell_h * 1_000_000 <= (f.cfg.h - m.margin) * 1_000_000
        }),
{
    let (cols, shown) = (columns(f.cfg.w as int, m), rows(f.cfg.h as int, m));
    let page = f.model.page as int;
    let top = page * shown;
    let line = top + row;
    let i = line * cols + col;
    let (ch, w) = (m.cell_h as int, cell_width(f, m));
    let inner = (f.cfg.w - m.frame_w()) * 1_000_000;
    vstd::arithmetic::div_mod::lemma_fundamental_div_mod_converse(i, cols, line, col);
    assert(0 <= top && top >= page) by (nonlinear_arith)
        requires
            page >= 0,
            shown >= 1,
            top == page * shown,
    ;
    assert(i >= 0) by (nonlinear_arith)
        requires
            line >= 0,
            cols >= 1,
            col >= 0,
            i == line * cols + col,
    ;
    assert(f.top_row == top * 1_000_000);
    assert(f.top_row as int / ROW as int == top);
    assert((line * ROW - f.top_row) * m.cell_h == row * ch * 1_000_000) by (nonlinear_arith)
        requires
            f.top_row == top * 1_000_000,
            ROW == 1_000_000,
            line == top + row,
            ch == m.cell_h,
    ;
    assert(w * cols <= inner < (w + 1) * cols) by (nonlinear_arith)
        requires
            w == inner / cols,
            cols >= 1,
    ;
    assert(0 <= w && 0 <= col * w && col * w + w <= w * cols) by (nonlinear_arith)
        requires
            w == inner / cols,
            inner >= 0,
            cols >= 1,
            0 <= col < cols,
    ;
    a_fence_shows_all_cells_that_fit(f.cfg.w as int, f.cfg.h as int, m, cols, shown);
    assert(row * ch + ch <= shown * ch) by (nonlinear_arith)
        requires
            row + 1 <= shown,
            ch > 0,
    ;
    assert(row_is_drawn(f, m, line));
}

/// Where entry `i`, which is drawn, stands, with an icon of `icon` pixels in the middle of its cell.
pub fn cell_place(f: &Fence, m: &Metrics, i: usize, icon: i32) -> (place: CellPlace)
    requires
        m.wf(),
        f.wf(),
        f.cfg.w > 0,
        0 <= icon <= 0x10_0000,
        is_drawn(*f, *m, i as int),
    ensures
        place.width == cell_width(*f, *m),
        place.x == cell_left(*f, *m, i as int),
        place.y == row_top(*f, *m, i as int / columns(f.cfg.w as int, *m)),
        place.icon_x == round_div(
            cell_left(*f, *m, i as int) + (cell_width(*f, *m) - icon * 1_000_000) / 2,
            1_000_000,
        ),
        place.icon_y == round_div(
            row_top(*f, *m, i as int / columns(f.cfg.w as int, *m)),
            1_000_000,
        ),
        -1_000_001 <= (2 * place.icon_x + icon) * 1_000_000 - (2 * place.x + place.width)
            <= 1_000_001,
        -1_000_000 <= 2 * (place.icon_y * 1_000_000 - place.y) <= 1_000_000,
{
    let (cols, row_count) = grid_dims(&f.cfg, m);
    let span: i64 = (f.cfg.w as i64 - (2 * (m.margin as i64) + m.rail as i64)) * 1_000_000;
    let c: i64 = cols as i64;
    let col: i64 = (i % cols as usize) as i64;
    // A fence that is too narrow for its frame has one column, of a negative width.
    let width: i64 = if span >= 0 {
        span / c
    } else {
        span
    };
    proof {
        if span >= 0 {
            assert(0 <= width && width * c <= span) by (nonlinear_arith)
                requires
                    span >= 0,
                    c >= 1,
                    width == span / c,
            ;
            assert(0 <= col * width && col * width + width <= span) by (nonlinear_arith)
                requires
                    0 <= col < c,
                    0 <= width,
                    width * c <= span,
            ;
        } else {
            assert(trunc_div(f.cfg.w - m.frame_w(), m.cell_w as int) <= 0) by {
                let n = m.frame_w() - f.cfg.w;
                assert(n / (m.cell_w as int) >= 0) by (nonlinear_arith)
                    requires
                        n > 0,
                        m.cell_w > 0,
                ;
            }
            assert(c == 1 && col == 0);
            assert(col * width == 0) by (nonlinear_arith)
                requires
                    col == 0,
            ;
            assert(span as int / 1 == span);
        }
        assert(c == columns(f.cfg.w as int, *m));
        assert(span == (f.cfg.w - m.frame_w()) * 1_000_000);
        assert(width == span as int / c as int);
        assert(width == cell_width(*f, *m));
    }
    let x: i64 = m.margin as i64 * 1_000_000 + col * width;
    let row: i128 = (i / cols as usize) as i128;
    let d: i128 = row * ROW - f.top_row;
    let h: i128 = m.cell_h as i128;
    proof {
        assert(row_is_drawn(*f, *m, row as int));
        assert(-2 * 1_000_000 <= d <= 0x8000_0001 * 1_000_000);
        assert(-0x10_0000 * 2 * 1_000_000 <= d * h <= 0x10_0000 * 0x8000_0001 * 1_000_000)
            by (nonlinear_arith)
            requires
                -2 * 1_000_000 <= d <= 0x8000_0001 * 1_000_000,
                0 < h <= 0x10_0000,
        ;
        assert(row_top(*f, *m, row as int) == (m.title_h + m.margin) * 1_000_000 + d * h);
    }
    let y: i64 = ((m.title_h as i128 + m.margin as i128) * 1_000_000 + d * h) as i64;
    let spare: i64 = width - icon as i64 * 1_000_000;
    let half: i64 = if spare >= 0 {
        spare / 2
    } else {
        -((1 - spare) / 2)
    };
    let ix: i64 = x + half;
    CellPlace { x, y, width, icon_x: to_pixels(ix), icon_y: to_pixels(y) }
}

fn to_pixels(n: i64) -> (px: i32)
    requires
        -0x7000_0000 * 1_000_000 <= n <= 0x7fff_ffff * 1_000_000,
    ensures
        px == round_div(n as int, 1_000_000),
{
    if n >= 0 {
        ((2 * n + 1_000_000) / 2_000_000) as i32
    } else {
        (-((1_000_000 - 2 * n) / 2_000_000)) as i32
    }
}

/// The label under an icon: on one line where it fits, else on two.
pub enum LabelLines {
    One(String),
    Two(String, String),
}

/// Where a label of the code units `units` is broken when `fitted` of them fit on the first line:
/// there, but back by one where a pair would be left open, and on by one where one would be left to
/// the second line; at least one unit stays on the first line.
pub open spec fn label_break(units: Seq<u16>, fitted: int) -> int {
    let total = units.len() as int;
    let cut = within(fitted, 1, total);
    let cut = if is_high(units[cut - 1]) {
        cut - 1
    } else {
        cut
    };
    let cut = if cut < total && is_low(units[cut]) {
        cut + 1
    } else {
        cut
    };
    within(cut, 1, total)
}

/// `n` held between `low` and `high`.
pub open spec fn within(n: int, low: int, high: int) -> int {
    if n < low {
        low
    } else if n > high {
        high
    } else {
        n
    }
}

/// See [`label_break`].
pub fn label_cut(units: &Vec<u16>, fitted: usize) -> (cut: usize)
    requires
        units@.len() > 0,
    ensures
        cut == label_break(units@, fitted as int),
        1 <= cut <= units@.len(),
{
    let total: usize = units.len();
    let mut cut: usize = if fitted < 1 {
        1
    } else if fitted > total {
        total
    } else {
        fitted
    };
    if 0xd800 <= units[cut - 1] && units[cut - 1] <= 0xdbff {
        cut -= 1;
    }
    if cut < total && 0xdc00 <= units[cut] && units[cut] <= 0xdfff {
        cut += 1;
    }
    if cut < 1 {
        1
    } else {
        cut
    }
}

/// The break never splits a surrogate pair, unless the label begins with one and no more than its
/// first half fits.
pub proof fn a_break_keeps_pairs_whole(units: Seq<u16>, fitted: int)
    requires
        units.len() > 0,
        !(is_high(units[0]) && fitted <= 1),
    ensures
        ({
            let cut = label_break(units, fitted);
            !(cut < units.len() && is_high(units[cut - 1]) && is_low(units[cut]))
        }),
{
}

/// A label is broken where `fitted` says, but for one unit more or less, and for each line having one
/// where it can; what stands on the two lines is the whole label, unless its first pair is split.
pub proof fn a_broken_label_is_whole(text: Seq<char>, fitted: int)
    requires
        text.len() > 0,
    ensures
        ({
            let units = crate::utf16::encoded(text);
            let cut = label_break(units, fitted);
            &&& 1 <= cut <= units.len()
            &&& 1 <= fitted <= units.len() ==> fitted - 1 <= cut <= fitted + 1
            &&& 1 <= fitted <= units.len() && cut != fitted ==> is_high(units[fitted - 1])
                || is_low(units[fitted])
            &&& fitted < 1 ==> cut <= 2
            &&& fitted > units.len() ==> cut >= units.len() - 1
            &&& !(is_high(units[0]) && fitted <= 1) ==> crate::utf16::decoded(units.take(cut))
                + crate::utf16::decoded(units.skip(cut)) == text
        }),
{
    let units = crate::utf16::encoded(text);
    crate::utf16::decoding_undoes_encoding(text);
    assert(units.len() > 0) by {
        if units.len() == 0 {
            assert(crate::utf16::decoded(units) =~= Seq::empty());
        }
    }
    if !(is_high(units[0]) && fitted <= 1) {
        a_break_keeps_pairs_whole(units, fitted);
        crate::utf16::decoding_goes_piece_by_piece(units, label_break(units, fitted));
    }
}

/// The lines of the label `text`, of which `fitted` code units fit on one line, all of them where
/// `width_fits` holds too.
pub fn label_lines(text: &str, fitted: usize, width_fits: bool) -> (lines: LabelLines)
    requires
        text@.len() > 0 || width_fits,
    ensures
        ({
            let units = crate::utf16::encoded(text@);
            match lines {
                LabelLines::One(line) => fitted >= units.len() && width_fits && line@ == text@,
                LabelLines::Two(first, second) => {
                    let cut = label_break(units, fitted as int);
                    &&& !(fitted >= units.len() && width_fits)
                    &&& first@ == crate::utf16::decoded(units.take(cut))
                    &&& second@ == crate::utf16::decoded(units.skip(cut))
                },
            }
        }),
{
    let units = crate::utf16::encode(text);
    if fitted >= units.len() && width_fits {
        return LabelLines::One(owned(text));
    }
    proof {
        if units@.len() == 0 {
            crate::utf16::decoding_undoes_encoding(text@);
        }
    }
    let cut: usize = label_cut(&units, fitted);
    let mut first: Vec<u16> = Vec::new();
    let mut second: Vec<u16> = Vec::new();
    for i in 0..units.len()
        invariant
            cut <= units@.len(),
            first@ == units@.take(if i < cut {
                i as int
            } else {
                cut as int
            }),
            second@ == (if i < cut {
                Seq::empty()
            } else {
                units@.subrange(cut as int, i as int)
            }),
    {
        if i < cut {
            first.push(units[i]);
        } else {
            second.push(units[i]);
        }
    }
    assert(second@ =~= units@.skip(cut as int));
    LabelLines::Two(
        crate::utf16::decode(first.as_slice()),
        crate::utf16::decode(second.as_slice()),
    )
}

/// A page dot; lengths in millionths of a pixel.
#[derive(Clone, Copy, Debug, PartialEq, Eq, Structural)]
pub struct Dot {
    pub x: i128,
    pub y: i128,
    pub radius: i128,
    pub alpha: u32,
    /// The glow around the dot of the page that is shown.
    pub glow_alpha: Option<u32>,
}

/// How much page `p` is the page that is shown, in millionths: all of it at rest, less the farther
/// the top row is from it.
pub open spec fn presence(top_row: int, rows: int, p: int) -> int {
    let at = top_row / rows;
    let away = if at > p * 1_000_000 {
        at - p * 1_000_000
    } else {
        p * 1_000_000 - at
    };
    if away > 1_000_000 {
        0
    } else {
        1_000_000 - away
    }
}

/// The dot of page `p` of `pages` for a window of DPI `dpi`.
pub open spec fn dot_of(f: Fence, m: Metrics, dpi: int, pages: int, p: int) -> (
    int,
    int,
    int,
    int,
    Option<int>,
) {
    let act = presence(f.top_row as int, rows(f.cfg.h as int, m), p);
    let size = 2_500_000 * dpi / 96;
    let spacing = 15_000_000 * dpi / 96;
    (
        (2 * f.cfg.w - 2 * m.margin - m.rail) * 500_000,
        ((m.title_h + f.cfg.h) * 1_000_000 + spacing * (2 * p - pages + 1)) / 2,
        size + size * 8 * act / 10_000_000,
        0x4d + 178 * act / 1_000_000,
        if act > 10_000 {
            Some(0x40 * act / 1_000_000)
        } else {
            None
        },
    )
}

/// At rest on page `q` the dot of that page is the largest and brightest, with a glow, and all others
/// look the same; between two pages the dots of these two share that.
pub proof fn the_dot_of_the_page_stands_out(
    f: Fence,
    m: Metrics,
    dpi: int,
    pages: int,
    q: int,
    p: int,
)
    requires
        m.wf(),
        dpi >= 96,
        rows(f.cfg.h as int, m) > 0,
        0 <= q,
        0 <= p,
        f.top_row == q * rows(f.cfg.h as int, m) * ROW,
    ensures
        ({
            let d = dot_of(f, m, dpi, pages, p);
            let size = 2_500_000 * dpi / 96;
            &&& p == q ==> d.3 == 255 && d.4 == Some(0x40int) && d.2 == size + size * 8 / 10
            &&& p != q ==> d.3 == 0x4d && d.4 is None && d.2 == size
        }),
{
    let shown = rows(f.cfg.h as int, m);
    let t = f.top_row as int;
    assert(t == (q * 1_000_000) * shown) by (nonlinear_arith)
        requires
            t == q * shown * 1_000_000,
    ;
    vstd::arithmetic::div_mod::lemma_div_by_multiple(q * 1_000_000, shown);
    let size = 2_500_000 * dpi / 96;
    let act = presence(t, shown, p);
    assert(p == q ==> act == 1_000_000);
    assert(p != q ==> act == 0);
    assert(act == 0 ==> size * 8 * act == 0) by (nonlinear_arith);
    assert(act == 1_000_000 ==> size * 8 * act == size * 8 * 1_000_000) by (nonlinear_arith);
}

/// The dots stand below one another, as far apart each time, and their middle is the middle of what is
/// below the title.
pub proof fn the_dots_are_centred(f: Fence, m: Metrics, dpi: int, pages: int, p: int)
    requires
        m.wf(),
        dpi >= 96,
        0 <= p < pages,
    ensures
        ({
            let y = dot_of(f, m, dpi, pages, p).1;
            let next = dot_of(f, m, dpi, pages, p + 1).1;
            let mirror = dot_of(f, m, dpi, pages, pages - 1 - p).1;
            &&& next - y == 15_000_000 * dpi / 96
            &&& (m.title_h + f.cfg.h) * 1_000_000 - 1 <= y + mirror <= (m.title_h + f.cfg.h)
                * 1_000_000
            &&& dot_of(f, m, dpi, pages, p).0 * 2 == (f.cfg.w - m.margin) * 1_000_000 + (f.cfg.w
                - m.margin - m.rail) * 1_000_000
        }),
{
    let s = 15_000_000 * dpi / 96;
    let k = 2 * p - pages + 1;
    assert(s * (2 * (p + 1) - pages + 1) == s * k + 2 * s) by (nonlinear_arith)
        requires
            k == 2 * p - pages + 1,
    ;
    assert(s * (2 * (pages - 1 - p) - pages + 1) == -(s * k)) by (nonlinear_arith)
        requires
            k == 2 * p - pages + 1,
    ;
}

/// The dots of the pages, from the first: none where there is one page or no row.
pub fn page_dots(f: &Fence, m: &Metrics, dpi: u32) -> (dots: Vec<Dot>)
    requires
        m.wf(),
        f.wf(),
    ensures
        dots@.len() == (if pages_of(*f, *m) <= 1 || rows(f.cfg.h as int, *m) <= 0 {
            0
        } else {
            pages_of(*f, *m)
        }),
        forall|p: int|
            0 <= p < dots@.len() ==> {
                let d = #[trigger] dots@[p];
                let s = dot_of(*f, *m, dpi as int, pages_of(*f, *m), p);
                d.x == s.0 && d.y == s.1 && d.radius == s.2 && d.alpha == s.3 && (
                d.glow_alpha matches Some(g) ==> s.4 == Some(g as int)) && (d.glow_alpha is None
                    ==> s.4 is None)
            },
{
    let mut dots: Vec<Dot> = Vec::new();
    let pages: usize = total_pages(f, m);
    let (_, row_count) = grid_dims(&f.cfg, m);
    if pages <= 1 || row_count <= 0 {
        return dots;
    }
    let at: i128 = f.top_row / row_count as i128;
    proof {
        let (t, r) = (f.top_row as int, row_count as int);
        assert(0 <= t / r <= t) by (nonlinear_arith)
            requires
                t >= 0,
                r >= 1,
        ;
    }
    let size: i128 = 2_500_000 * dpi as i128 / 96;
    let spacing: i128 = 15_000_000 * dpi as i128 / 96;
    let x: i128 = (2 * f.cfg.w as i128 - 2 * m.margin as i128 - m.rail as i128) * 500_000;
    let middle: i128 = (m.title_h as i128 + f.cfg.h as i128) * 1_000_000;
    for p in 0..pages
        invariant
            m.wf(),
            f.wf(),
            pages == pages_of(*f, *m),
            row_count == rows(f.cfg.h as int, *m),
            row_count > 0,
            at == f.top_row as int / row_count as int,
            0 <= at < super::grid::MAX_TOP,
            size == 2_500_000 * dpi / 96,
            spacing == 15_000_000 * dpi / 96,
            x == (2 * f.cfg.w - 2 * m.margin - m.rail) * 500_000,
            middle == (m.title_h + f.cfg.h) * 1_000_000,
            dots@.len() == p,
            forall|k: int|
                0 <= k < p ==> {
                    let d = #[trigger] dots@[k];
                    let s = dot_of(*f, *m, dpi as int, pages as int, k);
                    d.x == s.0 && d.y == s.1 && d.radius == s.2 && d.alpha == s.3 && (
                    d.glow_alpha matches Some(g) ==> s.4 == Some(g as int)) && (d.glow_alpha is None
                        ==> s.4 is None)
                },
    {
        let here: i128 = p as i128 * 1_000_000;
        let away: i128 = if at > here {
            at - here
        } else {
            here - at
        };
        let act: i128 = if away > 1_000_000 {
            0
        } else {
            1_000_000 - away
        };
        proof {
            assert(0 <= size * 8 * act <= 0x1_0000_0000_0000_0000 * 8_000_000)
                by (nonlinear_arith)
                requires
                    0 <= size <= 0x1_0000_0000_0000_0000,
                    0 <= act <= 1_000_000,
            ;
            let k = 2 * p - pages + 1;
            assert(-0x1_0000_0000_0000_0000 * 0x4_0000_0000_0000 <= spacing * k
                <= 0x2_0000_0000_0000_0001 * 0x4_0000_0000_0000) by (nonlinear_arith)
                requires
                    0 <= spacing <= 0x4_0000_0000_0000,
                    -0x1_0000_0000_0000_0000 <= k <= 0x2_0000_0000_0000_0001,
            ;
        }
        let shift: i128 = spacing * (2 * p as i128 - pages as i128 + 1);
        let sum: i128 = middle + shift;
        let y: i128 = if sum >= 0 {
            sum / 2
        } else {
            -((1 - sum) / 2)
        };
        dots.push(
            Dot {
                x,
                y,
                radius: size + size * 8 * act / 10_000_000,
                alpha: (0x4d + 178 * act / 1_000_000) as u32,
                glow_alpha: if act > 10_000 {
                    Some((0x40 * act / 1_000_000) as u32)
                } else {
                    None
                },
            },
        );
    }
    dots
}

/// Whether a measured page turn begins: where performance is recorded and there is a page to turn to.
/// It turns to the second page, and `repeats` turns are made in all.
pub fn start_perf_animation(f: &mut Fence, enabled: bool, repeats: u32, now: u64, m: &Metrics) -> (
    begun: bool)
    requires
        m.wf(),
        old(f).wf(),
    ensures
        begun == (enabled && pages_of(*old(f), *m) > 1),
        final(f).wf(),
        !begun ==> *final(f) == *old(f),
        begun ==> *final(f) == turn_stepped(
            turn_begun(
                Fence {
                    perf_anim_remaining: if repeats == 0 {
                        0
                    } else {
                        (repeats - 1) as u32
                    },
                    model: FenceModel { page: 1, ..old(f).model },
                    ..*old(f)
                },
                now,
            ),
            *m,
            now,
        ),
{
    if !enabled || total_pages(f, m) <= 1 {
        return false;
    }
    f.perf_anim_remaining = if repeats == 0 {
        0
    } else {
        repeats - 1
    };
    f.model.page = 1;
    start_page_anim(f, now);
    step_page_anim(f, m, now);
    true
}

/// Begins the next measured page turn, between the first two pages, as long as one is left.
pub fn continue_perf_animation(f: &mut Fence, now: u64) -> (begun: bool)
    requires
        old(f).wf(),
    ensures
        begun == (old(f).perf_anim_remaining > 0),
        final(f).wf(),
        !begun ==> *final(f) == *old(f),
        begun ==> *final(f) == turn_begun(
            Fence {
                perf_anim_remaining: (old(f).perf_anim_remaining - 1) as u32,
                model: FenceModel {
                    page: if old(f).model.page == 0 {
                        1
                    } else {
                        0
                    },
                    ..old(f).model
                },
                ..*old(f)
            },
            now,
        ),
{
    if f.perf_anim_remaining == 0 {
        return false;
    }
    f.perf_anim_remaining = f.perf_anim_remaining - 1;
    f.model.page = if f.model.page == 0 {
        1
    } else {
        0
    };
    start_page_anim(f, now);
    true
}

} // verus!
