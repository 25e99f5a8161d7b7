//! What a fence's window does on each message: following the pointer, turning pages, changing DPI.

use super::grid::{
    a_pull_is_short, columns, edge_at, entry_at, grid_dims, held, hit_item, hold_inside,
    magnet_size_smooth, magnet_smooth, pages_of, pulled, resize_dir_at, start_page_anim,
    step_page_anim, sync_page, synced, the_pointer_hits_the_entry_of_its_cell, total_pages,
    turn_begun, turn_stepped, Metrics, ROW,
};
use super::interaction::{FenceInteraction, ResizeDir};
use super::model::FenceModel;
use super::Fence;
use crate::geometry::Area;
use crate::config::{extent_for_dpi, saturated, scale_extent_for_dpi, FenceCfg};
use vstd::prelude::*;

verus! {

/// The number in the low 16 bits of `n`, with its sign.
pub open spec fn signed16(n: int) -> int {
    let u = n % 0x1_0000;
    if u < 0x8000 {
        u
    } else {
        u - 0x1_0000
    }
}

/// The number in 16 bits is the one between -32768 and 32767 that leaves the same bits, and two of them that
/// are packed into one come back, the first from the low half.
pub proof fn packed_numbers_come_back(a: int, b: int, more: int)
    requires
        -0x8000 <= a < 0x8000,
        -0x8000 <= b < 0x8000,
    ensures
        ({
            let packed = (a % 0x1_0000) + 0x1_0000 * (b % 0x1_0000) + 0x1_0000_0000 * more;
            signed16(packed) == a && signed16(packed / 0x1_0000) == b
        }),
{
    let packed = (a % 0x1_0000) + 0x1_0000 * (b % 0x1_0000) + 0x1_0000_0000 * more;
    assert(packed / 0x1_0000 == b % 0x1_0000 + 0x1_0000 * more);
    assert(packed % 0x1_0000 == a % 0x1_0000);
}

/// The horizontal coordinate in a message parameter.
pub fn low16(v: usize) -> (n: i32)
    ensures
        n == signed16(v as int),
        -0x8000 <= n < 0x8000,
{
    let u: i32 = (v % 0x1_0000) as i32;
    if u < 0x8000 {
        u
    } else {
        u - 0x1_0000
    }
}

/// The vertical coordinate, or the turn of the wheel, in a message parameter.
pub fn high16(v: usize) -> (n: i32)
    ensures
        n == signed16(v as int / 0x1_0000),
        -0x8000 <= n < 0x8000,
{
    low16(v / 0x1_0000)
}

/// The fence whose window is `hwnd`.
pub open spec fn is_fence_of(fences: Seq<Fence>, hwnd: isize, at: Option<usize>) -> bool {
    match at {
        Some(i) => i < fences.len() && fences[i as int].valid && fences[i as int].hwnd == hwnd
            && forall|j: int|
            0 <= j < i ==> !((#[trigger] fences[j]).valid && fences[j].hwnd == hwnd),
        None => forall|j: int|
            0 <= j < fences.len() ==> !((#[trigger] fences[j]).valid && fences[j].hwnd == hwnd),
    }
}

/// The fence of a window is the first, at `k`, that has a window and whose window it is; where there is
/// none, none is found.
pub proof fn the_fence_of_a_window_is_found(
    fences: Seq<Fence>,
    hwnd: isize,
    at: Option<usize>,
    k: int,
)
    requires
        is_fence_of(fences, hwnd, at),
        0 <= k <= fences.len() <= usize::MAX,
        forall|j: int| 0 <= j < k ==> (#[trigger] fences[j]).hwnd != hwnd || !fences[j].valid,
        k < fences.len() ==> fences[k].hwnd == hwnd && fences[k].valid,
    ensures
        at == if k < fences.len() {
            Some(k as usize)
        } else {
            None
        },
{
    if k < fences.len() {
        assert(fences[k].valid && fences[k].hwnd == hwnd);
        if at is Some && at->0 < k {
            assert(fences[at->0 as int].hwnd != hwnd || !fences[at->0 as int].valid);
        }
    } else if at is Some {
        assert(fences[at->0 as int].hwnd != hwnd || !fences[at->0 as int].valid);
    }
}

/// See [`is_fence_of`].
pub fn fence_idx(fences: &Vec<Fence>, hwnd: isize) -> (at: Option<usize>)
    ensures
        is_fence_of(fences@, hwnd, at),
{
    for i in 0..fences.len()
        invariant
            forall|j: int|
                0 <= j < i ==> !((#[trigger] fences@[j]).valid && fences@[j].hwnd == hwnd),
    {
        if fences[i].valid && fences[i].hwnd == hwnd {
            return Some(i);
        }
    }
    None
}

/// What a pointer action that was cut off had changed.
#[derive(Clone, Copy, Debug, PartialEq, Eq, Structural)]
pub struct CancelledPointerInteraction {
    /// The fence had been moved or resized: the settings are to be kept as it stands, without
    /// settling it.
    pub geometry_changed: bool,
    /// It looks different now.
    pub visual_changed: bool,
}

/// `i` with every trace of a press gone.
pub open spec fn released(i: FenceInteraction) -> FenceInteraction {
    FenceInteraction {
        moving: false,
        resizing: None,
        drag_moved: false,
        drag_idx: None,
        hover: None,
        ..i
    }
}

/// What cutting off `i` changes.
pub open spec fn cut_off(i: FenceInteraction) -> CancelledPointerInteraction {
    CancelledPointerInteraction {
        geometry_changed: (i.moving || i.resizing is Some) && i.drag_moved,
        visual_changed: i.drag_idx is Some || i.hover is Some,
    }
}

/// Clears everything that hangs on owning the pointer. The system can take the pointer away without
/// telling of a release; a fence that still believed itself moving would jump to a later, unrelated
/// place.
pub fn reset_pointer_interaction(f: &mut Fence) -> (outcome: CancelledPointerInteraction)
    ensures
        outcome == cut_off(old(f).interaction),
        *final(f) == (Fence { interaction: released(old(f).interaction), ..*old(f) }),
{
    let geometry_changed: bool = (f.interaction.moving || f.interaction.resizing.is_some())
        && f.interaction.drag_moved;
    let visual_changed: bool = f.interaction.drag_idx.is_some() || f.interaction.hover.is_some();
    f.interaction.moving = false;
    f.interaction.resizing = None;
    f.interaction.drag_moved = false;
    f.interaction.drag_idx = None;
    f.interaction.hover = None;
    CancelledPointerInteraction { geometry_changed, visual_changed }
}

/// After a cut no press is followed, so no later movement moves, resizes or drags anything.
pub proof fn a_cut_leaves_nothing_to_follow(i: FenceInteraction)
    ensures
        !released(i).is_active(),
        !released(i).drag_moved,
        cut_off(released(i)) == (CancelledPointerInteraction {
            geometry_changed: false,
            visual_changed: false,
        }),
{
}

/// A place and size on the screen.
#[derive(Clone, Copy, Debug, PartialEq, Eq, Structural)]
pub struct Placement {
    pub x: i32,
    pub y: i32,
    pub w: i32,
    pub h: i32,
}

/// Where the pointer is when it has moved.
#[derive(Clone, Copy, Debug)]
pub struct PointerMove {
    /// In the window.
    pub x: i32,
    pub y: i32,
    /// On the screen.
    pub cursor: (i32, i32),
    pub left_button: bool,
    /// The window on the screen.
    pub window: Area,
    /// What the taskbar leaves of the window's screen.
    pub work: Area,
    /// How far the system asks a drag to go.
    pub drag_threshold: i32,
    /// Whether fences fade while the pointer is elsewhere.
    pub ghost_mode: bool,
}

/// What a movement of the pointer asks for.
pub struct MoveEffects {
    /// The press that was being followed is over without a release.
    pub cancelled: Option<CancelledPointerInteraction>,
    /// Ask to be told when the pointer leaves.
    pub track_leave: bool,
    /// Put the window there.
    pub place: Option<Placement>,
    /// Whether the placement changes the window's size too.
    pub resized: bool,
    /// Give up the pointer and drag this file out.
    pub drag_out: Option<String>,
    pub render: bool,
}

/// Where a fence of size `w` and `h` goes while it is moved: with the pointer, pulled to the grid,
/// within the work area.
pub open spec fn moved_to(p: PointerMove, off: (i32, i32), w: int, h: int, m: Metrics) -> (int, int) {
    (
        held(
            saturated(
                pulled(saturated(p.cursor.0 - off.0), m.cell_w as int, p.work.left as int),
            ),
            p.work.left as int,
            p.work.right - w,
        ),
        held(
            saturated(pulled(saturated(p.cursor.1 - off.1), m.cell_h as int, p.work.top as int)),
            p.work.top as int,
            p.work.bottom - h,
        ),
    )
}

/// Whether `dir` moves the right edge.
pub open spec fn is_east(dir: ResizeDir) -> bool {
    dir == ResizeDir::E || dir == ResizeDir::NE || dir == ResizeDir::SE
}

/// Whether `dir` moves the left edge.
pub open spec fn is_west(dir: ResizeDir) -> bool {
    dir == ResizeDir::W || dir == ResizeDir::NW || dir == ResizeDir::SW
}

/// Whether `dir` moves the lower edge.
pub open spec fn is_south(dir: ResizeDir) -> bool {
    dir == ResizeDir::S || dir == ResizeDir::SE || dir == ResizeDir::SW
}

/// Whether `dir` moves the upper edge.
pub open spec fn is_north(dir: ResizeDir) -> bool {
    dir == ResizeDir::N || dir == ResizeDir::NE || dir == ResizeDir::NW
}

/// One span of a window (`from` up to `to`) as the pointer at `at` pulls its far edge or its near
/// edge, never shorter than `min`. Its begin and length.
pub open spec fn stretched(from: int, to: int, at: int, min: int, far: bool, near: bool) -> (int, int) {
    if far {
        (from, if at - from < min {
            min
        } else {
            at - from
        })
    } else if near {
        let begin = if at < to - min {
            at
        } else {
            to - min
        };
        (begin, to - begin)
    } else {
        (from, to - from)
    }
}

/// A length pulled to whole cells, but not past `limit` from `begin` (unless `min` is longer).
pub open spec fn fitted(begin: int, len: int, cell: int, frame: int, limit: int, min: int) -> int {
    let pulled_len = saturated(pulled(saturated(len), cell, frame));
    let most = if limit - begin < min {
        min
    } else {
        limit - begin
    };
    if pulled_len < most {
        pulled_len
    } else {
        most
    }
}

/// The span that a resized window takes in one direction.
pub open spec fn resized_span(
    from: int,
    to: int,
    at: int,
    min: int,
    far: bool,
    near: bool,
    cell: int,
    frame: int,
    limit: int,
) -> (int, int) {
    let (begin, len) = stretched(from, to, at, min, far, near);
    (begin, fitted(begin, len, cell, frame, limit, min))
}

/// Where a window goes while it is resized by `dir`.
pub open spec fn resized_to(p: PointerMove, dir: ResizeDir, m: Metrics) -> (int, int, int, int) {
    let (x, w) = resized_span(
        p.window.left as int,
        p.window.right as int,
        p.cursor.0 as int,
        m.min_w as int,
        is_east(dir),
        is_west(dir),
        m.cell_w as int,
        m.frame_w(),
        p.work.right as int,
    );
    let (y, h) = resized_span(
        p.window.top as int,
        p.window.bottom as int,
        p.cursor.1 as int,
        m.min_h as int,
        is_south(dir),
        is_north(dir),
        m.cell_h as int,
        m.frame_h(),
        p.work.bottom as int,
    );
    (x, y, w, h)
}

fn sat(n: i64) -> (out: i32)
    ensures
        out == saturated(n as int),
{
    if n < i32::MIN as i64 {
        i32::MIN
    } else if n > i32::MAX as i64 {
        i32::MAX
    } else {
        n as i32
    }
}

fn resize_span(
    from: i32,
    to: i32,
    at: i32,
    min: i32,
    far: bool,
    near: bool,
    cell: i32,
    frame: i32,
    limit: i32,
) -> (span: (i32, i32))
    requires
        0 < min <= 0x10_0000,
        0 < cell,
    ensures
        span.0 == saturated(
            resized_span(
                from as int,
                to as int,
                at as int,
                min as int,
                far,
                near,
                cell as int,
                frame as int,
                limit as int,
            ).0,
        ),
        span.1 == saturated(
            resized_span(
                from as int,
                to as int,
                at as int,
                min as int,
                far,
                near,
                cell as int,
                frame as int,
                limit as int,
            ).1,
        ),
{
    let (begin, len): (i64, i64) = if far {
        let len: i64 = at as i64 - from as i64;
        (from as i64, if len < min as i64 {
            min as i64
        } else {
            len
        })
    } else if near {
        let most: i64 = to as i64 - min as i64;
        let begin: i64 = if (at as i64) < most {
            at as i64
        } else {
            most
        };
        (begin, to as i64 - begin)
    } else {
        (from as i64, to as i64 - from as i64)
    };
    let pulled_len: i32 = magnet_size_smooth(sat(len), cell, frame);
    let room: i64 = limit as i64 - begin;
    let most: i64 = if room < min as i64 {
        min as i64
    } else {
        room
    };
    let len: i64 = if (pulled_len as i64) < most {
        pulled_len as i64
    } else {
        most
    };
    (sat(begin), sat(len))
}

/// How far a press has to go to become a drag: what the system asks, at least 4 pixels.
pub open spec fn drag_distance(threshold: int) -> int {
    if threshold < 4 {
        4
    } else {
        threshold
    }
}

/// Whether the pointer at (`x`, `y`) has gone far enough from `down` to drag.
pub open spec fn is_drag(x: int, y: int, down: (i32, i32), threshold: int) -> bool {
    let t = drag_distance(threshold);
    x - down.0 >= t || down.0 - x >= t || y - down.1 >= t || down.1 - y >= t
}

/// The fence after the pointer moved to where `p` says, and what that asks for.
pub open spec fn pointer_moved(
    before: Fence,
    after: Fence,
    p: PointerMove,
    m: Metrics,
    e: MoveEffects,
) -> bool {
    let i = before.interaction;
    if i.is_active() && !p.left_button {
        &&& e.cancelled == Some(cut_off(i))
        &&& !e.track_leave && e.place is None && !e.resized && e.drag_out is None
        &&& e.render == cut_off(i).visual_changed
        &&& after == (Fence { interaction: released(i), ..before })
    } else {
        let shows = p.ghost_mode && !i.hover_visible;
        let j = FenceInteraction { hover_visible: i.hover_visible || p.ghost_mode, ..i };
        &&& e.cancelled is None
        &&& e.track_leave == shows
        &&& if i.moving {
            let at = moved_to(p, i.move_off, before.cfg.w as int, before.cfg.h as int, m);
            &&& e.drag_out is None && !e.resized && e.render == shows
            &&& e.place is Some
            &&& e.place->0.x == at.0 && e.place->0.y == at.1
            &&& e.place->0.w == before.cfg.w && e.place->0.h == before.cfg.h
            &&& after == (Fence {
                cfg: FenceCfg { x: at.0 as i32, y: at.1 as i32, ..before.cfg },
                interaction: FenceInteraction { drag_moved: true, ..j },
                ..before
            })
        } else if i.resizing is Some {
            let r = resized_to(p, i.resizing->0, m);
            &&& e.drag_out is None && e.resized && e.render
            &&& e.place == Some(
                Placement {
                    x: saturated(r.0) as i32,
                    y: saturated(r.1) as i32,
                    w: saturated(r.2) as i32,
                    h: saturated(r.3) as i32,
                },
            )
            &&& after == (Fence {
                interaction: FenceInteraction { drag_moved: true, ..j },
                ..synced(
                    Fence {
                        cfg: FenceCfg {
                            x: saturated(r.0) as i32,
                            y: saturated(r.1) as i32,
                            w: saturated(r.2) as i32,
                            h: saturated(r.3) as i32,
                            ..before.cfg
                        },
                        interaction: j,
                        ..before
                    },
                    m,
                )
            })
        } else if i.drag_idx is Some {
            &&& e.place is None && !e.resized
            &&& if is_drag(p.x as int, p.y as int, i.drag_down, p.drag_threshold as int) {
                &&& e.render
                &&& if i.drag_idx->0 < before.model.entries@.len() {
                    e.drag_out is Some && e.drag_out->0@
                        == before.model.entries@[i.drag_idx->0 as int].path@
                } else {
                    e.drag_out is None
                }
                &&& after == (Fence {
                    interaction: FenceInteraction { drag_idx: None, hover: None, ..j },
                    ..before
                })
            } else {
                e.render == shows && e.drag_out is None && after == (Fence {
                    interaction: j,
                    ..before
                })
            }
        } else {
            let hit = hovered(before, p, m);
            &&& e.place is None && !e.resized && e.drag_out is None
            &&& e.render == (shows || hit != i.hover)
            &&& after == (Fence {
                interaction: FenceInteraction { hover: hit, ..j },
                ..before
            })
        }
    }
}

/// The entry under the pointer.
pub open spec fn hovered(f: Fence, p: PointerMove, m: Metrics) -> Option<usize> {
    match entry_at(f, p.x as int, p.y as int, columns(f.cfg.w as int, m), m) {
        Some(i) => Some(i as usize),
        None => None,
    }
}

/// A fence that is moved keeps its size, stays in the work area where it fits, and stands where the
/// pointer has taken it to within half a cell, or as near to that as the work area allows.
pub proof fn a_moved_fence_follows_the_pointer(
    before: Fence,
    after: Fence,
    p: PointerMove,
    m: Metrics,
    e: MoveEffects,
)
    requires
        m.wf(),
        pointer_moved(before, after, p, m, e),
        before.interaction.moving,
        p.left_button,
        p.work.left <= p.work.right - before.cfg.w,
        p.work.top <= p.work.bottom - before.cfg.h,
        before.cfg.w >= 0,
        before.cfg.h >= 0,
    ensures
        ({
            let c = after.cfg;
            let (x, y) = (
                p.cursor.0 - before.interaction.move_off.0,
                p.cursor.1 - before.interaction.move_off.1,
            );
            let near_x = if x < p.work.left {
                p.work.left as int
            } else if x + c.w > p.work.right {
                p.work.right - c.w
            } else {
                x
            };
            let near_y = if y < p.work.top {
                p.work.top as int
            } else if y + c.h > p.work.bottom {
                p.work.bottom - c.h
            } else {
                y
            };
            &&& c.w == before.cfg.w && c.h == before.cfg.h
            &&& p.work.left <= c.x && c.x + c.w <= p.work.right
            &&& p.work.top <= c.y && c.y + c.h <= p.work.bottom
            &&& -m.cell_w <= 2 * (c.x - near_x) <= m.cell_w
            &&& -m.cell_h <= 2 * (c.y - near_y) <= m.cell_h
            &&& after.interaction.moving && after.interaction.drag_moved
            &&& after.interaction.move_off == before.interaction.move_off
            &&& e.place == Some(Placement { x: c.x, y: c.y, w: c.w, h: c.h })
        }),
{
    let i = before.interaction;
    a_pull_is_short(
        saturated(p.cursor.0 - i.move_off.0),
        m.cell_w as int,
        p.work.left as int,
    );
    a_pull_is_short(saturated(p.cursor.1 - i.move_off.1), m.cell_h as int, p.work.top as int);
}

/// A fence that is pressed on its title and then dragged goes as far as the pointer does, to within
/// half a cell, as long as it stays in the work area.
pub proof fn a_dragged_fence_goes_as_far_as_the_pointer(
    before: Fence,
    held_down: Fence,
    after: Fence,
    x: int,
    y: int,
    cursor: (i32, i32),
    window: Area,
    avoid: bool,
    p: PointerMove,
    m: Metrics,
    pe: PressEffects,
    me: MoveEffects,
)
    requires
        m.wf(),
        y < m.title_h,
        pressed(before, held_down, x, y, cursor, window, avoid, m, pe),
        pointer_moved(held_down, after, p, m, me),
        p.left_button,
        window.left == before.cfg.x,
        window.top == before.cfg.y,
        before.cfg.w >= 0,
        before.cfg.h >= 0,
        i32::MIN <= cursor.0 - window.left <= i32::MAX,
        i32::MIN <= cursor.1 - window.top <= i32::MAX,
        p.work.left <= before.cfg.x + (p.cursor.0 - cursor.0),
        before.cfg.x + (p.cursor.0 - cursor.0) + before.cfg.w <= p.work.right,
        p.work.top <= before.cfg.y + (p.cursor.1 - cursor.1),
        before.cfg.y + (p.cursor.1 - cursor.1) + before.cfg.h <= p.work.bottom,
    ensures
        -m.cell_w <= 2 * (after.cfg.x - before.cfg.x - (p.cursor.0 - cursor.0)) <= m.cell_w,
        -m.cell_h <= 2 * (after.cfg.y - before.cfg.y - (p.cursor.1 - cursor.1)) <= m.cell_h,
        after.cfg.w == before.cfg.w,
        after.cfg.h == before.cfg.h,
{
    a_moved_fence_follows_the_pointer(held_down, after, p, m, me);
}

/// One span of a window that is resized: an edge that is not pulled begins where it was; the pulled
/// one is where the pointer is, to within half a cell, but for the least length and the limit.
pub proof fn a_resized_span_follows_the_pointer(
    from: int,
    to: int,
    at: int,
    min: int,
    far: bool,
    near: bool,
    cell: int,
    frame: int,
    limit: int,
)
    requires
        cell > 0,
        0 < min,
        from <= to,
        i32::MIN <= from,
        to <= i32::MAX,
        far ==> i32::MIN <= at - from <= i32::MAX,
        near ==> i32::MIN <= to - at <= i32::MAX,
        to - from <= i32::MAX,
        min <= i32::MAX,
        -0x10_0000 <= frame <= 0x10_0000,
    ensures
        ({
            let (begin, len) = resized_span(from, to, at, min, far, near, cell, frame, limit);
            let most = if limit - begin < min {
                min
            } else {
                limit - begin
            };
            &&& far || !near ==> begin == from
            &&& near && !far ==> begin <= at && begin <= to - min && (begin == at || begin == to
                - min)
            &&& len <= most
            &&& far && at - from >= min ==> 2 * (from + len - at) <= cell && (2 * (at - from
                - len) <= cell || len == most)
            &&& far && at - from < min ==> 2 * (len - min) <= cell && (2 * (min - len) <= cell
                || len == most)
            &&& !far ==> 2 * (begin + len - to) <= cell && (2 * (to - begin - len) <= cell || len
                == most)
        }),
{
    let (begin, len) = stretched(from, to, at, min, far, near);
    a_pull_is_short(saturated(len), cell, frame);
    let pulled_len = pulled(saturated(len), cell, frame);
}

/// The edge that a resizing moves is the one that the press was near; where the press was near none to
/// the left or right, the fence does not begin further left or right, and likewise up and down.
pub proof fn a_press_takes_hold_of_the_edge_under_it(
    w: int,
    h: int,
    x: int,
    y: int,
    m: Metrics,
    p: PointerMove,
)
    requires
        m.wf(),
        edge_at(w, h, m.edge as int, x, y) is Some,
    ensures
        ({
            let dir = edge_at(w, h, m.edge as int, x, y)->0;
            let r = resized_to(p, dir, m);
            &&& is_west(dir) == (x < m.edge)
            &&& is_east(dir) == (x >= m.edge && x >= w - m.edge)
            &&& is_north(dir) == (y < m.edge)
            &&& is_south(dir) == (y >= m.edge && y >= h - m.edge)
            &&& x >= m.edge ==> r.0 == p.window.left
            &&& y >= m.edge ==> r.1 == p.window.top
            &&& x < m.edge && p.cursor.0 + m.min_w <= p.window.right ==> r.0 == p.cursor.0
            &&& y < m.edge && p.cursor.1 + m.min_h <= p.window.bottom ==> r.1 == p.cursor.1
        }),
{
}

/// A press becomes a drag once it has gone 4 pixels, or as far as the system asks where that is more,
/// to any side.
pub proof fn a_drag_needs_its_distance(x: int, y: int, down: (i32, i32), threshold: int, d: int)
    requires
        d == if threshold > 4 {
            threshold
        } else {
            4
        },
    ensures
        is_drag(x, y, down, threshold) <==> !(-d < x - down.0 < d && -d < y - down.1 < d),
{
}

fn same_item(a: Option<usize>, b: Option<usize>) -> (same: bool)
    ensures
        same == (a == b),
{
    match (a, b) {
        (Some(x), Some(y)) => x == y,
        (None, None) => true,
        _ => false,
    }
}

/// Follows the pointer; see [`pointer_moved`].
pub fn on_pointer_move(f: &mut Fence, p: &PointerMove, m: &Metrics) -> (e: MoveEffects)
    requires
        m.wf(),
        old(f).wf(),
    ensures
        pointer_moved(*old(f), *final(f), *p, *m, e),
        final(f).wf(),
{
    let active: bool = f.interaction.moving || f.interaction.resizing.is_some()
        || f.interaction.drag_idx.is_some();
    if active && !p.left_button {
        let outcome = reset_pointer_interaction(f);
        return MoveEffects {
            cancelled: Some(outcome),
            track_leave: false,
            place: None,
            resized: false,
            drag_out: None,
            render: outcome.visual_changed,
        };
    }
    let shows: bool = p.ghost_mode && !f.interaction.hover_visible;
    if shows {
        f.interaction.hover_visible = true;
    }
    if f.interaction.moving {
        let vx: i32 = sat(p.cursor.0 as i64 - f.interaction.move_off.0 as i64);
        let vy: i32 = sat(p.cursor.1 as i64 - f.interaction.move_off.1 as i64);
        let nx: i32 = hold_inside(
            magnet_smooth(vx, m.cell_w, p.work.left),
            f.cfg.w,
            p.work.left,
            p.work.right,
        );
        let ny: i32 = hold_inside(
            magnet_smooth(vy, m.cell_h, p.work.top),
            f.cfg.h,
            p.work.top,
            p.work.bottom,
        );
        f.cfg.x = nx;
        f.cfg.y = ny;
        f.interaction.drag_moved = true;
        return MoveEffects {
            cancelled: None,
            track_leave: shows,
            place: Some(Placement { x: nx, y: ny, w: f.cfg.w, h: f.cfg.h }),
            resized: false,
            drag_out: None,
            render: shows,
        };
    }
    match f.interaction.resizing {
        Some(dir) => {
            let east: bool = dir == ResizeDir::E || dir == ResizeDir::NE || dir == ResizeDir::SE;
            let west: bool = dir == ResizeDir::W || dir == ResizeDir::NW || dir == ResizeDir::SW;
            let south: bool = dir == ResizeDir::S || dir == ResizeDir::SE || dir == ResizeDir::SW;
            let north: bool = dir == ResizeDir::N || dir == ResizeDir::NE || dir == ResizeDir::NW;
            let (x, w) = resize_span(
                p.window.left,
                p.window.right,
                p.cursor.0,
                m.min_w,
                east,
                west,
                m.cell_w,
                2 * m.margin + m.rail,
                p.work.right,
            );
            let (y, h) = resize_span(
                p.window.top,
                p.window.bottom,
                p.cursor.1,
                m.min_h,
                south,
                north,
                m.cell_h,
                m.title_h + 2 * m.margin,
                p.work.bottom,
            );
            f.cfg.x = x;
            f.cfg.y = y;
            f.cfg.w = w;
            f.cfg.h = h;
            sync_page(f, m);
            f.interaction.drag_moved = true;
            MoveEffects {
                cancelled: None,
                track_leave: shows,
                place: Some(Placement { x, y, w, h }),
                resized: true,
                drag_out: None,
                render: true,
            }
        },
        None => match f.interaction.drag_idx {
            Some(idx) => {
                let t: i64 = if p.drag_threshold < 4 {
                    4
                } else {
                    p.drag_threshold as i64
                };
                let dx: i64 = p.x as i64 - f.interaction.drag_down.0 as i64;
                let dy: i64 = p.y as i64 - f.interaction.drag_down.1 as i64;
                if dx >= t || -dx >= t || dy >= t || -dy >= t {
                    f.interaction.drag_idx = None;
                    f.interaction.hover = None;
                    let drag_out: Option<String> = if idx < f.model.entries.len() {
                        Some(f.model.entries[idx].path.clone())
                    } else {
                        None
                    };
                    MoveEffects {
                        cancelled: None,
                        track_leave: shows,
                        place: None,
                        resized: false,
                        drag_out,
                        render: true,
                    }
                } else {
                    MoveEffects {
                        cancelled: None,
                        track_leave: shows,
                        place: None,
                        resized: false,
                        drag_out: None,
                        render: shows,
                    }
                }
            },
            None => {
                let (cols, _) = grid_dims(&f.cfg, m);
                let hit: Option<usize> = hit_item(f, p.x, p.y, cols, m);
                let changed: bool = !same_item(hit, f.interaction.hover);
                f.interaction.hover = hit;
                MoveEffects {
                    cancelled: None,
                    track_leave: shows,
                    place: None,
                    resized: false,
                    drag_out: None,
                    render: shows || changed,
                }
            },
        },
    }
}

/// What a press asks for.
#[derive(Clone, Copy, Debug, PartialEq, Eq, Structural)]
pub struct PressEffects {
    /// Remember where the fence stands, for the undo of desktop avoidance.
    pub record: bool,
    /// Take hold of the pointer.
    pub capture: bool,
    pub render: bool,
}

/// Whether `after` is `before` with the left button pressed at (`x`, `y`): on the title it begins to
/// move, at an edge to be resized; on an entry that is selected and may be dragged out; elsewhere the
/// selection ends.
pub open spec fn pressed(
    before: Fence,
    after: Fence,
    x: int,
    y: int,
    cursor: (i32, i32),
    window: Area,
    avoid: bool,
    m: Metrics,
    e: PressEffects,
) -> bool {
    let i = FenceInteraction { drag_moved: false, ..before.interaction };
    let dir = edge_at(before.cfg.w as int, before.cfg.h as int, m.edge as int, x, y);
    if y < m.title_h {
        &&& e == (PressEffects { record: avoid, capture: true, render: false })
        &&& after == (Fence {
            interaction: FenceInteraction {
                moving: true,
                move_off: (
                    saturated(cursor.0 - window.left) as i32,
                    saturated(cursor.1 - window.top) as i32,
                ),
                ..i
            },
            ..before
        })
    } else if dir is Some {
        &&& e == (PressEffects { record: avoid, capture: true, render: false })
        &&& after == (Fence {
            interaction: FenceInteraction { resizing: dir, ..i },
            ..before
        })
    } else {
        match entry_at(before, x, y, columns(before.cfg.w as int, m), m) {
            Some(k) => {
                &&& e == (PressEffects { record: false, capture: true, render: true })
                &&& after == (Fence {
                    model: FenceModel { selected: Some(k as usize), ..before.model },
                    interaction: FenceInteraction {
                        drag_idx: Some(k as usize),
                        drag_down: (x as i32, y as i32),
                        ..i
                    },
                    ..before
                })
            },
            None => {
                &&& e == (PressEffects {
                    record: false,
                    capture: false,
                    render: before.model.selected is Some,
                })
                &&& after == (Fence {
                    model: FenceModel { selected: None, ..before.model },
                    interaction: i,
                    ..before
                })
            },
        }
    }
}

/// Takes in a press of the left button; see [`pressed`].
pub fn on_press(
    f: &mut Fence,
    x: i32,
    y: i32,
    cursor: (i32, i32),
    window: &Area,
    avoid: bool,
    m: &Metrics,
) -> (e: PressEffects)
    requires
        m.wf(),
        old(f).wf(),
    ensures
        pressed(*old(f), *final(f), x as int, y as int, cursor, *window, avoid, *m, e),
        final(f).wf(),
{
    f.interaction.drag_moved = false;
    if y < m.title_h {
        f.interaction.moving = true;
        f.interaction.move_off = (
            sat(cursor.0 as i64 - window.left as i64),
            sat(cursor.1 as i64 - window.top as i64),
        );
        return PressEffects { record: avoid, capture: true, render: false };
    }
    match resize_dir_at(&f.cfg, x, y, m) {
        Some(dir) => {
            f.interaction.resizing = Some(dir);
            PressEffects { record: avoid, capture: true, render: false }
        },
        None => {
            let (cols, _) = grid_dims(&f.cfg, m);
            match hit_item(f, x, y, cols, m) {
                Some(k) => {
                    f.model.selected = Some(k);
                    f.interaction.drag_idx = Some(k);
                    f.interaction.drag_down = (x, y);
                    PressEffects { record: false, capture: true, render: true }
                },
                None => {
                    let had: bool = f.model.selected.is_some();
                    f.model.selected = None;
                    PressEffects { record: false, capture: false, render: had }
                },
            }
        },
    }
}

/// What a release asks for.
#[derive(Clone, Copy, Debug, PartialEq, Eq, Structural)]
pub struct ReleaseEffects {
    /// Give up the pointer.
    pub release_capture: bool,
    /// Settle the fence on the grid.
    pub settle: bool,
}

/// What letting go of the press `i` asks for: a fence is settled only where it was really moved or
/// resized, never for a click on its title or edge.
pub open spec fn on_release_effects(i: FenceInteraction) -> ReleaseEffects {
    let dragged = (i.moving || i.resizing is Some) && i.drag_moved;
    ReleaseEffects { release_capture: dragged || i.drag_idx is Some, settle: dragged }
}

/// Takes in a release of the left button.
pub fn on_release(f: &mut Fence) -> (e: ReleaseEffects)
    ensures
        e == on_release_effects(old(f).interaction),
        *final(f) == (Fence {
            interaction: FenceInteraction {
                moving: false,
                resizing: None,
                drag_moved: false,
                drag_idx: None,
                ..old(f).interaction
            },
            ..*old(f)
        }),
{
    let settle: bool = (f.interaction.moving || f.interaction.resizing.is_some())
        && f.interaction.drag_moved;
    let had_item: bool = f.interaction.drag_idx.is_some();
    f.interaction.moving = false;
    f.interaction.resizing = None;
    f.interaction.drag_moved = false;
    f.interaction.drag_idx = None;
    ReleaseEffects { release_capture: settle || had_item, settle }
}

/// A fence that is pressed on its title or edge settles when it is let go if and only if the pointer moved in
/// between: a click changes nothing.
pub proof fn only_a_dragged_fence_settles(
    before: Fence,
    held_down: Fence,
    after: Fence,
    x: int,
    y: int,
    cursor: (i32, i32),
    window: Area,
    avoid: bool,
    m: Metrics,
    p: PointerMove,
    pe: PressEffects,
    me: MoveEffects,
)
    requires
        !before.interaction.is_active(),
        pressed(before, held_down, x, y, cursor, window, avoid, m, pe),
        pointer_moved(held_down, after, p, m, me),
    ensures
        !on_release_effects(held_down.interaction).settle,
        on_release_effects(after.interaction).settle <==> p.left_button && (
        held_down.interaction.moving || held_down.interaction.resizing is Some),
        on_release_effects(after.interaction).settle ==> on_release_effects(
            after.interaction,
        ).release_capture,
        on_release_effects(held_down.interaction).release_capture ==> pe.capture,
        !p.left_button ==> after.cfg == held_down.cfg && !after.interaction.is_active(),
{
}

/// While no press is followed, the pointer marks the entry in whose cell it is, and the fence stays as it is.
pub proof fn the_pointer_marks_the_entry_under_it(
    before: Fence,
    after: Fence,
    p: PointerMove,
    m: Metrics,
    e: MoveEffects,
    top: int,
    col: int,
    row: int,
)
    requires
        m.wf(),
        pointer_moved(before, after, p, m, e),
        !before.interaction.is_active(),
        before.model.entries@.len() <= usize::MAX,
        0 <= top,
        before.top_row == top * ROW,
        0 <= col < columns(before.cfg.w as int, m),
        0 <= row,
        m.margin + col * m.cell_w <= p.x < m.margin + col * m.cell_w + m.cell_w,
        m.title_h + m.margin + row * m.cell_h <= p.y < m.title_h + m.margin + row * m.cell_h
            + m.cell_h,
    ensures
        ({
            let k = (top + row) * columns(before.cfg.w as int, m) + col;
            &&& after.interaction.hover == if k < before.model.entries@.len() {
                Some(k as usize)
            } else {
                None
            }
            &&& after.cfg == before.cfg && after.model == before.model
            &&& e.place is None && e.drag_out is None
        }),
{
    the_pointer_hits_the_entry_of_its_cell(
        before,
        m,
        columns(before.cfg.w as int, m),
        top,
        col,
        row,
        p.x as int,
        p.y as int,
    );
}

/// Whatever the pointer does, a fence that looks different afterwards is drawn anew: another entry is
/// marked, it has come out of hiding, or its size changed. One that is cut off in what it did is drawn anew
/// if it had an entry pressed or marked.
pub proof fn what_looks_different_is_drawn_anew(
    before: Fence,
    after: Fence,
    p: PointerMove,
    m: Metrics,
    e: MoveEffects,
)
    requires
        pointer_moved(before, after, p, m, e),
    ensures
        after.interaction.hover != before.interaction.hover ==> e.render,
        after.interaction.hover_visible != before.interaction.hover_visible ==> e.render
            && e.track_leave,
        (after.cfg.w != before.cfg.w || after.cfg.h != before.cfg.h) ==> e.render && e.resized,
        after.cfg != before.cfg ==> e.place == Some(
            Placement { x: after.cfg.x, y: after.cfg.y, w: after.cfg.w, h: after.cfg.h },
        ),
        e.cancelled is Some <==> before.interaction.is_active() && !p.left_button,
        e.cancelled matches Some(c) ==> e.render == (before.interaction.drag_idx is Some
            || before.interaction.hover is Some) && c.geometry_changed == ((
        before.interaction.moving || before.interaction.resizing is Some)
            && before.interaction.drag_moved),
        after.model.entries == before.model.entries && after.model.selected
            == before.model.selected,
{
}

/// A press on an entry that goes far enough drags that entry's file out, once, and never moves the fence.
pub proof fn a_pressed_entry_is_dragged_out(
    before: Fence,
    held_down: Fence,
    after: Fence,
    x: int,
    y: int,
    cursor: (i32, i32),
    window: Area,
    avoid: bool,
    m: Metrics,
    p: PointerMove,
    pe: PressEffects,
    me: MoveEffects,
    k: int,
)
    requires
        !before.interaction.is_active(),
        pressed(before, held_down, x, y, cursor, window, avoid, m, pe),
        pointer_moved(held_down, after, p, m, me),
        p.left_button,
        held_down.model.selected == Some(k as usize),
        held_down.interaction.drag_idx is Some,
        0 <= k < before.model.entries@.len() <= usize::MAX,
        i32::MIN <= x <= i32::MAX,
        i32::MIN <= y <= i32::MAX,
    ensures
        ({
            let d = if p.drag_threshold > 4 {
                p.drag_threshold as int
            } else {
                4
            };
            let far = p.x - x >= d || x - p.x >= d || p.y - y >= d || y - p.y >= d;
            &&& far ==> me.drag_out is Some && me.drag_out->0@ == before.model.entries@[k].path@
                && after.interaction.drag_idx is None
            &&& !far ==> me.drag_out is None && after.interaction.drag_idx == Some(k as usize)
            &&& after.cfg == before.cfg && me.place is None
        }),
{
}

/// What a double click asks for.
pub enum DoubleClick {
    /// Rename the fence.
    Rename,
    /// Open the file.
    Open(String),
    Nothing,
}

/// Whether row `top` is at the top and the point (`x`, `y`) is below the title, in the cell in column `col`
/// of the row that is `row` rows below it.
pub open spec fn is_in_cell(f: Fence, m: Metrics, x: int, y: int, top: int, col: int, row: int) -> bool {
    &&& 0 <= top && f.top_row == top * ROW
    &&& 0 <= col < columns(f.cfg.w as int, m)
    &&& 0 <= row
    &&& m.margin + col * m.cell_w <= x < m.margin + col * m.cell_w + m.cell_w
    &&& m.title_h + m.margin + row * m.cell_h <= y < m.title_h + m.margin + row * m.cell_h
        + m.cell_h
    &&& y >= m.title_h
}

/// What a double click at (`x`, `y`) asks for: on the title a new name, on an entry to open it.
pub fn on_double_click(f: &Fence, x: i32, y: i32, m: &Metrics) -> (click: DoubleClick)
    requires
        m.wf(),
        f.wf(),
    ensures
        match click {
            DoubleClick::Rename => y < m.title_h,
            DoubleClick::Open(path) => y >= m.title_h && entry_at(
                *f,
                x as int,
                y as int,
                columns(f.cfg.w as int, *m),
                *m,
            ) is Some && path@ == f.model.entries@[entry_at(
                *f,
                x as int,
                y as int,
                columns(f.cfg.w as int, *m),
                *m,
            )->0].path@,
            DoubleClick::Nothing => y >= m.title_h && entry_at(
                *f,
                x as int,
                y as int,
                columns(f.cfg.w as int, *m),
                *m,
            ) is None,
        },
        forall|top: int, col: int, row: int| #[trigger]
            is_in_cell(*f, *m, x as int, y as int, top, col, row) ==> {
                let k = (top + row) * columns(f.cfg.w as int, *m) + col;
                if k < f.model.entries@.len() {
                    click matches DoubleClick::Open(path) && path@ == f.model.entries@[k].path@
                } else {
                    click is Nothing
                }
            },
{
    if y < m.title_h {
        return DoubleClick::Rename;
    }
    proof {
        assert forall|top: int, col: int, row: int| #[trigger]
            is_in_cell(*f, *m, x as int, y as int, top, col, row) implies entry_at(
            *f,
            x as int,
            y as int,
            columns(f.cfg.w as int, *m),
            *m,
        ) == ({
            let k = (top + row) * columns(f.cfg.w as int, *m) + col;
            if k < f.model.entries@.len() {
                Some(k)
            } else {
                None
            }
        }) by {
            the_pointer_hits_the_entry_of_its_cell(
                *f,
                *m,
                columns(f.cfg.w as int, *m),
                top,
                col,
                row,
                x as int,
                y as int,
            );
        }
    }
    let (cols, _) = grid_dims(&f.cfg, m);
    match hit_item(f, x, y, cols, m) {
        Some(k) => DoubleClick::Open(f.model.entries[k].path.clone()),
        None => DoubleClick::Nothing,
    }
}

/// One notch of the wheel.
pub const NOTCH: i64 = 120;

/// The whole notches in `acc`, with the sign of `acc`.
pub open spec fn notches(acc: int) -> int {
    super::grid::trunc_div(acc, NOTCH as int)
}

/// The page that `steps` notches lead to from `page` of `pages`: up turns back, down turns on.
pub open spec fn turned_page(page: int, steps: int, pages: int) -> int {
    let target = page - steps;
    if target < 0 {
        0
    } else if target > pages - 1 {
        pages - 1
    } else {
        target
    }
}

/// What a turn of the wheel did.
#[derive(Clone, Copy, Debug, PartialEq, Eq, Structural)]
pub struct WheelEffects {
    /// Whether a page began to turn, so that its timer has to run.
    pub begun: bool,
    pub render: bool,
}

/// Whether `after` is `before` after the wheel turned by `raw`: turns add up until they make whole
/// notches, each of which turns one page.
pub open spec fn wheel_turned(
    before: Fence,
    after: Fence,
    raw: int,
    now: u64,
    m: Metrics,
    e: WheelEffects,
) -> bool {
    let acc = before.interaction.wheel_acc + raw;
    let steps = notches(acc);
    let page = turned_page(before.model.page as int, steps, pages_of(before, m));
    let counted = Fence {
        interaction: FenceInteraction {
            wheel_acc: (acc - steps * NOTCH) as i32,
            ..before.interaction
        },
        ..before
    };
    if steps == 0 {
        &&& e == (WheelEffects { begun: false, render: false })
        &&& after == counted
    } else if page == before.model.page {
        &&& e == (WheelEffects { begun: false, render: true })
        &&& after == counted
    } else {
        let turned = Fence {
            model: FenceModel { page: page as usize, ..before.model },
            ..counted
        };
        &&& e == (WheelEffects { begun: !before.animating && before.has_window(), render: true })
        &&& after == turn_stepped(turn_begun(turned, now), m, now)
    }
}

/// Takes in a turn of the wheel at `now` microseconds; see [`wheel_turned`].
pub fn on_wheel(f: &mut Fence, raw: i32, now: u64, m: &Metrics) -> (e: WheelEffects)
    requires
        m.wf(),
        old(f).wf(),
    ensures
        wheel_turned(*old(f), *final(f), raw as int, now, *m, e),
        final(f).wf(),
        final(f).model.page < pages_of(*old(f), *m) || final(f).model.page == old(f).model.page,
{
    let acc: i64 = f.interaction.wheel_acc as i64 + raw as i64;
    let steps: i64 = if acc >= 0 {
        acc / NOTCH
    } else {
        -((-acc) / NOTCH)
    };
    f.interaction.wheel_acc = (acc - steps * NOTCH) as i32;
    if steps == 0 {
        return WheelEffects { begun: false, render: false };
    }
    let pages: usize = total_pages(f, m);
    let target: i128 = f.model.page as i128 - steps as i128;
    let page: usize = if target < 0 {
        0
    } else if target > pages as i128 - 1 {
        pages - 1
    } else {
        target as usize
    };
    let mut begun: bool = false;
    if page != f.model.page {
        f.model.page = page;
        begun = start_page_anim(f, now);
        step_page_anim(f, m, now);
    }
    WheelEffects { begun, render: true }
}

/// Turning the wheel in small turns or in one turn of the same sum counts the same whole notches and
/// leaves the same remainder, as long as the turns go one way.
pub proof fn wheel_turns_add_up(acc: int, a: int, b: int)
    requires
        0 <= acc < NOTCH,
        0 <= a,
        0 <= b,
    ensures
        ({
            let first = notches(acc + a);
            let rest = acc + a - first * NOTCH;
            first + notches(rest + b) == notches(acc + a + b) && 0 <= rest < NOTCH
        }),
{
}

/// Each notch of the wheel turns one page, up back and down on, and not past the first or the last; what
/// is less than a notch is kept for the next turn.
pub proof fn each_notch_turns_a_page(
    before: Fence,
    after: Fence,
    raw: int,
    now: u64,
    m: Metrics,
    e: WheelEffects,
    n: int,
    rest: int,
)
    requires
        m.wf(),
        wheel_turned(before, after, raw, now, m, e),
        before.model.page < pages_of(before, m) <= usize::MAX,
        before.interaction.wheel_acc + raw == n * 120 + rest,
        n >= 0 && 0 <= rest < 120 || n <= 0 && -120 < rest <= 0,
    ensures
        after.interaction.wheel_acc == rest,
        n <= 0 && before.model.page - n < pages_of(before, m) ==> after.model.page
            == before.model.page - n,
        n <= 0 && before.model.page - n >= pages_of(before, m) ==> after.model.page == pages_of(
            before,
            m,
        ) - 1,
        0 <= n <= before.model.page ==> after.model.page == before.model.page - n,
        n > before.model.page ==> after.model.page == 0,
        after.model.entries == before.model.entries,
        after.cfg == before.cfg,
{
    let acc = before.interaction.wheel_acc + raw;
    assert(notches(acc) == n);
}

/// Turning the wheel back by as much as it was turned on leads back to the page it was on, where no end
/// was reached.
pub proof fn turning_back_undoes_a_turn(page: int, steps: int, pages: int)
    requires
        0 <= page < pages,
        0 <= page - steps < pages,
    ensures
        turned_page(turned_page(page, steps, pages), -steps, pages) == page,
        turned_page(page, 1, pages) == (if page == 0 {
            0
        } else {
            page - 1
        }),
        turned_page(page, -1, pages) == (if page == pages - 1 {
            page
        } else {
            page + 1
        }),
{
}

/// Takes in that the pointer has left.
pub fn on_leave(f: &mut Fence)
    ensures
        *final(f) == (Fence {
            interaction: FenceInteraction {
                hover_visible: false,
                hover: None,
                ..old(f).interaction
            },
            ..*old(f)
        }),
{
    f.interaction.hover_visible = false;
    f.interaction.hover = None;
}

/// The shape of the pointer over a fence.
#[derive(Clone, Copy, Debug, PartialEq, Eq, Structural)]
pub enum CursorShape {
    Arrow,
    SizeAll,
    SizeNs,
    SizeWe,
    SizeNwse,
    SizeNesw,
}

/// The shape of the pointer at (`x`, `y`).
pub open spec fn shape_at(w: int, h: int, x: int, y: int, m: Metrics) -> CursorShape {
    if y < m.title_h {
        CursorShape::SizeAll
    } else {
        match edge_at(w, h, m.edge as int, x, y) {
            Some(dir) => match dir {
                ResizeDir::N | ResizeDir::S => CursorShape::SizeNs,
                ResizeDir::E | ResizeDir::W => CursorShape::SizeWe,
                ResizeDir::NW | ResizeDir::SE => CursorShape::SizeNwse,
                ResizeDir::NE | ResizeDir::SW => CursorShape::SizeNesw,
            },
            None => CursorShape::Arrow,
        }
    }
}

/// See [`shape_at`].
pub fn cursor_at(cfg: &FenceCfg, x: i32, y: i32, m: &Metrics) -> (shape: CursorShape)
    requires
        m.wf(),
    ensures
        shape == shape_at(cfg.w as int, cfg.h as int, x as int, y as int, *m),
{
    if y < m.title_h {
        return CursorShape::SizeAll;
    }
    match resize_dir_at(cfg, x, y, m) {
        Some(dir) => match dir {
            ResizeDir::N | ResizeDir::S => CursorShape::SizeNs,
            ResizeDir::E | ResizeDir::W => CursorShape::SizeWe,
            ResizeDir::NW | ResizeDir::SE => CursorShape::SizeNwse,
            ResizeDir::NE | ResizeDir::SW => CursorShape::SizeNesw,
        },
        None => CursorShape::Arrow,
    }
}

/// The shape of the pointer tells what a press does there: it moves the fence, resizes it along the
/// arrows, or neither.
pub proof fn the_pointer_shows_what_a_press_does(
    before: Fence,
    after: Fence,
    x: int,
    y: int,
    cursor: (i32, i32),
    window: Area,
    avoid: bool,
    m: Metrics,
    e: PressEffects,
)
    requires
        pressed(before, after, x, y, cursor, window, avoid, m, e),
        !before.interaction.moving,
        before.interaction.resizing is None,
    ensures
        ({
            let shape = shape_at(before.cfg.w as int, before.cfg.h as int, x, y, m);
            let i = after.interaction;
            &&& shape == CursorShape::SizeAll <==> i.moving
            &&& shape == CursorShape::SizeWe <==> (i.resizing == Some(ResizeDir::W) || i.resizing
                == Some(ResizeDir::E))
            &&& shape == CursorShape::SizeNs <==> (i.resizing == Some(ResizeDir::N) || i.resizing
                == Some(ResizeDir::S))
            &&& shape == CursorShape::SizeNwse <==> (i.resizing == Some(ResizeDir::NW)
                || i.resizing == Some(ResizeDir::SE))
            &&& shape == CursorShape::SizeNesw <==> (i.resizing == Some(ResizeDir::NE)
                || i.resizing == Some(ResizeDir::SW))
            &&& i.moving || i.resizing is Some ==> e.capture && e.record == avoid && after.model
                == before.model
        }),
{
}

/// In the cell of an entry of the rows shown, away from the title and the edges, a press selects that
/// entry, and only a drag from there takes it out.
pub proof fn a_press_selects_the_entry_under_it(
    before: Fence,
    after: Fence,
    x: int,
    y: int,
    cursor: (i32, i32),
    window: Area,
    avoid: bool,
    m: Metrics,
    e: PressEffects,
    top: int,
    col: int,
    row: int,
)
    requires
        m.wf(),
        pressed(before, after, x, y, cursor, window, avoid, m, e),
        before.model.entries@.len() <= usize::MAX,
        m.title_h <= y,
        m.edge <= y < before.cfg.h - m.edge,
        m.edge <= x < before.cfg.w - m.edge,
        0 <= top,
        before.top_row == top * ROW,
        0 <= col < columns(before.cfg.w as int, m),
        0 <= row,
        m.margin + col * m.cell_w <= x < m.margin + col * m.cell_w + m.cell_w,
        m.title_h + m.margin + row * m.cell_h <= y < m.title_h + m.margin + row * m.cell_h
            + m.cell_h,
    ensures
        ({
            let k = (top + row) * columns(before.cfg.w as int, m) + col;
            &&& k < before.model.entries@.len() ==> after.model.selected == Some(k as usize)
                && after.interaction.drag_idx == Some(k as usize)
            &&& k >= before.model.entries@.len() ==> after.model.selected is None
            &&& after.interaction.moving == before.interaction.moving
            &&& after.interaction.resizing == before.interaction.resizing
            &&& after.cfg == before.cfg
        }),
{
    the_pointer_hits_the_entry_of_its_cell(
        before,
        m,
        columns(before.cfg.w as int, m),
        top,
        col,
        row,
        x,
        y,
    );
}

/// `to - from`, at least 1.
pub open spec fn extent(from: int, to: int) -> int {
    if to - from < 1 {
        1
    } else {
        saturated(to - from)
    }
}

/// A window is as long as the way from its one edge to the other, and one pixel where that is none.
pub proof fn a_window_is_as_long_as_between_its_edges(from: i32, len: int)
    requires
        from + len <= i32::MAX,
        i32::MIN <= from + len,
        len <= i32::MAX,
    ensures
        len >= 1 ==> extent(from as int, from + len) == len,
        len < 1 ==> extent(from as int, from + len) == 1,
{
}

pub fn extent_of(from: i32, to: i32) -> (n: i32)
    ensures
        n == extent(from as int, to as int),
{
    let d: i64 = to as i64 - from as i64;
    if d < 1 {
        1
    } else {
        sat(d)
    }
}

/// Takes in that the window's DPI is now `new_dpi`: the fence takes the rectangle that the system
/// suggests. `m` are the measures at the new DPI. Whether anything changed.
pub fn on_dpi_changed(f: &mut Fence, new_dpi: u32, rect: &Area, m: &Metrics) -> (changed: bool)
    requires
        m.wf(),
        old(f).wf(),
    ensures
        changed == (new_dpi != 0),
        !changed ==> *final(f) == *old(f),
        changed ==> *final(f) == synced(
            Fence {
                dpi: new_dpi,
                cfg: FenceCfg {
                    x: rect.left,
                    y: rect.top,
                    w: extent(rect.left as int, rect.right as int) as i32,
                    h: extent(rect.top as int, rect.bottom as int) as i32,
                    dpi: new_dpi,
                    ..old(f).cfg
                },
                ..*old(f)
            },
            *m,
        ),
        final(f).wf(),
{
    if new_dpi == 0 {
        return false;
    }
    f.dpi = new_dpi;
    f.cfg.x = rect.left;
    f.cfg.y = rect.top;
    f.cfg.w = extent_of(rect.left, rect.right);
    f.cfg.h = extent_of(rect.top, rect.bottom);
    f.cfg.dpi = new_dpi;
    sync_page(f, m);
    true
}

/// A length brought from the DPI at which it was kept to `dpi` (96 at least), not below `min`.
pub open spec fn rescaled(len: int, kept_dpi: int, dpi: int, min: int) -> int {
    let n = extent_for_dpi(
        len,
        kept_dpi,
        if dpi < 96 {
            96
        } else {
            dpi
        },
    );
    if n < min {
        min
    } else {
        n
    }
}

/// A length that follows the screen's DPI keeps its logical size, to within half a pixel, where that is not
/// too small; at the DPI at which it was kept it stays as it is.
pub proof fn a_rescaled_length_keeps_its_logical_size(len: int, kept_dpi: int, dpi: int, min: int)
    requires
        kept_dpi > 0,
        dpi >= 96,
        i32::MIN < rescaled(len, kept_dpi, dpi, min) < i32::MAX,
    ensures
        rescaled(len, kept_dpi, dpi, min) >= min,
        rescaled(len, kept_dpi, dpi, min) > min ==> -kept_dpi <= 2 * (rescaled(
            len,
            kept_dpi,
            dpi,
            min,
        ) * kept_dpi - len * dpi) <= kept_dpi,
        kept_dpi == dpi && min <= len && i32::MIN <= len <= i32::MAX ==> rescaled(
            len,
            kept_dpi,
            dpi,
            min,
        ) == len,
{
    if rescaled(len, kept_dpi, dpi, min) > min {
        crate::config::an_extent_keeps_its_logical_size(len, kept_dpi, dpi);
    }
    if i32::MIN <= len <= i32::MAX {
        crate::config::equal_dpi_keeps_extent(len, dpi);
    }
}

/// Takes in that the screens have changed and the window's DPI is now `dpi`: size follows the DPI,
/// the place stays. A place that was moved into a smaller screen and kept would be lost when the
/// screen grows again. `m` are the measures at `dpi`. Whether anything changed.
pub fn on_display_changed(f: &mut Fence, dpi: u32, m: &Metrics) -> (changed: bool)
    requires
        m.wf(),
        old(f).wf(),
    ensures
        ({
            let w = rescaled(old(f).cfg.w as int, old(f).cfg.dpi as int, dpi as int, m.min_w as int);
            let h = rescaled(old(f).cfg.h as int, old(f).cfg.dpi as int, dpi as int, m.min_h as int);
            &&& changed == (w != old(f).cfg.w || h != old(f).cfg.h || old(f).dpi != dpi)
            &&& !changed ==> *final(f) == *old(f)
            &&& changed ==> *final(f) == synced(
                Fence {
                    dpi,
                    cfg: FenceCfg {
                        w: w as i32,
                        h: h as i32,
                        dpi: if dpi < 96 {
                            96
                        } else {
                            dpi
                        },
                        ..old(f).cfg
                    },
                    ..*old(f)
                },
                *m,
            )
        }),
        final(f).cfg.x == old(f).cfg.x,
        final(f).cfg.y == old(f).cfg.y,
        final(f).wf(),
{
    let new_dpi: u32 = if dpi < 96 {
        96
    } else {
        dpi
    };
    let w: i32 = scale_extent_for_dpi(f.cfg.w, f.cfg.dpi, new_dpi);
    let h: i32 = scale_extent_for_dpi(f.cfg.h, f.cfg.dpi, new_dpi);
    let w: i32 = if w < m.min_w {
        m.min_w
    } else {
        w
    };
    let h: i32 = if h < m.min_h {
        m.min_h
    } else {
        h
    };
    if w != f.cfg.w || h != f.cfg.h || f.dpi != dpi {
        f.dpi = dpi;
        f.cfg.w = w;
        f.cfg.h = h;
        f.cfg.dpi = new_dpi;
        sync_page(f, m);
        true
    } else {
        false
    }
}

/// The file that Delete is about: the selected one.
pub fn path_to_delete(f: &Fence) -> (path: Option<String>)
    ensures
        crate::config::opt_view(path) == super::refresh::selected_path(f.model),
{
    match f.model.selected {
        Some(i) => if i < f.model.entries.len() {
            Some(f.model.entries[i].path.clone())
        } else {
            None
        },
        None => None,
    }
}

/// Whether a fence that the shell has minimised is shown again: its window is there and Zen mode is
/// off.
pub fn restores_after_show_desktop(fences: &Vec<Fence>, hwnd: isize, zen: bool) -> (show: bool)
    ensures
        show == (!zen && exists|i: int|
            0 <= i < fences@.len() && (#[trigger] fences@[i]).valid && fences@[i].hwnd == hwnd),
{
    !zen && fence_idx(fences, hwnd).is_some()
}

} // verus!
