//! The grid of a fence: pages, turning them, snapping to the grid, and what lies under the pointer.

use super::interaction::ResizeDir;
use super::Fence;
use crate::config::{round_div, saturated, FenceCfg};
use crate::geometry::{has_pixel, Area};
use vstd::prelude::*;

verus! {

/// The measures of a fence at its DPI and icon size, in pixels.
#[derive(Clone, Copy, Debug, PartialEq, Eq, Structural)]
pub struct Metrics {
    pub margin: i32,
    /// The strip of page dots at the right.
    pub rail: i32,
    pub cell_w: i32,
    pub cell_h: i32,
    pub title_h: i32,
    /// How near to an edge the pointer resizes.
    pub edge: i32,
    pub min_w: i32,
    pub min_h: i32,
}

/// No measure is longer than this.
pub const MAX_MEASURE: i32 = 0x10_0000;

impl Metrics {
    /// Measures that a window can have: none negative or absurd, and cells that are not empty.
    pub open spec fn wf(self) -> bool {
        &&& 0 <= self.margin <= MAX_MEASURE
        &&& 0 <= self.rail <= MAX_MEASURE
        &&& 0 < self.cell_w <= MAX_MEASURE
        &&& 0 < self.cell_h <= MAX_MEASURE
        &&& 0 <= self.title_h <= MAX_MEASURE
        &&& 0 <= self.edge <= MAX_MEASURE
        &&& 0 < self.min_w <= MAX_MEASURE
        &&& 0 < self.min_h <= MAX_MEASURE
    }

    /// What a fence is wide besides its cells.
    pub open spec fn frame_w(self) -> int {
        2 * self.margin + self.rail
    }

    /// What a fence is high besides its cells.
    pub open spec fn frame_h(self) -> int {
        self.title_h + 2 * self.margin
    }
}

/// `n / d` cut off towards zero.
pub open spec fn trunc_div(n: int, d: int) -> int {
    if n >= 0 {
        n / d
    } else {
        -((-n) / d)
    }
}

/// How many columns of cells fit into the width `w`, at least 1.
pub open spec fn columns(w: int, m: Metrics) -> int {
    let n = trunc_div(w - m.frame_w(), m.cell_w as int);
    if n < 1 {
        1
    } else {
        n
    }
}

/// How many rows of cells fit into the height `h`.
pub open spec fn rows(h: int, m: Metrics) -> int {
    let n = trunc_div(h - m.frame_h(), m.cell_h as int);
    if n < 0 {
        0
    } else {
        n
    }
}

proof fn quotient_bound(n: int, d: int, max: int)
    requires
        n <= max,
        0 <= max,
        1 <= d,
    ensures
        trunc_div(n, d) <= max,
{
    if n >= 0 {
        assert(n / d <= n) by (nonlinear_arith)
            requires
                n >= 0,
                d >= 1,
        ;
    } else {
        assert((-n) / d >= 0) by (nonlinear_arith)
            requires
                n < 0,
                d >= 1,
        ;
    }
}

/// The columns and rows of cells that a fence of `cfg`'s size shows.
pub fn grid_dims(cfg: &FenceCfg, m: &Metrics) -> (dims: (i32, i32))
    requires
        m.wf(),
    ensures
        dims.0 == columns(cfg.w as int, *m),
        dims.1 == rows(cfg.h as int, *m),
        dims.0 >= 1,
        dims.1 >= 0,
{
    let w: i64 = cfg.w as i64 - 2 * (m.margin as i64) - m.rail as i64;
    let h: i64 = cfg.h as i64 - m.title_h as i64 - 2 * (m.margin as i64);
    proof {
        quotient_bound(w as int, m.cell_w as int, i32::MAX as int);
        quotient_bound(h as int, m.cell_h as int, i32::MAX as int);
    }
    let cols: i32 = if w < m.cell_w as i64 {
        proof {
            below_one(w as int, m.cell_w as int);
        }
        1
    } else {
        proof {
            at_least_one(w as int, m.cell_w as int);
        }
        (w / m.cell_w as i64) as i32
    };
    let rows: i32 = if h < m.cell_h as i64 {
        proof {
            below_one(h as int, m.cell_h as int);
        }
        0
    } else {
        proof {
            at_least_one(h as int, m.cell_h as int);
        }
        (h / m.cell_h as i64) as i32
    };
    (cols, rows)
}

proof fn below_one(n: int, d: int)
    requires
        n < d,
        d > 0,
    ensures
        trunc_div(n, d) <= 0,
{
    if n >= 0 {
        assert(n / d == 0) by (nonlinear_arith)
            requires
                0 <= n < d,
        ;
    } else {
        assert((-n) / d >= 0) by (nonlinear_arith)
            requires
                n < 0,
                d > 0,
        ;
    }
}

proof fn at_least_one(n: int, d: int)
    requires
        n >= d,
        d > 0,
    ensures
        trunc_div(n, d) >= 1,
{
    assert(n / d >= 1) by (nonlinear_arith)
        requires
            n >= d,
            d > 0,
    ;
}

/// How many entries a page shows.
pub open spec fn entries_per_page(cfg: FenceCfg, m: Metrics) -> int {
    columns(cfg.w as int, m) * rows(cfg.h as int, m)
}

/// How many pages `n` entries take, at least 1.
pub open spec fn pages(n: int, per_page: int) -> int {
    if per_page <= 0 || n <= 0 {
        1
    } else {
        (n + per_page - 1) / per_page
    }
}

/// How many pages fence `f` has.
pub open spec fn pages_of(f: Fence, m: Metrics) -> int {
    pages(f.model.entries@.len() as int, entries_per_page(f.cfg, m))
}

fn page_size(cfg: &FenceCfg, m: &Metrics) -> (n: u64)
    requires
        m.wf(),
    ensures
        n == entries_per_page(*cfg, *m),
        n <= 0x3fff_ffff_ffff_ffff,
{
    let (cols, rows) = grid_dims(cfg, m);
    proof {
        assert(cols * rows <= 0x3fff_ffff_ffff_ffff) by (nonlinear_arith)
            requires
                0 <= cols <= 0x7fff_ffff,
                0 <= rows <= 0x7fff_ffff,
        ;
        assert(cols * rows >= 0) by (nonlinear_arith)
            requires
                0 <= cols,
                0 <= rows,
        ;
    }
    (cols as u64) * (rows as u64)
}

/// A fence shows as many whole cells side by side and below one another as its inside has room for,
/// though never less than one column.
pub proof fn a_fence_shows_all_cells_that_fit(w: int, h: int, m: Metrics, cols: int, rows_fit: int)
    requires
        m.wf(),
        cols >= 1,
        rows_fit >= 0,
    ensures
        cols <= columns(w, m) <==> cols == 1 || cols * m.cell_w <= w - 2 * m.margin - m.rail,
        rows_fit <= rows(h, m) <==> rows_fit == 0 || rows_fit * m.cell_h <= h - m.title_h - 2
            * m.margin,
{
    fits(w - m.frame_w(), m.cell_w as int, cols);
    if rows_fit >= 1 {
        fits(h - m.frame_h(), m.cell_h as int, rows_fit);
    }
}

proof fn fits(n: int, d: int, k: int)
    requires
        d > 0,
        k >= 1,
    ensures
        k <= trunc_div(n, d) <==> k * d <= n,
{
    if n >= 0 {
        let q = n / d;
        assert(q * d <= n && n < q * d + d) by (nonlinear_arith)
            requires
                q == n / d,
                d > 0,
        ;
        if k <= q {
            assert(k * d <= q * d) by (nonlinear_arith)
                requires
                    k <= q,
                    d > 0,
            ;
        } else {
            assert(k * d >= q * d + d) by (nonlinear_arith)
                requires
                    k >= q + 1,
                    d > 0,
            ;
        }
    } else {
        below_one(n, d);
        assert(k * d > 0) by (nonlinear_arith)
            requires
                k >= 1,
                d > 0,
        ;
    }
}

/// The pages hold all entries, and none of them is needless: the last page has an entry, and each
/// entry is on one page.
pub proof fn the_pages_hold_every_entry(n: int, per_page: int, i: int)
    requires
        n >= 1,
        per_page >= 1,
        0 <= i < n,
    ensures
        (pages(n, per_page) - 1) * per_page < n <= pages(n, per_page) * per_page,
        exists|p: int|
            0 <= p < pages(n, per_page) && #[trigger] (p * per_page) <= i < p * per_page + per_page,
{
    let q = pages(n, per_page);
    assert((q - 1) * per_page < n <= q * per_page) by (nonlinear_arith)
        requires
            q == (n + per_page - 1) / per_page,
            per_page >= 1,
            n >= 1,
    ;
    let p = i / per_page;
    assert(0 <= p && p * per_page <= i < p * per_page + per_page) by (nonlinear_arith)
        requires
            p == i / per_page,
            per_page >= 1,
            i >= 0,
    ;
    assert(p < q) by (nonlinear_arith)
        requires
            p * per_page <= i < n <= q * per_page,
            per_page >= 1,
    ;
}

/// See [`pages_of`].
pub fn total_pages(f: &Fence, m: &Metrics) -> (n: usize)
    requires
        m.wf(),
    ensures
        n == pages_of(*f, *m),
        n >= 1,
{
    let per_page: u64 = page_size(&f.cfg, m);
    let count: usize = f.model.entries.len();
    if per_page == 0 || count == 0 {
        return 1;
    }
    let n: u128 = (count as u128 + per_page as u128 - 1) / per_page as u128;
    proof {
        let c = count as int;
        let p = per_page as int;
        assert(1 <= (c + p - 1) / p <= c) by (nonlinear_arith)
            requires
                c >= 1,
                p >= 1,
        ;
    }
    n as usize
}

/// One row, in the unit of [`Fence::top_row`].
pub const ROW: i128 = 1_000_000;

/// Where the page that `f` shows begins, in the unit of [`Fence::top_row`].
pub open spec fn page_top(f: Fence, m: Metrics) -> int {
    f.model.page * rows(f.cfg.h as int, m) * ROW
}

/// The nearest page to `page` that is there.
pub open spec fn nearest_page(page: int, pages: int) -> int {
    if page >= pages {
        pages - 1
    } else {
        page
    }
}

/// `f` at rest on the page nearest to the one it shows.
pub open spec fn synced(f: Fence, m: Metrics) -> Fence {
    let page = nearest_page(f.model.page as int, pages_of(f, m));
    Fence {
        model: super::model::FenceModel { page: page as usize, ..f.model },
        top_row: (page * rows(f.cfg.h as int, m) * ROW) as i128,
        animating: false,
        ..f
    }
}

proof fn top_bound(page: int, rows: int)
    requires
        0 <= page <= u64::MAX,
        0 <= rows <= i32::MAX,
    ensures
        0 <= page * rows <= 0x7fff_ffff * 0xffff_ffff_ffff_ffff,
{
    assert(0 <= page * rows <= 0x7fff_ffff * 0xffff_ffff_ffff_ffff) by (nonlinear_arith)
        requires
            0 <= page <= 0xffff_ffff_ffff_ffff,
            0 <= rows <= 0x7fff_ffff,
    ;
}

/// Brings the page to one that is there and the top row to its first row, after the size or the
/// entries changed.
pub fn sync_page(f: &mut Fence, m: &Metrics)
    requires
        m.wf(),
    ensures
        *final(f) == synced(*old(f), *m),
        final(f).model.page < pages_of(*final(f), *m),
        final(f).top_row == page_top(*final(f), *m),
        old(f).wf() ==> final(f).wf(),
{
    let n: usize = total_pages(f, m);
    if f.model.page >= n {
        f.model.page = n - 1;
    }
    let (cols, rows) = grid_dims(&f.cfg, m);
    let page: i128 = f.model.page as i128;
    proof {
        top_bound(page as int, rows as int);
    }
    f.top_row = page * (rows as i128) * ROW;
    f.animating = false;
}

/// How long turning a page takes, in microseconds.
pub const ANIM_DURATION: u64 = 200_000;

/// How long one frame of turning a page takes, in microseconds.
pub const ANIM_TICK: u64 = 16_000;

/// The whole of a turn, in the unit of [`animation_progress`].
pub const WHOLE: u64 = 1_000_000;

/// How far a page has been turned `elapsed` microseconds after it began, in millionths; slow frames
/// skip what lies between.
pub open spec fn progress(elapsed: u64) -> int {
    if elapsed >= ANIM_DURATION {
        WHOLE as int
    } else {
        elapsed * WHOLE / ANIM_DURATION as int
    }
}

/// See [`progress`].
pub fn animation_progress(elapsed: u64) -> (t: u64)
    ensures
        t == progress(elapsed),
        t <= WHOLE,
        t == WHOLE <==> elapsed >= ANIM_DURATION,
{
    if elapsed >= ANIM_DURATION {
        WHOLE
    } else {
        elapsed * WHOLE / ANIM_DURATION
    }
}

/// The cubic easing of a turn: fast at first, then settling. From and to millionths.
pub open spec fn eased(t: int) -> int {
    WHOLE - (WHOLE - t) * (WHOLE - t) * (WHOLE - t) / 1_000_000_000_000
}

/// The row on the way from `from` to `target` at the easing `e`.
pub open spec fn between(from: int, target: int, e: int) -> int {
    from + trunc_div((target - from) * e, WHOLE as int)
}

fn ease(t: u64) -> (e: u64)
    requires
        t <= WHOLE,
    ensures
        e == eased(t as int),
        e <= WHOLE,
{
    let left: u64 = WHOLE - t;
    proof {
        assert(0 <= left * left * left <= 1_000_000_000_000_000_000 && left * left
            <= 1_000_000_000_000) by (nonlinear_arith)
            requires
                0 <= left <= 1_000_000,
        ;
    }
    WHOLE - left * left * left / 1_000_000_000_000
}

/// Rows lie below this, in the unit of [`Fence::top_row`].
pub const MAX_TOP: i128 = 39_614_081_257_132_168_796_771_975_168_000_000;

impl Fence {
    /// The rows of a fence are rows that a page can begin at.
    pub open spec fn wf(&self) -> bool {
        0 <= self.top_row < MAX_TOP && 0 <= self.anim_from < MAX_TOP
    }

    /// Whether the fence has a window.
    pub open spec fn has_window(&self) -> bool {
        self.hwnd != 0
    }
}

/// `f` with its page beginning to turn at `now`, unless it is turning already or has no window.
pub open spec fn turn_begun(f: Fence, now: u64) -> Fence {
    if !f.animating && f.has_window() {
        Fence {
            animating: true,
            anim_from: f.top_row,
            anim_started: if now >= ANIM_TICK {
                (now - ANIM_TICK) as u64
            } else {
                now
            },
            ..f
        }
    } else {
        f
    }
}

/// Begins to turn the page at `now` microseconds, unless it is being turned already; the first
/// frame comes at once. Whether it began.
pub fn start_page_anim(f: &mut Fence, now: u64) -> (begun: bool)
    requires
        old(f).wf(),
    ensures
        final(f).wf(),
        begun == (!old(f).animating && old(f).has_window()),
        *final(f) == turn_begun(*old(f), now),
{
    if !f.animating && f.hwnd != 0 {
        f.animating = true;
        f.anim_from = f.top_row;
        f.anim_started = if now >= ANIM_TICK {
            now - ANIM_TICK
        } else {
            now
        };
        true
    } else {
        false
    }
}

/// How long the page of `f` has been turning at `now`.
pub open spec fn turning_for(f: Fence, now: u64) -> u64 {
    if now > f.anim_started {
        (now - f.anim_started) as u64
    } else {
        0
    }
}

proof fn between_lies_between(from: int, target: int, e: int)
    requires
        0 <= e <= WHOLE,
    ensures
        from <= target ==> from <= between(from, target, e) <= target,
        target <= from ==> target <= between(from, target, e) <= from,
        e == WHOLE ==> between(from, target, e) == target,
{
    let d = target - from;
    if d >= 0 {
        assert(0 <= d * e && (d * e) / 1_000_000 <= d && (e == 1_000_000 ==> (d * e) / 1_000_000
            == d)) by (nonlinear_arith)
            requires
                0 <= d,
                0 <= e <= 1_000_000,
        ;
    } else {
        let n = -d;
        assert(d * e == -(n * e)) by (nonlinear_arith)
            requires
                d == -n,
        ;
        assert(0 <= n * e && (n * e) / 1_000_000 <= n && (e == 1_000_000 ==> (n * e) / 1_000_000
            == n)) by (nonlinear_arith)
            requires
                0 <= n,
                0 <= e <= 1_000_000,
        ;
    }
}

fn row_between(from: i128, target: i128, e: u64) -> (row: i128)
    requires
        0 <= from < MAX_TOP,
        0 <= target < MAX_TOP,
        e <= WHOLE,
    ensures
        row == between(from as int, target as int, e as int),
        0 <= row < MAX_TOP,
{
    proof {
        between_lies_between(from as int, target as int, e as int);
    }
    let down: bool = target < from;
    let d: i128 = if down {
        from - target
    } else {
        target - from
    };
    let q: i128 = d / 1_000_000;
    let r: i128 = d % 1_000_000;
    let ee: i128 = e as i128;
    proof {
        assert(0 <= r * ee <= 1_000_000_000_000) by (nonlinear_arith)
            requires
                0 <= r < 1_000_000,
                0 <= ee <= 1_000_000,
        ;
        assert(0 <= q * ee <= d) by (nonlinear_arith)
            requires
                0 <= q,
                q * 1_000_000 <= d,
                0 <= ee <= 1_000_000,
        ;
        assert((d * ee) / 1_000_000 == q * ee + (r * ee) / 1_000_000) by (nonlinear_arith)
            requires
                d == q * 1_000_000 + r,
                0 <= r,
                0 <= ee,
                0 <= q,
        {
            assert(d * ee == (q * ee) * 1_000_000 + r * ee);
        }
        assert(d * ee >= 0) by (nonlinear_arith)
            requires
                d >= 0,
                ee >= 0,
        ;
        if down {
            assert((target - from) * ee == -(d * ee)) by (nonlinear_arith)
                requires
                    d == from - target,
            ;
        } else {
            assert((target - from) * ee == d * ee);
        }
    }
    let part: i128 = q * ee + (r * ee) / 1_000_000;
    if down {
        from - part
    } else {
        from + part
    }
}

/// `f` with its page turned as far as it should be at `now`.
pub open spec fn turn_stepped(f: Fence, m: Metrics, now: u64) -> Fence {
    if turning_for(f, now) < ANIM_DURATION {
        Fence {
            top_row: between(
                f.anim_from as int,
                page_top(f, m),
                eased(progress(turning_for(f, now))),
            ) as i128,
            ..f
        }
    } else {
        Fence { top_row: page_top(f, m) as i128, animating: false, ..f }
    }
}

/// Turns the page of `f` as far as it should be at `now`; whether it goes on turning. At the end it
/// rests on the first row of its page.
pub fn step_page_anim(f: &mut Fence, m: &Metrics, now: u64) -> (turning: bool)
    requires
        m.wf(),
        old(f).wf(),
    ensures
        final(f).wf(),
        turning == (turning_for(*old(f), now) < ANIM_DURATION),
        *final(f) == turn_stepped(*old(f), *m, now),
{
    let (_, rows) = grid_dims(&f.cfg, m);
    let page: i128 = f.model.page as i128;
    proof {
        top_bound(page as int, rows as int);
    }
    let target: i128 = page * (rows as i128) * ROW;
    let elapsed: u64 = if now > f.anim_started {
        now - f.anim_started
    } else {
        0
    };
    let t: u64 = animation_progress(elapsed);
    if t >= WHOLE {
        f.top_row = target;
        f.animating = false;
        false
    } else {
        f.top_row = row_between(f.anim_from, target, ease(t));
        true
    }
}

/// While a page turns its top row lies between where it began and where it goes, and it gets there.
pub proof fn turning_stays_between(from: int, target: int, elapsed: u64)
    ensures
        from <= target ==> from <= between(from, target, eased(progress(elapsed))) <= target,
        target <= from ==> target <= between(from, target, eased(progress(elapsed))) <= from,
        elapsed >= ANIM_DURATION ==> between(from, target, eased(progress(elapsed))) == target,
{
    let t = progress(elapsed);
    let left = WHOLE - t;
    assert(0 <= left * left * left <= 1_000_000_000_000_000_000) by (nonlinear_arith)
        requires
            0 <= left <= 1_000_000,
    ;
    if elapsed >= ANIM_DURATION {
        assert(left * left * left == 0) by (nonlinear_arith)
            requires
                left == 0,
        ;
    }
    between_lies_between(from, target, eased(t));
}

/// A page that turns gets to its first row, and rests there, once a fifth of a second has gone by; before
/// that its top row is between the row it began at and that one. Nothing else of the fence changes.
pub proof fn a_turned_page_comes_to_rest(f: Fence, m: Metrics, now: u64)
    requires
        m.wf(),
        f.wf(),
        now >= f.anim_started,
    ensures
        ({
            let after = turn_stepped(f, m, now);
            let target = f.model.page * rows(f.cfg.h as int, m) * 1_000_000;
            &&& now - f.anim_started >= 200_000 ==> after.top_row == target && !after.animating
            &&& now - f.anim_started < 200_000 ==> after.animating == f.animating && (f.anim_from
                <= after.top_row <= target || target <= after.top_row <= f.anim_from)
            &&& after.model == f.model && after.cfg == f.cfg && after.interaction == f.interaction
            &&& after.anim_from == f.anim_from && after.anim_started == f.anim_started
        }),
{
    let target = page_top(f, m);
    let shown = rows(f.cfg.h as int, m);
    quotient_bound(f.cfg.h - m.frame_h(), m.cell_h as int, i32::MAX as int);
    top_bound(f.model.page as int, shown);
    let elapsed = turning_for(f, now);
    turning_stays_between(f.anim_from as int, target, elapsed);
}

/// A turn begins where the page stands, one frame ahead, and is not begun anew while it goes on.
pub proof fn a_turn_begins_where_the_page_stands(f: Fence, now: u64)
    ensures
        ({
            let after = turn_begun(f, now);
            &&& f.animating ==> after == f
            &&& f.hwnd == 0 ==> after == f
            &&& !f.animating && f.hwnd != 0 ==> after.animating && after.anim_from == f.top_row
                && after.anim_started <= now && (now >= 16_000 ==> now - after.anim_started
                == 16_000)
            &&& after.top_row == f.top_row && after.model == f.model && after.cfg == f.cfg
        }),
{
}

/// A fence that comes to rest shows the page it showed, or the last one where that is gone, from its first
/// row on; nothing else of it changes.
pub proof fn a_fence_rests_on_a_page_it_has(f: Fence, m: Metrics)
    requires
        m.wf(),
        f.model.entries@.len() <= usize::MAX,
    ensures
        ({
            let after = synced(f, m);
            let last = pages_of(f, m) - 1;
            &&& f.model.page <= last ==> after.model.page == f.model.page
            &&& f.model.page > last ==> after.model.page == last
            &&& after.top_row == after.model.page * rows(f.cfg.h as int, m) * 1_000_000
            &&& !after.animating
            &&& after.cfg == f.cfg && after.interaction == f.interaction
            &&& after.model.entries == f.model.entries && after.model.selected == f.model.selected
        }),
{
    let n = f.model.entries@.len() as int;
    let size = entries_per_page(f.cfg, m);
    let shown = rows(f.cfg.h as int, m);
    let q = pages_of(f, m);
    if n >= 1 && size >= 1 {
        the_pages_hold_every_entry(n, size, 0);
        assert(1 <= q <= n) by (nonlinear_arith)
            requires
                (q - 1) * size < n <= q * size,
                size >= 1,
                n >= 1,
        ;
    }
    quotient_bound(f.cfg.h - m.frame_h(), m.cell_h as int, i32::MAX as int);
    top_bound(nearest_page(f.model.page as int, q), shown);
}

/// A turn begins where the page is, never goes back, and is always ahead of an even pace: of the way
/// there is left the cube of the share of time that is left.
pub proof fn a_turn_slows_down(from: int, target: int, a: u64, b: u64)
    requires
        a <= b,
    ensures
        from <= target ==> between(from, target, eased(progress(a))) <= between(
            from,
            target,
            eased(progress(b)),
        ),
        target <= from ==> between(from, target, eased(progress(b))) <= between(
            from,
            target,
            eased(progress(a)),
        ),
        a == 0 ==> between(from, target, eased(progress(a))) == from,
        eased(progress(a)) >= progress(a),
        ({
            let left = WHOLE - progress(a);
            0 <= left * left * left - (WHOLE - eased(progress(a))) * 1_000_000_000_000
                < 1_000_000_000_000
        }),
        a <= ANIM_DURATION ==> progress(a) * ANIM_DURATION <= a * WHOLE < (progress(a) + 1)
            * ANIM_DURATION,
{
    let (s, t) = (progress(a), progress(b));
    assert(s <= t);
    let (l, k) = (WHOLE - s, WHOLE - t);
    assert(0 <= k * k * k <= l * l * l) by (nonlinear_arith)
        requires
            0 <= k <= l,
    ;
    assert(l * l * l <= l * 1_000_000_000_000) by (nonlinear_arith)
        requires
            0 <= l <= 1_000_000,
    ;
    let (e, g) = (eased(s), eased(t));
    let d = target - from;
    if a == 0 {
        assert(l == 1_000_000);
        assert(l * l * l == 1_000_000_000_000_000_000) by (nonlinear_arith)
            requires
                l == 1_000_000,
        ;
        assert(e == 0);
        assert(d * e == 0) by (nonlinear_arith)
            requires
                e == 0,
        ;
    }
    if d >= 0 {
        assert(0 <= d * e <= d * g) by (nonlinear_arith)
            requires
                0 <= e <= g,
                d >= 0,
        ;
        if d == 0 {
            assert(d * e == 0 && d * g == 0) by (nonlinear_arith)
                requires
                    d == 0,
            ;
        }
    } else {
        assert(d * g <= d * e <= 0) by (nonlinear_arith)
            requires
                0 <= e <= g,
                d < 0,
        ;
    }
}

/// The point of the grid from `origin` in steps of `step` that is nearest to `v`.
pub open spec fn nearest_point(v: int, step: int, origin: int) -> int {
    origin + round_div(v - origin, step) * step
}

/// `v` drawn to the nearest point of the grid, where that is within `percent` hundredths of a step.
pub open spec fn drawn(v: int, step: int, origin: int, percent: int) -> int {
    let target = nearest_point(v, step, origin);
    let dist = if target > v {
        target - v
    } else {
        v - target
    };
    if step > 0 && dist * 100 <= step * percent {
        target
    } else {
        v
    }
}

proof fn nearest_is_near(v: int, step: int, origin: int)
    requires
        step > 0,
    ensures
        -step <= 2 * (nearest_point(v, step, origin) - v) <= step,
{
    let n = v - origin;
    let d = step;
    if n >= 0 {
        let q = (2 * n + d) / (2 * d);
        assert(2 * d * q <= 2 * n + d && 2 * n + d < 2 * d * q + 2 * d) by (nonlinear_arith)
            requires
                q == (2 * n + d) / (2 * d),
                d > 0,
                n >= 0,
        ;
        assert(2 * d * q == 2 * (q * d)) by (nonlinear_arith);
    } else {
        let q = (d - 2 * n) / (2 * d);
        assert(2 * d * q <= d - 2 * n && d - 2 * n < 2 * d * q + 2 * d) by (nonlinear_arith)
            requires
                q == (d - 2 * n) / (2 * d),
                d > 0,
                n < 0,
        ;
        assert(2 * d * q == 2 * (q * d)) by (nonlinear_arith);
        assert((-q) * d == -(q * d)) by (nonlinear_arith);
    }
}

fn nearest(v: i32, step: i32, origin: i32) -> (target: i64)
    requires
        step > 0,
    ensures
        target == nearest_point(v as int, step as int, origin as int),
        -step <= 2 * (target - v) <= step,
{
    let n: i64 = v as i64 - origin as i64;
    let d: i64 = step as i64;
    let q: i64 = if n >= 0 {
        (2 * n + d) / (2 * d)
    } else {
        -((d - 2 * n) / (2 * d))
    };
    proof {
        nearest_is_near(v as int, step as int, origin as int);
        assert(q == round_div(n as int, d as int));
        let p = q * d;
        assert(-step <= 2 * (origin + p - v) <= step);
    }
    origin as i64 + q * d
}

/// Draws `v` to the grid; with 50 hundredths it always lands on it. A grid without steps draws
/// nothing, and nothing is drawn beyond what a coordinate can be.
pub fn magnet(v: i32, step: i32, origin: i32, percent: u32) -> (out: i32)
    ensures
        out == saturated(drawn(v as int, step as int, origin as int, percent as int)),
{
    if step <= 0 {
        return v;
    }
    let target: i64 = nearest(v, step, origin);
    let dist: i64 = if target > v as i64 {
        target - v as i64
    } else {
        v as i64 - target
    };
    proof {
        assert(0 <= step * percent <= 0x7fff_ffff * 0xffff_ffff) by (nonlinear_arith)
            requires
                0 < step <= 0x7fff_ffff,
                0 <= percent <= 0xffff_ffff,
        ;
    }
    if dist * 100 <= (step as i64) * (percent as i64) {
        if target < i32::MIN as i64 {
            i32::MIN
        } else if target > i32::MAX as i64 {
            i32::MAX
        } else {
            target as i32
        }
    } else {
        v
    }
}

proof fn no_multiple_is_nearer(v: int, step: int, origin: int, k: int)
    requires
        step > 0,
    ensures
        ({
            let e = nearest_point(v, step, origin) - v;
            let g = origin + k * step - v;
            (e >= 0 ==> e <= g || e <= -g) && (e < 0 ==> -e <= g || -e <= -g)
        }),
{
    nearest_is_near(v, step, origin);
    let q = round_div(v - origin, step);
    if k > q {
        assert(k * step >= q * step + step) by (nonlinear_arith)
            requires
                k >= q + 1,
                step > 0,
        ;
    } else if k < q {
        assert(k * step <= q * step - step) by (nonlinear_arith)
            requires
                k <= q - 1,
                step > 0,
        ;
    }
}

/// What is drawn goes to a point of the grid, and to none that is further than any other of them,
/// the `k`-th say. It is drawn if and only if a point is within `percent` hundredths of a step.
pub proof fn what_is_drawn_lands_on_the_nearest_point(
    v: int,
    step: int,
    origin: int,
    percent: int,
    k: int,
)
    requires
        step > 0,
    ensures
        ({
            let out = drawn(v, step, origin, percent);
            let g = origin + k * step;
            let near = 100 * (g - v) <= step * percent && 100 * (v - g) <= step * percent;
            &&& out != v ==> (out - origin) % step == 0 && 100 * (out - v) <= step * percent && 100
                * (v - out) <= step * percent
            &&& near ==> (out - origin) % step == 0 && (out - v) * (out - v) <= (g - v) * (g - v)
            &&& percent >= 50 ==> (out - origin) % step == 0
        }),
{
    let out = drawn(v, step, origin, percent);
    let target = nearest_point(v, step, origin);
    let q = round_div(v - origin, step);
    nearest_is_near(v, step, origin);
    no_multiple_is_nearer(v, step, origin, k);
    assert((q * step) % step == 0) by {
        vstd::arithmetic::div_mod::lemma_mod_multiples_basic(q, step);
    }
    assert(target - origin == q * step);
    let (e, g) = (target - v, origin + k * step - v);
    assert(e * e <= g * g) by (nonlinear_arith)
        requires
            (e >= 0 ==> e <= g || e <= -g),
            (e < 0 ==> -e <= g || -e <= -g),
    ;
    assert(percent >= 50 ==> step * percent >= 50 * step) by (nonlinear_arith)
        requires
            step > 0,
    ;
}

/// `v` pulled towards the nearest point of the grid, the harder the nearer it is: by the square of
/// how near it is within half a step. In whole pixels.
pub open spec fn pulled(v: int, step: int, origin: int) -> int {
    let target = nearest_point(v, step, origin);
    let dist = if target > v {
        target - v
    } else {
        v - target
    };
    if step <= 0 || 2 * dist >= step {
        v
    } else {
        let near = step - 2 * dist;
        round_div(v * (step * step) + (target - v) * (near * near), step * step)
    }
}

/// A value that is `e` from the `k`-th point of the grid, less than half a step, is pulled towards that
/// point and never past it, by `e` times the square of how near it is; one half a step away stays.
pub proof fn a_pull_leads_to_the_grid(step: int, origin: int, k: int, e: int)
    requires
        step > 0,
        -step <= 2 * e <= step,
    ensures
        ({
            let at = origin + k * step;
            let out = pulled(at + e, step, origin);
            let near = step - 2 * (if e < 0 {
                -e
            } else {
                e
            });
            &&& e >= 0 ==> at <= out <= at + e
            &&& e <= 0 ==> at + e <= out <= at
            &&& 2 * e == step || 2 * e == -step ==> out == at + e
            &&& -(step * step) <= 2 * ((at + e - out) * (step * step) - e * (near * near)) <= step
                * step
        }),
{
    let at = origin + k * step;
    let v = at + e;
    let s2 = step * step;
    let near = step - 2 * (if e < 0 {
        -e
    } else {
        e
    });
    let n2 = near * near;
    assert(s2 > 0) by (nonlinear_arith)
        requires
            step > 0,
            s2 == step * step,
    ;
    no_multiple_is_nearer(v, step, origin, k);
    nearest_is_near(v, step, origin);
    if 2 * e == step || 2 * e == -step {
        let target = nearest_point(v, step, origin);
        let q = round_div(v - origin, step);
        half_is_furthest(step, k, e, q);
        assert(near == 0);
        assert(e * (near * near) == 0 && (at + e - v) * s2 == 0) by (nonlinear_arith)
            requires
                near == 0,
                at + e - v == 0,
        ;
    } else {
        let q = round_div(v - origin, step);
        nearest_is_one(step, k, e, q);
        assert(nearest_point(v, step, origin) == at);
        let n = v * s2 + (at - v) * n2;
        let out = pulled(v, step, origin);
        assert(out == round_div(n, s2));
        rounding_is_near(n, s2);
        assert(0 <= n2 <= s2) by (nonlinear_arith)
            requires
                0 <= near <= step,
                n2 == near * near,
                s2 == step * step,
        ;
        assert((at - v) * n2 == -(e * n2)) by (nonlinear_arith)
            requires
                at - v == -e,
        ;
        assert((v - out) * s2 == v * s2 - out * s2) by (nonlinear_arith);
        if e >= 0 {
            assert(0 <= e * n2 <= e * s2) by (nonlinear_arith)
                requires
                    0 <= n2 <= s2,
                    e >= 0,
            ;
        } else {
            assert(e * s2 <= e * n2 <= 0) by (nonlinear_arith)
                requires
                    0 <= n2 <= s2,
                    e < 0,
            ;
        }
        assert(v * s2 == at * s2 + e * s2) by (nonlinear_arith)
            requires
                v == at + e,
        ;
        rounding_keeps_bounds(n, s2, out, if e >= 0 {
            at
        } else {
            v
        }, if e >= 0 {
            v
        } else {
            at
        });
    }
}

proof fn rounding_is_near(n: int, d: int)
    requires
        d > 0,
    ensures
        -d <= 2 * (round_div(n, d) * d - n) <= d,
{
    nearest_is_near(n, d, 0);
}

proof fn rounding_keeps_bounds(n: int, d: int, out: int, low: int, high: int)
    requires
        d > 0,
        -d <= 2 * (out * d - n) <= d,
        low * d <= n <= high * d,
    ensures
        low <= out <= high,
{
    if out < low {
        assert(out * d <= low * d - d) by (nonlinear_arith)
            requires
                out <= low - 1,
                d > 0,
        ;
    }
    if out > high {
        assert(out * d >= high * d + d) by (nonlinear_arith)
            requires
                out >= high + 1,
                d > 0,
        ;
    }
}

proof fn nearest_is_one(step: int, k: int, e: int, q: int)
    requires
        step > 0,
        -step < 2 * e < step,
        -step <= 2 * (q * step - (k * step + e)) <= step,
    ensures
        q == k,
{
    if q > k {
        assert(q * step >= k * step + step) by (nonlinear_arith)
            requires
                q >= k + 1,
                step > 0,
        ;
    } else if q < k {
        assert(q * step <= k * step - step) by (nonlinear_arith)
            requires
                q <= k - 1,
                step > 0,
        ;
    }
}

proof fn half_is_furthest(step: int, k: int, e: int, q: int)
    requires
        step > 0,
        2 * e == step || 2 * e == -step,
        -step <= 2 * (q * step - (k * step + e)) <= step,
    ensures
        2 * (q * step - (k * step + e)) == step || 2 * (q * step - (k * step + e)) == -step,
{
    if q > k {
        assert(q * step >= k * step + step) by (nonlinear_arith)
            requires
                q >= k + 1,
                step > 0,
        ;
    } else if q < k {
        assert(q * step <= k * step - step) by (nonlinear_arith)
            requires
                q <= k - 1,
                step > 0,
        ;
    }
}

/// A pull moves nothing by more than half a step.
pub proof fn a_pull_is_short(v: int, step: int, origin: int)
    requires
        step > 0,
    ensures
        -step <= 2 * (pulled(v, step, origin) - v) <= step,
{
    let k = round_div(v - origin, step);
    let e = v - (origin + k * step);
    nearest_is_near(v, step, origin);
    a_pull_leads_to_the_grid(step, origin, k, e);
}

/// Pulls `v` towards the grid without a jump, while it follows the pointer; see [`pulled`].
pub fn magnet_smooth(v: i32, step: i32, origin: i32) -> (out: i32)
    ensures
        out == saturated(pulled(v as int, step as int, origin as int)),
{
    if step <= 0 {
        return v;
    }
    let target: i64 = nearest(v, step, origin);
    let dist: i64 = if target > v as i64 {
        target - v as i64
    } else {
        v as i64 - target
    };
    if 2 * dist >= step as i64 {
        return v;
    }
    let near: i128 = step as i128 - 2 * (dist as i128);
    let s: i128 = step as i128;
    let gap: i128 = target as i128 - v as i128;
    let vv: i128 = v as i128;
    proof {
        assert(0 < s * s <= 0x4000_0000_0000_0000) by (nonlinear_arith)
            requires
                0 < s <= 0x7fff_ffff,
        ;
        assert(0 < near * near <= 0x4000_0000_0000_0000) by (nonlinear_arith)
            requires
                0 < near <= 0x7fff_ffff,
        ;
        let s2 = s * s;
        let n2 = near * near;
        assert(-0x8000_0000 * 0x4000_0000_0000_0000 <= vv * s2 <= 0x8000_0000
            * 0x4000_0000_0000_0000) by (nonlinear_arith)
            requires
                -0x8000_0000 <= vv <= 0x7fff_ffff,
                0 < s2 <= 0x4000_0000_0000_0000,
        ;
        assert(-0x8000_0000 * 0x4000_0000_0000_0000 <= gap * n2 <= 0x8000_0000
            * 0x4000_0000_0000_0000) by (nonlinear_arith)
            requires
                -0x8000_0000 <= gap <= 0x7fff_ffff,
                0 < n2 <= 0x4000_0000_0000_0000,
        ;
    }
    let d: i128 = s * s;
    let n: i128 = vv * d + gap * (near * near);
    let q: i128 = if n >= 0 {
        (2 * n + d) / (2 * d)
    } else {
        -((d - 2 * n) / (2 * d))
    };
    if q < i32::MIN as i128 {
        i32::MIN
    } else if q > i32::MAX as i128 {
        i32::MAX
    } else {
        q as i32
    }
}

/// Pulls the size `v` towards whole cells beside `base`.
pub fn magnet_size_smooth(v: i32, step: i32, base: i32) -> (out: i32)
    ensures
        out == saturated(pulled(v as int, step as int, base as int)),
{
    magnet_smooth(v, step, base)
}

/// The length of a whole number of cells with `frame` around them that is nearest to `len`: at
/// least one cell, at least `min`.
pub open spec fn snapped(len: int, frame: int, cell: int, min: int) -> int {
    let n = round_div(len - frame, cell);
    let whole = frame + (if n < 1 {
        1
    } else {
        n
    }) * cell;
    saturated(
        if whole < min {
            min
        } else {
            whole
        },
    )
}

fn snap(len: i32, frame: i64, cell: i32, min: i32) -> (out: i32)
    requires
        0 <= frame <= 0x100_0000,
        0 < cell <= MAX_MEASURE,
        0 < min <= MAX_MEASURE,
    ensures
        out == snapped(len as int, frame as int, cell as int, min as int),
        out >= min,
{
    let n: i64 = len as i64 - frame;
    let d: i64 = cell as i64;
    let q: i64 = if n >= 0 {
        (2 * n + d) / (2 * d)
    } else {
        -((d - 2 * n) / (2 * d))
    };
    let count: i64 = if q < 1 {
        proof {
            assert(q == round_div(n as int, d as int));
        }
        1
    } else {
        proof {
            assert(n >= 0 && 2 * (q * d) <= 2 * n + d) by {
                if n < 0 {
                    assert((d - 2 * n) / (2 * d) >= 0) by (nonlinear_arith)
                        requires
                            n < 0,
                            d > 0,
                    ;
                }
                assert(2 * (q * d) <= 2 * n + d) by (nonlinear_arith)
                    requires
                        q == (2 * n + d) / (2 * d),
                        d > 0,
                        n >= 0,
                ;
            }
        }
        q
    };
    proof {
        if q < 1 {
            assert(count * d == d);
        }
        assert(count * d >= 1) by (nonlinear_arith)
            requires
                count >= 1,
                d >= 1,
        ;
    }
    let whole: i64 = frame + count * d;
    let out: i64 = if whole < min as i64 {
        min as i64
    } else {
        whole
    };
    if out > i32::MAX as i64 {
        i32::MAX
    } else {
        out as i32
    }
}

/// The size of whole cells that is nearest to `w` and `h`.
pub fn snap_size(w: i32, h: i32, m: &Metrics) -> (size: (i32, i32))
    requires
        m.wf(),
    ensures
        size.0 == snapped(w as int, m.frame_w(), m.cell_w as int, m.min_w as int),
        size.1 == snapped(h as int, m.frame_h(), m.cell_h as int, m.min_h as int),
        size.0 >= m.min_w,
        size.1 >= m.min_h,
{
    let frame_w: i64 = 2 * (m.margin as i64) + m.rail as i64;
    let frame_h: i64 = m.title_h as i64 + 2 * (m.margin as i64);
    (snap(w, frame_w, m.cell_w, m.min_w), snap(h, frame_h, m.cell_h, m.min_h))
}

/// Whether two rectangles share a point inside.
pub open spec fn overlap(
    ax: int,
    ay: int,
    aw: int,
    ah: int,
    bx: int,
    by: int,
    bw: int,
    bh: int,
) -> bool {
    ax < bx + bw && ax + aw > bx && ay < by + bh && ay + ah > by
}

/// See [`overlap`].
pub fn rects_overlap(
    ax: i32,
    ay: i32,
    aw: i32,
    ah: i32,
    bx: i32,
    by: i32,
    bw: i32,
    bh: i32,
) -> (yes: bool)
    ensures
        yes == overlap(
            ax as int,
            ay as int,
            aw as int,
            ah as int,
            bx as int,
            by as int,
            bw as int,
            bh as int,
        ),
{
    (ax as i64) < bx as i64 + bw as i64 && ax as i64 + aw as i64 > bx as i64 && (ay as i64)
        < by as i64 + bh as i64 && ay as i64 + ah as i64 > by as i64
}

/// Whether a rectangle overlaps the fence `o`.
pub open spec fn overlaps_fence(o: Fence, x: int, y: int, w: int, h: int) -> bool {
    o.valid && overlap(
        x,
        y,
        w,
        h,
        o.cfg.x as int,
        o.cfg.y as int,
        o.cfg.w as int,
        o.cfg.h as int,
    )
}

/// Whether a rectangle overlaps a fence other than the one at `idx`.
pub open spec fn overlaps_other(fences: Seq<Fence>, idx: int, x: int, y: int, w: int, h: int) -> bool {
    exists|i: int|
        0 <= i < fences.len() && i != idx && overlaps_fence(#[trigger] fences[i], x, y, w, h)
}

/// See [`overlaps_other`].
pub fn overlaps_any(fences: &Vec<Fence>, self_idx: usize, x: i32, y: i32, w: i32, h: i32) -> (yes:
    bool)
    ensures
        yes == overlaps_other(fences@, self_idx as int, x as int, y as int, w as int, h as int),
{
    for i in 0..fences.len()
        invariant
            forall|j: int|
                0 <= j < i && j != self_idx ==> !overlaps_fence(
                    #[trigger] fences@[j],
                    x as int,
                    y as int,
                    w as int,
                    h as int,
                ),
    {
        let o = &fences[i];
        if i != self_idx && o.valid && rects_overlap(
            x,
            y,
            w,
            h,
            o.cfg.x,
            o.cfg.y,
            o.cfg.w,
            o.cfg.h,
        ) {
            assert(overlaps_fence(fences@[i as int], x as int, y as int, w as int, h as int));
            return true;
        }
    }
    false
}

/// `v` held between `low` and the higher of `low` and `high`.
pub open spec fn held(v: int, low: int, high: int) -> int {
    let top = if high < low {
        low
    } else {
        high
    };
    if v < low {
        low
    } else if v > top {
        top
    } else {
        v
    }
}

/// `v` held so that `len` from it lies within `low` and `high`, where it can; else at `low`.
pub fn hold_inside(v: i32, len: i32, low: i32, high: i32) -> (out: i32)
    ensures
        out == held(v as int, low as int, high - len),
{
    let top: i64 = high as i64 - len as i64;
    let top: i64 = if top < low as i64 {
        low as i64
    } else {
        top
    };
    if v < low {
        low
    } else if v as i64 > top {
        top as i32
    } else {
        v
    }
}

/// The place `i` cells to the right of `at` and `j` cells below it.
pub open spec fn slot(at: (int, int), i: int, j: int, m: Metrics) -> (int, int) {
    (at.0 + i * m.cell_w, at.1 + j * m.cell_h)
}

/// Whether a rectangle at `at` lies within `area`.
pub open spec fn inside(at: (int, int), w: int, h: int, area: Area) -> bool {
    area.left <= at.0 && area.top <= at.1 && at.0 + w <= area.right && at.1 + h <= area.bottom
}

/// Whether the fence at `idx` can stand at `at`.
pub open spec fn is_free(
    fences: Seq<Fence>,
    idx: int,
    at: (int, int),
    w: int,
    h: int,
    area: Area,
) -> bool {
    inside(at, w, h, area) && !overlaps_other(fences, idx, at.0, at.1, w, h)
}

/// Where a fence of size `w` and `h` that was left at `x` and `y` first comes to rest: on the grid,
/// within the work area.
pub open spec fn rest_point(x: int, y: int, w: int, h: int, m: Metrics, area: Area) -> (int, int) {
    (
        held(
            saturated(drawn(x, m.cell_w as int, area.left as int, 50)),
            area.left as int,
            area.right - w,
        ),
        held(
            saturated(drawn(y, m.cell_h as int, area.top as int, 50)),
            area.top as int,
            area.bottom - h,
        ),
    )
}

/// The square of how far `p` is from `rest`.
pub open spec fn away(rest: (int, int), p: (int, int)) -> int {
    (p.0 - rest.0) * (p.0 - rest.0) + (p.1 - rest.1) * (p.1 - rest.1)
}

/// Whether `p` is nearer to `rest` than `q`, or as near and first in order: what is less far up or
/// down comes first, then what is further up, then what is further left. So of the four neighbours
/// of a place in a square grid the left one comes first, then the right, the upper and the lower one.
pub open spec fn no_later(rest: (int, int), p: (int, int), q: (int, int)) -> bool {
    let (d, e) = (away(rest, p), away(rest, q));
    let (u, v) = (span_of(p.1 - rest.1), span_of(q.1 - rest.1));
    d < e || (d == e && (u < v || (u == v && (p.1 < q.1 || (p.1 == q.1 && p.0 <= q.0)))))
}

/// `d` without its sign.
pub open spec fn span_of(d: int) -> int {
    if d < 0 {
        -d
    } else {
        d
    }
}

/// Whether the slot `i` cells to the right of `rest` and `j` below it is the nearest that the fence
/// at `idx` can stand at.
pub open spec fn is_nearest(
    fences: Seq<Fence>,
    idx: int,
    rest: (int, int),
    w: int,
    h: int,
    m: Metrics,
    area: Area,
    i: int,
    j: int,
) -> bool {
    is_free(fences, idx, slot(rest, i, j, m), w, h, area) && forall|k: int, l: int|
        is_free(fences, idx, #[trigger] slot(rest, k, l, m), w, h, area) ==> no_later(
            rest,
            slot(rest, i, j, m),
            slot(rest, k, l, m),
        )
}

/// Whether the fence at `idx` that came to rest at `rest` settles at `at`: there, if it overlaps no
/// other fence; else at the nearest slot that is free; and where none is, there after all.
pub open spec fn settles_at(
    fences: Seq<Fence>,
    idx: int,
    rest: (int, int),
    w: int,
    h: int,
    m: Metrics,
    area: Area,
    at: (int, int),
) -> bool {
    if !overlaps_other(fences, idx, rest.0, rest.1, w, h) {
        at == rest
    } else {
        ||| exists|i: int, j: int|
            at == #[trigger] slot(rest, i, j, m) && is_nearest(
                fences,
                idx,
                rest,
                w,
                h,
                m,
                area,
                i,
                j,
            )
        ||| at == rest && forall|i: int, j: int|
            !is_free(fences, idx, #[trigger] slot(rest, i, j, m), w, h, area)
    }
}

/// Whether `p` comes before `q`; see [`no_later`].
fn comes_before(rest: (i32, i32), p: (i32, i32), q: (i32, i32)) -> (yes: bool)
    ensures
        yes == !no_later(
            (rest.0 as int, rest.1 as int),
            (q.0 as int, q.1 as int),
            (p.0 as int, p.1 as int),
        ),
{
    let (px, py): (i128, i128) = (p.0 as i128 - rest.0 as i128, p.1 as i128 - rest.1 as i128);
    let (qx, qy): (i128, i128) = (q.0 as i128 - rest.0 as i128, q.1 as i128 - rest.1 as i128);
    proof {
        small_square(px as int);
        small_square(py as int);
        small_square(qx as int);
        small_square(qy as int);
    }
    let d: i128 = px * px + py * py;
    let e: i128 = qx * qx + qy * qy;
    let u: i128 = if py < 0 {
        -py
    } else {
        py
    };
    let v: i128 = if qy < 0 {
        -qy
    } else {
        qy
    };
    d < e || (d == e && (u < v || (u == v && (p.1 < q.1 || (p.1 == q.1 && p.0 < q.0)))))
}

proof fn small_square(d: int)
    requires
        -0x1_0000_0000 <= d <= 0x1_0000_0000,
    ensures
        0 <= d * d <= 0x1_0000_0000_0000_0000,
{
    assert(0 <= d * d <= 0x1_0000_0000 * 0x1_0000_0000) by (nonlinear_arith)
        requires
            -0x1_0000_0000 <= d <= 0x1_0000_0000,
    ;
}

/// Whether `n` is a whole number of steps from `from`: `k` of them.
spec fn steps_to(from: int, step: int, k: int, n: int) -> bool {
    n == from + k * step
}

proof fn next_step(from: int, step: int, k: int, n: int)
    requires
        steps_to(from, step, k, n),
    ensures
        steps_to(from, step, k + 1, n + step),
{
    assert((k + 1) * step == k * step + step) by (nonlinear_arith);
}

/// Between two steps there is none.
proof fn no_step_between(from: int, step: int, k: int, n: int, l: int)
    requires
        step > 0,
        steps_to(from, step, k, n),
        n <= from + l * step < n + step,
    ensures
        l == k,
{
    assert(l == k) by (nonlinear_arith)
        requires
            step > 0,
            k * step <= l * step < k * step + step,
    ;
}

/// What is fewer than `k` steps away lies a whole step or more before the `k`-th.
proof fn no_step_before(from: int, step: int, k: int, n: int, l: int)
    requires
        step > 0,
        steps_to(from, step, k, n),
        from + l * step < n,
    ensures
        from + l * step <= n - step,
{
    assert(l * step <= k * step - step) by (nonlinear_arith)
        requires
            step > 0,
            l * step < k * step,
    ;
}

/// The first step from `low` on, of those that lead from `from`.
fn first_step(from: i32, step: i32, low: i32) -> (n: i64)
    requires
        step > 0,
    ensures
        low <= n < low + step,
        exists|k: int| #[trigger] steps_to(from as int, step as int, k, n as int),
{
    let s: i64 = step as i64;
    if from >= low {
        let d: i64 = from as i64 - low as i64;
        let r: i64 = d % s;
        proof {
            vstd::arithmetic::div_mod::lemma_fundamental_div_mod(d as int, s as int);
            let q = d as int / s as int;
            assert((-q) * s == -(s * q)) by (nonlinear_arith);
            assert(steps_to(from as int, s as int, -q, low + r));
        }
        low as i64 + r
    } else {
        let d: i64 = low as i64 - from as i64;
        let r: i64 = d % s;
        proof {
            vstd::arithmetic::div_mod::lemma_fundamental_div_mod(d as int, s as int);
            let q = d as int / s as int;
            assert(q * s == s * q) by (nonlinear_arith);
            assert((q + 1) * s == s * q + s) by (nonlinear_arith);
            assert(r == 0 ==> steps_to(from as int, s as int, q, low as int));
            assert(steps_to(from as int, s as int, q + 1, low + (s - r)));
        }
        if r == 0 {
            low as i64
        } else {
            low as i64 + (s - r)
        }
    }
}

/// Whether a place is one of those looked at when the look, row by row, is at (`x`, `y`).
spec fn is_looked_at(x: int, y: int, p: (int, int)) -> bool {
    p.1 < y || (p.1 == y && p.0 < x)
}

/// Whether `best` is the nearest free slot of those looked at.
spec fn is_best_so_far(
    fences: Seq<Fence>,
    idx: int,
    rest: (int, int),
    w: int,
    h: int,
    m: Metrics,
    area: Area,
    x: int,
    y: int,
    best: Option<(i32, i32)>,
) -> bool {
    match best {
        Some(b) => {
            let b = (b.0 as int, b.1 as int);
            &&& exists|i: int, j: int| b == #[trigger] slot(rest, i, j, m)
            &&& is_free(fences, idx, b, w, h, area)
            &&& forall|k: int, l: int|
                is_free(fences, idx, #[trigger] slot(rest, k, l, m), w, h, area) && is_looked_at(
                    x,
                    y,
                    slot(rest, k, l, m),
                ) ==> no_later(rest, b, slot(rest, k, l, m))
        },
        None => forall|k: int, l: int|
            is_looked_at(x, y, #[trigger] slot(rest, k, l, m)) ==> !is_free(
                fences,
                idx,
                slot(rest, k, l, m),
                w,
                h,
                area,
            ),
    }
}

/// The nearest slot around `rest` where the fence at `idx` can stand, if there is any.
fn nearest_free_slot(
    fences: &Vec<Fence>,
    idx: usize,
    rest: (i32, i32),
    w: i32,
    h: i32,
    m: &Metrics,
    area: &Area,
) -> (best: Option<(i32, i32)>)
    requires
        m.wf(),
        w >= 0,
        h >= 0,
    ensures
        ({
            let from = (rest.0 as int, rest.1 as int);
            match best {
                Some(b) => exists|i: int, j: int|
                    (b.0 as int, b.1 as int) == #[trigger] slot(from, i, j, *m) && is_nearest(
                        fences@,
                        idx as int,
                        from,
                        w as int,
                        h as int,
                        *m,
                        *area,
                        i,
                        j,
                    ),
                None => forall|i: int, j: int|
                    !is_free(
                        fences@,
                        idx as int,
                        #[trigger] slot(from, i, j, *m),
                        w as int,
                        h as int,
                        *area,
                    ),
            }
        }),
{
    let ghost from = (rest.0 as int, rest.1 as int);
    let ghost cw = m.cell_w as int;
    let ghost ch = m.cell_h as int;
    let x0: i64 = first_step(rest.0, m.cell_w, area.left);
    let y0: i64 = first_step(rest.1, m.cell_h, area.top);
    let ghost a0 = choose|k: int| #[trigger] steps_to(from.0, cw, k, x0 as int);
    let ghost mut b = choose|k: int| #[trigger] steps_to(from.1, ch, k, y0 as int);
    let mut best: Option<(i32, i32)> = None;
    let mut y: i64 = y0;
    proof {
        assert forall|k: int, l: int|
            is_looked_at(x0 as int, y as int, #[trigger] slot(from, k, l, *m)) implies !is_free(
            fences@,
            idx as int,
            slot(from, k, l, *m),
            w as int,
            h as int,
            *area,
        ) by {
            if slot(from, k, l, *m).1 < y {
                no_step_before(from.1, ch, b, y as int, l);
            } else {
                no_step_before(from.0, cw, a0, x0 as int, k);
            }
        }
    }
    while y + h as i64 <= area.bottom as i64
        invariant
            m.wf(),
            w >= 0,
            h >= 0,
            from == (rest.0 as int, rest.1 as int),
            cw == m.cell_w,
            ch == m.cell_h,
            area.left <= x0 < area.left + cw,
            steps_to(from.0, cw, a0, x0 as int),
            area.top <= y <= 0x1_0000_0000,
            steps_to(from.1, ch, b, y as int),
            is_best_so_far(
                fences@,
                idx as int,
                from,
                w as int,
                h as int,
                *m,
                *area,
                x0 as int,
                y as int,
                best,
            ),
        decreases 0x2_0000_0000 - y,
    {
        let mut x: i64 = x0;
        let ghost mut a = a0;
        while x + w as i64 <= area.right as i64
            invariant
                m.wf(),
                w >= 0,
                h >= 0,
                from == (rest.0 as int, rest.1 as int),
                cw == m.cell_w,
                ch == m.cell_h,
                area.left <= x0 < area.left + cw,
                steps_to(from.0, cw, a0, x0 as int),
                area.top <= y <= 0x1_0000_0000,
                steps_to(from.1, ch, b, y as int),
                y + h <= area.bottom,
                area.left <= x <= 0x1_0000_0000,
                steps_to(from.0, cw, a, x as int),
                is_best_so_far(
                    fences@,
                    idx as int,
                    from,
                    w as int,
                    h as int,
                    *m,
                    *area,
                    x as int,
                    y as int,
                    best,
                ),
            decreases 0x2_0000_0000 - x,
        {
            let here: (i32, i32) = (x as i32, y as i32);
            let sooner: bool = match best {
                Some(known) => comes_before(rest, here, known),
                None => true,
            };
            let ghost before = best;
            if sooner && !overlaps_any(fences, idx, here.0, here.1, w, h) {
                best = Some(here);
            }
            proof {
                let at = slot(from, a, b, *m);
                assert(at == (x as int, y as int));
                assert forall|k: int, l: int|
                    is_looked_at(
                        x + cw,
                        y as int,
                        #[trigger] slot(from, k, l, *m),
                    ) implies is_looked_at(x as int, y as int, slot(from, k, l, *m)) || slot(
                    from,
                    k,
                    l,
                    *m,
                ) == at by {
                    let s = slot(from, k, l, *m);
                    if s.1 == y && x <= s.0 {
                        no_step_between(from.0, cw, a, x as int, k);
                    }
                }
                next_step(from.0, cw, a, x as int);
                a = a + 1;
            }
            x += m.cell_w as i64;
        }
        proof {
            assert forall|k: int, l: int|
                is_looked_at(x0 as int, y + ch, #[trigger] slot(from, k, l, *m)) && is_free(
                    fences@,
                    idx as int,
                    slot(from, k, l, *m),
                    w as int,
                    h as int,
                    *area,
                ) implies is_looked_at(x as int, y as int, slot(from, k, l, *m)) by {
                let s = slot(from, k, l, *m);
                if s.1 == y + ch {
                    no_step_before(from.0, cw, a0, x0 as int, k);
                } else if s.1 >= y {
                    no_step_between(from.1, ch, b, y as int, l);
                }
            }
            next_step(from.1, ch, b, y as int);
            b = b + 1;
        }
        y += m.cell_h as i64;
    }
    proof {
        assert forall|k: int, l: int|
            is_free(
                fences@,
                idx as int,
                #[trigger] slot(from, k, l, *m),
                w as int,
                h as int,
                *area,
            ) implies is_looked_at(x0 as int, y as int, slot(from, k, l, *m)) by {}
        if let Some(known) = best {
            let (i, j) = choose|i: int, j: int|
                (known.0 as int, known.1 as int) == #[trigger] slot(from, i, j, *m);
            assert(is_nearest(
                fences@,
                idx as int,
                from,
                w as int,
                h as int,
                *m,
                *area,
                i,
                j,
            ));
        }
    }
    best
}

/// Where the fence at `idx`, of size `w` and `h`, settles from `rest`; see [`settles_at`].
pub fn find_place(
    fences: &Vec<Fence>,
    idx: usize,
    rest: (i32, i32),
    w: i32,
    h: i32,
    m: &Metrics,
    area: &Area,
) -> (at: (i32, i32))
    requires
        m.wf(),
        w >= 0,
        h >= 0,
    ensures
        settles_at(
            fences@,
            idx as int,
            (rest.0 as int, rest.1 as int),
            w as int,
            h as int,
            *m,
            *area,
            (at.0 as int, at.1 as int),
        ),
{
    if !overlaps_any(fences, idx, rest.0, rest.1, w, h) {
        return rest;
    }
    match nearest_free_slot(fences, idx, rest, w, h, m, area) {
        Some(at) => at,
        None => rest,
    }
}

/// What settling does to the fence at `idx`.
pub open spec fn settled(
    before: Seq<Fence>,
    after: Seq<Fence>,
    idx: int,
    m: Metrics,
    area: Area,
) -> bool {
    let old_cfg = before[idx].cfg;
    let new_cfg = after[idx].cfg;
    &&& after.len() == before.len()
    &&& forall|i: int| 0 <= i < before.len() && i != idx ==> #[trigger] after[i] == before[i]
    &&& new_cfg.w == snapped(old_cfg.w as int, m.frame_w(), m.cell_w as int, m.min_w as int)
    &&& new_cfg.h == snapped(old_cfg.h as int, m.frame_h(), m.cell_h as int, m.min_h as int)
    &&& settles_at(
        before,
        idx,
        rest_point(
            old_cfg.x as int,
            old_cfg.y as int,
            new_cfg.w as int,
            new_cfg.h as int,
            m,
            area,
        ),
        new_cfg.w as int,
        new_cfg.h as int,
        m,
        area,
        (new_cfg.x as int, new_cfg.y as int),
    )
    &&& after[idx] == synced(
        Fence {
            cfg: FenceCfg {
                x: new_cfg.x,
                y: new_cfg.y,
                w: new_cfg.w,
                h: new_cfg.h,
                ..old_cfg
            },
            ..before[idx]
        },
        m,
    )
}

/// Brings the fence at `idx` to rest: whole cells in size, on the grid, within the work area, and
/// clear of other fences, on the nearest slot that is free, where there is one.
pub fn settle_fence(fences: &mut Vec<Fence>, idx: usize, m: &Metrics, area: &Area)
    requires
        m.wf(),
    ensures
        idx >= old(fences)@.len() ==> final(fences)@ == old(fences)@,
        idx < old(fences)@.len() ==> settled(
            old(fences)@,
            final(fences)@,
            idx as int,
            *m,
            *area,
        ),
        (forall|i: int| 0 <= i < old(fences)@.len() ==> (#[trigger] old(fences)@[i]).wf()) ==> (
        forall|i: int| 0 <= i < final(fences)@.len() ==> (#[trigger] final(fences)@[i]).wf()),
{
    if idx >= fences.len() {
        return ;
    }
    let (nw, nh) = snap_size(fences[idx].cfg.w, fences[idx].cfg.h, m);
    let x: i32 = magnet(fences[idx].cfg.x, m.cell_w, area.left, 50);
    let y: i32 = magnet(fences[idx].cfg.y, m.cell_h, area.top, 50);
    let rest: (i32, i32) = (
        hold_inside(x, nw, area.left, area.right),
        hold_inside(y, nh, area.top, area.bottom),
    );
    let (nx, ny) = find_place(fences, idx, rest, nw, nh, m, area);
    let f = &mut fences[idx];
    f.cfg.x = nx;
    f.cfg.y = ny;
    f.cfg.w = nw;
    f.cfg.h = nh;
    sync_page(f, m);
}

/// A settled fence that fits into the work area lies within it, and it overlaps another fence only
/// where no slot of the work area is free.
pub proof fn a_settled_fence_is_inside_and_clear(
    before: Seq<Fence>,
    after: Seq<Fence>,
    idx: int,
    m: Metrics,
    area: Area,
)
    requires
        0 <= idx < before.len(),
        settled(before, after, idx, m, area),
    ensures
        ({
            let c = after[idx].cfg;
            let at = (c.x as int, c.y as int);
            let rest = rest_point(
                before[idx].cfg.x as int,
                before[idx].cfg.y as int,
                c.w as int,
                c.h as int,
                m,
                area,
            );
            &&& c.w <= area.right - area.left && c.h <= area.bottom - area.top ==> inside(
                at,
                c.w as int,
                c.h as int,
                area,
            )
            &&& overlaps_other(after, idx, at.0, at.1, c.w as int, c.h as int) ==> forall|
                i: int,
                j: int,
            |
                !is_free(before, idx, #[trigger] slot(rest, i, j, m), c.w as int, c.h as int, area)
        }),
{
    let c = after[idx].cfg;
    if overlaps_other(after, idx, c.x as int, c.y as int, c.w as int, c.h as int) {
        let i = choose|i: int|
            0 <= i < after.len() && i != idx && overlaps_fence(
                #[trigger] after[i],
                c.x as int,
                c.y as int,
                c.w as int,
                c.h as int,
            );
        assert(after[i] == before[i]);
        assert(overlaps_other(before, idx, c.x as int, c.y as int, c.w as int, c.h as int));
    }
}

/// A fence settles at one place: of two slots that are equally near, one comes first.
pub proof fn a_fence_settles_at_one_place(
    fences: Seq<Fence>,
    idx: int,
    rest: (int, int),
    w: int,
    h: int,
    m: Metrics,
    area: Area,
    at: (int, int),
    other: (int, int),
)
    requires
        settles_at(fences, idx, rest, w, h, m, area, at),
        settles_at(fences, idx, rest, w, h, m, area, other),
    ensures
        at == other,
{
    if overlaps_other(fences, idx, rest.0, rest.1, w, h) {
        if exists|i: int, j: int| is_free(fences, idx, #[trigger] slot(rest, i, j, m), w, h, area) {
            assert(no_later(rest, at, other) && no_later(rest, other, at));
        }
    }
}

/// Two rectangles that are not empty overlap if and only if they have a pixel in common.
pub proof fn what_overlaps_shares_a_pixel(
    ax: int,
    ay: int,
    aw: int,
    ah: int,
    bx: int,
    by: int,
    bw: int,
    bh: int,
)
    requires
        aw > 0,
        ah > 0,
        bw > 0,
        bh > 0,
    ensures
        overlap(ax, ay, aw, ah, bx, by, bw, bh) <==> exists|px: int, py: int| #[trigger]
            has_pixel(ax, ay, aw, ah, px, py) && has_pixel(bx, by, bw, bh, px, py),
{
    if overlap(ax, ay, aw, ah, bx, by, bw, bh) {
        let px = if ax < bx {
            bx
        } else {
            ax
        };
        let py = if ay < by {
            by
        } else {
            ay
        };
        assert(has_pixel(ax, ay, aw, ah, px, py) && has_pixel(bx, by, bw, bh, px, py));
    }
}

/// Whether the fences but the one at `idx` are not empty.
pub open spec fn others_have_pixels(fences: Seq<Fence>, idx: int) -> bool {
    forall|k: int|
        0 <= k < fences.len() && k != idx && (#[trigger] fences[k]).valid ==> fences[k].cfg.w > 0
            && fences[k].cfg.h > 0
}

/// Whether no pixel of the rectangle belongs to another fence than the one at `idx`.
pub open spec fn shares_no_pixel(
    fences: Seq<Fence>,
    idx: int,
    x: int,
    y: int,
    w: int,
    h: int,
) -> bool {
    forall|k: int, px: int, py: int|
        #![trigger fences[k], has_pixel(x, y, w, h, px, py)]
        0 <= k < fences.len() && k != idx && fences[k].valid && has_pixel(x, y, w, h, px, py)
            ==> !has_pixel(
            fences[k].cfg.x as int,
            fences[k].cfg.y as int,
            fences[k].cfg.w as int,
            fences[k].cfg.h as int,
            px,
            py,
        )
}

proof fn pixels_tell_overlaps(fences: Seq<Fence>, idx: int, x: int, y: int, w: int, h: int)
    requires
        others_have_pixels(fences, idx),
        w > 0,
        h > 0,
    ensures
        overlaps_other(fences, idx, x, y, w, h) == !shares_no_pixel(fences, idx, x, y, w, h),
{
    if overlaps_other(fences, idx, x, y, w, h) {
        let k = choose|k: int|
            0 <= k < fences.len() && k != idx && overlaps_fence(#[trigger] fences[k], x, y, w, h);
        let c = fences[k].cfg;
        what_overlaps_shares_a_pixel(
            x,
            y,
            w,
            h,
            c.x as int,
            c.y as int,
            c.w as int,
            c.h as int,
        );
        let (px, py) = choose|px: int, py: int| #[trigger]
            has_pixel(x, y, w, h, px, py) && has_pixel(
                c.x as int,
                c.y as int,
                c.w as int,
                c.h as int,
                px,
                py,
            );
        assert(fences[k].valid && has_pixel(x, y, w, h, px, py));
    } else {
        assert forall|k: int, px: int, py: int|
            #![trigger fences[k], has_pixel(x, y, w, h, px, py)]
            0 <= k < fences.len() && k != idx && fences[k].valid && has_pixel(
                x,
                y,
                w,
                h,
                px,
                py,
            ) implies !has_pixel(
            fences[k].cfg.x as int,
            fences[k].cfg.y as int,
            fences[k].cfg.w as int,
            fences[k].cfg.h as int,
            px,
            py,
        ) by {
            assert(!overlaps_fence(fences[k], x, y, w, h));
        }
    }
}

/// Where the work area has room for a settled fence some whole number of cells from where it is,
/// clear of the pixels of all other fences, no pixel of the fence belongs to another one.
pub proof fn a_settled_fence_hides_no_other(
    before: Seq<Fence>,
    after: Seq<Fence>,
    idx: int,
    m: Metrics,
    area: Area,
    i: int,
    j: int,
)
    requires
        m.wf(),
        0 <= idx < before.len(),
        settled(before, after, idx, m, area),
        others_have_pixels(before, idx),
        ({
            let c = after[idx].cfg;
            let x = c.x + i * m.cell_w;
            let y = c.y + j * m.cell_h;
            &&& area.left <= x && x + c.w <= area.right
            &&& area.top <= y && y + c.h <= area.bottom
            &&& shares_no_pixel(before, idx, x, y, c.w as int, c.h as int)
        }),
    ensures
        ({
            let c = after[idx].cfg;
            shares_no_pixel(after, idx, c.x as int, c.y as int, c.w as int, c.h as int)
        }),
{
    let c = after[idx].cfg;
    let (w, h) = (c.w as int, c.h as int);
    snapping_finds_the_nearest_length(
        before[idx].cfg.w as int,
        m.frame_w(),
        m.cell_w as int,
        m.min_w as int,
    );
    snapping_finds_the_nearest_length(
        before[idx].cfg.h as int,
        m.frame_h(),
        m.cell_h as int,
        m.min_h as int,
    );
    let at = (c.x as int, c.y as int);
    let rest = rest_point(
        before[idx].cfg.x as int,
        before[idx].cfg.y as int,
        w,
        h,
        m,
        area,
    );
    pixels_tell_overlaps(before, idx, at.0, at.1, w, h);
    pixels_tell_overlaps(before, idx, at.0 + i * m.cell_w, at.1 + j * m.cell_h, w, h);
    if overlaps_other(before, idx, at.0, at.1, w, h) {
        assert(at == rest);
        assert(slot(rest, i, j, m) == (at.0 + i * m.cell_w, at.1 + j * m.cell_h));
        assert(is_free(before, idx, slot(rest, i, j, m), w, h, area));
        assert(slot(rest, 0, 0, m) == rest);
        assert(false);
    }
    assert forall|k: int, px: int, py: int|
        #![trigger after[k], has_pixel(at.0, at.1, w, h, px, py)]
        0 <= k < after.len() && k != idx && after[k].valid && has_pixel(
            at.0,
            at.1,
            w,
            h,
            px,
            py,
        ) implies !has_pixel(
        after[k].cfg.x as int,
        after[k].cfg.y as int,
        after[k].cfg.w as int,
        after[k].cfg.h as int,
        px,
        py,
    ) by {
        assert(after[k] == before[k]);
    }
}

/// A settled fence that fits the work area is all inside it: none of its pixels is beyond an edge.
pub proof fn a_settled_fence_is_in_the_work_area(
    before: Seq<Fence>,
    after: Seq<Fence>,
    idx: int,
    m: Metrics,
    area: Area,
)
    requires
        m.wf(),
        0 <= idx < before.len(),
        settled(before, after, idx, m, area),
        after[idx].cfg.w <= area.right - area.left,
        after[idx].cfg.h <= area.bottom - area.top,
    ensures
        area.left <= after[idx].cfg.x && after[idx].cfg.x + after[idx].cfg.w <= area.right,
        area.top <= after[idx].cfg.y && after[idx].cfg.y + after[idx].cfg.h <= area.bottom,
{
    let c = after[idx].cfg;
    let was = before[idx].cfg;
    let (w, h) = (c.w as int, c.h as int);
    let rest = rest_point(was.x as int, was.y as int, w, h, m, area);
    if overlaps_other(before, idx, rest.0, rest.1, w, h) && (c.x as int, c.y as int) != rest {
        let (a, b) = choose|a: int, b: int|
            (c.x as int, c.y as int) == #[trigger] slot(rest, a, b, m) && is_nearest(
                before,
                idx,
                rest,
                w,
                h,
                m,
                area,
                a,
                b,
            );
        assert(is_free(before, idx, slot(rest, a, b, m), w, h, area));
    }
}

/// Of all places a whole number of cells from where a fence came to rest that are within the work
/// area and clear of the pixels of other fences, none is nearer than where it settles; and it settles
/// elsewhere only where its pixels would belong to another fence too. Of places as near the one least far
/// up or down is taken, above before below, left before right.
pub proof fn a_fence_settles_as_near_as_it_can(
    before: Seq<Fence>,
    after: Seq<Fence>,
    idx: int,
    m: Metrics,
    area: Area,
    i: int,
    j: int,
)
    requires
        m.wf(),
        0 <= idx < before.len(),
        settled(before, after, idx, m, area),
        others_have_pixels(before, idx),
    ensures
        ({
            let c = after[idx].cfg;
            let was = before[idx].cfg;
            let rest = rest_point(was.x as int, was.y as int, c.w as int, c.h as int, m, area);
            let (x, y) = (rest.0 + i * m.cell_w, rest.1 + j * m.cell_h);
            let free = area.left <= x && x + c.w <= area.right && area.top <= y && y + c.h
                <= area.bottom && shares_no_pixel(before, idx, x, y, c.w as int, c.h as int);
            let (dx, dy) = (c.x - rest.0, c.y - rest.1);
            let (ex, ey) = (x - rest.0, y - rest.1);
            &&& shares_no_pixel(before, idx, rest.0, rest.1, c.w as int, c.h as int) ==> c.x
                == rest.0 && c.y == rest.1
            &&& free ==> dx * dx + dy * dy <= ex * ex + ey * ey
            &&& free && dx * dx + dy * dy == ex * ex + ey * ey ==> dy * dy <= ey * ey
            &&& free && dx == ex && dy == -ey ==> dy <= 0
            &&& free && dx == -ex && dy == ey ==> dx <= 0
        }),
{
    let c = after[idx].cfg;
    let was = before[idx].cfg;
    let (w, h) = (c.w as int, c.h as int);
    let rest = rest_point(was.x as int, was.y as int, w, h, m, area);
    snapping_finds_the_nearest_length(
        was.w as int,
        m.frame_w(),
        m.cell_w as int,
        m.min_w as int,
    );
    snapping_finds_the_nearest_length(
        was.h as int,
        m.frame_h(),
        m.cell_h as int,
        m.min_h as int,
    );
    let s = slot(rest, i, j, m);
    pixels_tell_overlaps(before, idx, rest.0, rest.1, w, h);
    pixels_tell_overlaps(before, idx, s.0, s.1, w, h);
    let (dx, dy) = (c.x - rest.0, c.y - rest.1);
    let (ex, ey) = (s.0 - rest.0, s.1 - rest.1);
    assert(0 <= ex * ex && 0 <= ey * ey) by (nonlinear_arith);
    if overlaps_other(before, idx, rest.0, rest.1, w, h) && is_free(before, idx, s, w, h, area) {
        let (a, b) = choose|a: int, b: int|
            (c.x as int, c.y as int) == #[trigger] slot(rest, a, b, m) && is_nearest(
                before,
                idx,
                rest,
                w,
                h,
                m,
                area,
                a,
                b,
            );
        assert(no_later(rest, slot(rest, a, b, m), s));
        assert(away(rest, s) == ex * ex + ey * ey);
        assert(away(rest, slot(rest, a, b, m)) == dx * dx + dy * dy);
        let (u, v) = (span_of(dy), span_of(ey));
        assert(dy * dy == u * u && ey * ey == v * v) by (nonlinear_arith)
            requires
                u == dy || u == -dy,
                v == ey || v == -ey,
        ;
        assert(u <= v ==> u * u <= v * v) by (nonlinear_arith)
            requires
                u >= 0,
                v >= 0,
        ;
        if dx == ex && dy == -ey || dx == -ex && dy == ey {
            assert(dx * dx == ex * ex && dy * dy == ey * ey) by (nonlinear_arith)
                requires
                    dx == ex || dx == -ex,
                    dy == ey || dy == -ey,
            ;
        }
    } else if !overlaps_other(before, idx, rest.0, rest.1, w, h) {
        assert(dx == 0 && dy == 0);
        assert(dx * dx == 0 && dy * dy == 0) by (nonlinear_arith)
            requires
                dx == 0,
                dy == 0,
        ;
    }
}

/// A fence of size `w` and `h` that is left at (`x`, `y`) comes to rest inside the work area, on the grid
/// that begins in the area's upper left corner or at its far edge, and no further than half a cell from
/// the nearest place inside.
pub proof fn a_fence_rests_near_where_it_was_left(
    x: int,
    y: int,
    w: int,
    h: int,
    m: Metrics,
    area: Area,
)
    requires
        m.wf(),
        0 <= w <= area.right - area.left,
        0 <= h <= area.bottom - area.top,
    ensures
        ({
            let (rx, ry) = rest_point(x, y, w, h, m, area);
            let near_x = if x < area.left {
                area.left as int
            } else if x > area.right - w {
                area.right - w
            } else {
                x
            };
            let near_y = if y < area.top {
                area.top as int
            } else if y > area.bottom - h {
                area.bottom - h
            } else {
                y
            };
            &&& area.left <= rx && rx + w <= area.right
            &&& area.top <= ry && ry + h <= area.bottom
            &&& (rx - area.left) % m.cell_w as int == 0 || rx == area.right - w
            &&& (ry - area.top) % m.cell_h as int == 0 || ry == area.bottom - h
            &&& -m.cell_w <= 2 * (rx - near_x) <= m.cell_w
            &&& -m.cell_h <= 2 * (ry - near_y) <= m.cell_h
        }),
{
    rests_near(x, w, m.cell_w as int, area.left as int, area.right as int);
    rests_near(y, h, m.cell_h as int, area.top as int, area.bottom as int);
}

/// A settled fence is as wide and as high as a whole number of cells, one at least, with its frame, and no
/// such number comes nearer to the size it was left at; unless it is at its smallest, or the largest there
/// is.
pub proof fn a_settled_fence_holds_whole_cells(
    before: Seq<Fence>,
    after: Seq<Fence>,
    idx: int,
    m: Metrics,
    area: Area,
    n: int,
)
    requires
        m.wf(),
        0 <= idx < before.len(),
        settled(before, after, idx, m, area),
        n >= 1,
    ensures
        ({
            let (c, was) = (after[idx].cfg, before[idx].cfg);
            let w = 2 * m.margin + m.rail + n * m.cell_w;
            let h = m.title_h + 2 * m.margin + n * m.cell_h;
            &&& c.w >= m.min_w && c.h >= m.min_h
            &&& c.w != m.min_w && c.w != i32::MAX ==> (c.w - was.w) * (c.w - was.w) <= (w - was.w)
                * (w - was.w)
            &&& c.h != m.min_h && c.h != i32::MAX ==> (c.h - was.h) * (c.h - was.h) <= (h - was.h)
                * (h - was.h)
            &&& c.w != m.min_w && c.w != i32::MAX ==> exists|k: int|
                k >= 1 && c.w == 2 * m.margin + m.rail + #[trigger] (k * m.cell_w)
            &&& c.h != m.min_h && c.h != i32::MAX ==> exists|k: int|
                k >= 1 && c.h == m.title_h + 2 * m.margin + #[trigger] (k * m.cell_h)
        }),
{
    let (c, was) = (after[idx].cfg, before[idx].cfg);
    let (cw, ch) = (m.cell_w as int, m.cell_h as int);
    snapping_finds_the_nearest_length(was.w as int, m.frame_w(), cw, m.min_w as int);
    snapping_finds_the_nearest_length(was.h as int, m.frame_h(), ch, m.min_h as int);
    assert(n * cw == n * m.cell_w && n * ch == n * m.cell_h);
    if c.w != m.min_w && c.w != i32::MAX {
        let k = choose|k: int| k >= 1 && c.w == m.frame_w() + #[trigger] (k * cw);
        assert(k * m.cell_w == k * cw);
    }
    if c.h != m.min_h && c.h != i32::MAX {
        let k = choose|k: int| k >= 1 && c.h == m.frame_h() + #[trigger] (k * ch);
        assert(k * m.cell_h == k * ch);
    }
}

proof fn rests_near(v: int, len: int, cell: int, low: int, high: int)
    requires
        cell > 0,
        low <= high - len,
        i32::MIN <= low,
        high - len <= i32::MAX,
    ensures
        ({
            let r = held(saturated(drawn(v, cell, low, 50)), low, high - len);
            let near = if v < low {
                low
            } else if v > high - len {
                high - len
            } else {
                v
            };
            &&& low <= r && r + len <= high
            &&& (r - low) % cell == 0 || r == high - len
            &&& 2 * (r - near) <= cell && 2 * (near - r) <= cell
        }),
{
    nearest_is_near(v, cell, low);
    let t = nearest_point(v, cell, low);
    let q = round_div(v - low, cell);
    assert((q * cell) % cell == 0) by {
        vstd::arithmetic::div_mod::lemma_mod_multiples_basic(q, cell);
    }
    assert((t - low) % cell == 0);
    assert(0int % cell == 0) by {
        vstd::arithmetic::div_mod::lemma_small_mod(0, cell as nat);
    }
}

/// A snapped length is the nearest to `len` of those that hold a whole number of cells (one at least)
/// beside the frame, unless that is below `min`, or beyond the largest number.
pub proof fn snapping_finds_the_nearest_length(len: int, frame: int, cell: int, min: int)
    requires
        cell > 0,
        0 <= frame,
        0 < min <= i32::MAX,
    ensures
        ({
            let out = snapped(len, frame, cell, min);
            &&& min <= out <= i32::MAX
            &&& out == min || out == i32::MAX || (exists|n: int|
                n >= 1 && out == frame + #[trigger] (n * cell))
            &&& out != min && out != i32::MAX ==> forall|n: int|
                n >= 1 ==> (out - len) * (out - len) <= (frame + #[trigger] (n * cell) - len) * (
                frame + n * cell - len)
            &&& out == min || out >= frame + cell || out == i32::MAX
        }),
{
    let out = snapped(len, frame, cell, min);
    let d = len - frame;
    let q = round_div(d, cell);
    let k = if q < 1 {
        1
    } else {
        q
    };
    let whole = frame + k * cell;
    assert(k * cell >= cell) by (nonlinear_arith)
        requires
            k >= 1,
            cell > 0,
    ;
    nearest_is_near(len, cell, frame);
    if out != min && out != i32::MAX {
        assert(out == frame + k * cell);
        assert forall|n: int| n >= 1 implies (out - len) * (out - len) <= (frame + #[trigger] (n
            * cell) - len) * (frame + n * cell - len) by {
            let e = out - len;
            let g = frame + n * cell - len;
            if n != k {
                nearest_multiple(d, cell, q, k, n);
                assert(e * e <= g * g) by (nonlinear_arith)
                    requires
                        (e >= 0 ==> e <= g || e <= -g),
                        (e < 0 ==> -e <= g || -e <= -g),
                ;
            }
        }
    }
}

proof fn nearest_multiple(d: int, cell: int, q: int, k: int, n: int)
    requires
        cell > 0,
        -cell <= 2 * (q * cell - d) <= cell,
        k == (if q < 1 {
            1
        } else {
            q
        }),
        n >= 1,
        n != k,
    ensures
        ({
            let e = k * cell - d;
            let g = n * cell - d;
            (e >= 0 ==> e <= g || e <= -g) && (e < 0 ==> -e <= g || -e <= -g)
        }),
{
    if n > k {
        assert(n * cell >= k * cell + cell) by (nonlinear_arith)
            requires
                n >= k + 1,
                cell > 0,
        ;
        if q < 1 {
            assert(q * cell <= 0) by (nonlinear_arith)
                requires
                    q <= 0,
                    cell > 0,
            ;
        }
    } else {
        assert(n * cell <= k * cell - cell) by (nonlinear_arith)
            requires
                n <= k - 1,
                cell > 0,
        ;
    }
}

/// The settings of the fences as they stand: physical rectangles, each with the DPI of its window
/// (96 at least). Places on the screen are never divided by a DPI.
pub fn config_snapshot(fences: &Vec<Fence>) -> (out: Vec<FenceCfg>)
    ensures
        out@.len() == fences@.len(),
        forall|i: int|
            0 <= i < fences@.len() ==> snapshot_of(fences@[i], #[trigger] out@[i]),
{
    let mut out: Vec<FenceCfg> = Vec::new();
    for i in 0..fences.len()
        invariant
            out@.len() == i,
            forall|j: int| 0 <= j < i ==> snapshot_of(fences@[j], #[trigger] out@[j]),
    {
        let f = &fences[i];
        let mut c = f.cfg.copied();
        c.dpi = if f.dpi < 96 {
            96
        } else {
            f.dpi
        };
        out.push(c);
    }
    out
}

/// Whether `c` is what is kept of `f`.
pub open spec fn snapshot_of(f: Fence, c: FenceCfg) -> bool {
    c == FenceCfg {
        dpi: if f.dpi < 96 {
            96
        } else {
            f.dpi
        },
        ..f.cfg
    }
}

/// The row at the top of the grid, in whole rows.
pub open spec fn top_row_of(f: Fence) -> int {
    round_div(f.top_row as int, ROW as int)
}

/// The entry under the point (`x`, `y`) of a fence's window with `cols` columns.
pub open spec fn entry_at(f: Fence, x: int, y: int, cols: int, m: Metrics) -> Option<int> {
    let col = (x - m.margin) / m.cell_w as int;
    let row = (y - m.frame_h() + m.margin) / m.cell_h as int;
    let idx = (row + top_row_of(f)) * cols + col;
    if x < m.margin || y < m.title_h + m.margin || col >= cols || idx
        >= f.model.entries@.len() {
        None
    } else {
        Some(idx)
    }
}

/// See [`entry_at`].
pub fn hit_item(f: &Fence, x: i32, y: i32, cols: i32, m: &Metrics) -> (item: Option<usize>)
    requires
        m.wf(),
        f.wf(),
        cols >= 1,
    ensures
        match item {
            Some(i) => entry_at(*f, x as int, y as int, cols as int, *m) == Some(i as int) && i
                < f.model.entries@.len(),
            None => entry_at(*f, x as int, y as int, cols as int, *m) is None,
        },
{
    if x < m.margin || y < m.title_h + m.margin {
        return None;
    }
    let col: i32 = (x - m.margin) / m.cell_w;
    let row: i32 = (y - m.title_h - m.margin) / m.cell_h;
    if col >= cols {
        return None;
    }
    let top: i128 = (2 * f.top_row + ROW) / (2 * ROW);
    let line: i128 = row as i128 + top;
    proof {
        assert(0 <= line <= 0x8000_0000_0000_0000_0000_0001 + 0x8000_0000);
        assert(0 <= line * cols <= 0x8000_0000_0000_0001_0000_0000 * 0x7fff_ffff)
            by (nonlinear_arith)
            requires
                0 <= line <= 0x8000_0000_0000_0001_0000_0000,
                0 <= cols <= 0x7fff_ffff,
        ;
        assert(0 <= col);
    }
    let idx: i128 = line * (cols as i128) + col as i128;
    if idx < f.model.entries.len() as i128 {
        Some(idx as usize)
    } else {
        None
    }
}

/// While row `top` is at the top, the pointer hits the entry in whose cell it is: cells of `cell_w` by
/// `cell_h` pixels, `cols` of them side by side, stand without gaps from the margin on, below the title.
pub proof fn the_pointer_hits_the_entry_of_its_cell(
    f: Fence,
    m: Metrics,
    cols: int,
    top: int,
    col: int,
    row: int,
    x: int,
    y: int,
)
    requires
        m.wf(),
        0 <= top,
        f.top_row == top * ROW,
        0 <= col < cols,
        0 <= row,
        m.margin + col * m.cell_w <= x < m.margin + col * m.cell_w + m.cell_w,
        m.title_h + m.margin + row * m.cell_h <= y < m.title_h + m.margin + row * m.cell_h
            + m.cell_h,
    ensures
        ({
            let i = (top + row) * cols + col;
            entry_at(f, x, y, cols, m) == if i < f.model.entries@.len() {
                Some(i)
            } else {
                None
            }
        }),
{
    let (px, py) = (x - m.margin, y - m.title_h - m.margin);
    assert(0 <= col * m.cell_w && 0 <= row * m.cell_h) by (nonlinear_arith)
        requires
            0 <= col,
            0 <= row,
            m.cell_w > 0,
            m.cell_h > 0,
    ;
    assert(px / (m.cell_w as int) == col) by {
        vstd::arithmetic::div_mod::lemma_fundamental_div_mod_converse(
            px,
            m.cell_w as int,
            col,
            px - col * m.cell_w,
        );
    }
    assert(py / (m.cell_h as int) == row) by {
        vstd::arithmetic::div_mod::lemma_fundamental_div_mod_converse(
            py,
            m.cell_h as int,
            row,
            py - row * m.cell_h,
        );
    }
    assert(f.top_row == top * 1_000_000);
    assert(top_row_of(f) == (2 * (top * 1_000_000) + 1_000_000) / 2_000_000);
    assert((row + top) * cols == (top + row) * cols);
}

/// Beside the cells the pointer hits nothing: left of the first column, above the first row, right of
/// the last column.
pub proof fn the_pointer_hits_nothing_beside_the_cells(
    f: Fence,
    m: Metrics,
    cols: int,
    x: int,
    y: int,
)
    requires
        m.wf(),
        cols >= 1,
        x < m.margin || y < m.title_h + m.margin || x >= m.margin + cols * m.cell_w,
    ensures
        entry_at(f, x, y, cols, m) is None,
{
    if x >= m.margin + cols * m.cell_w {
        let (px, cw) = (x - m.margin, m.cell_w as int);
        assert(px / cw >= cols) by (nonlinear_arith)
            requires
                px >= cols * cw,
                cw > 0,
        ;
    }
}

/// The edge or corner that the point (`x`, `y`) of a window of size `w` and `h` is near to.
pub open spec fn edge_at(w: int, h: int, edge: int, x: int, y: int) -> Option<ResizeDir> {
    let left = x < edge;
    let right = !left && x >= w - edge;
    let top = y < edge;
    let bottom = !top && y >= h - edge;
    if top {
        if left {
            Some(ResizeDir::NW)
        } else if right {
            Some(ResizeDir::NE)
        } else {
            Some(ResizeDir::N)
        }
    } else if bottom {
        if left {
            Some(ResizeDir::SW)
        } else if right {
            Some(ResizeDir::SE)
        } else {
            Some(ResizeDir::S)
        }
    } else if left {
        Some(ResizeDir::W)
    } else if right {
        Some(ResizeDir::E)
    } else {
        None
    }
}

/// A fence is resized by the edges that the pointer is within `edge` pixels of: by the left one or
/// else the right one, by the upper one or else the lower one, and by a corner where it is near two.
pub proof fn the_edge_is_where_the_pointer_is(w: int, h: int, edge: int, x: int, y: int)
    ensures
        ({
            let dir = edge_at(w, h, edge, x, y);
            let west = dir == Some(ResizeDir::W) || dir == Some(ResizeDir::NW) || dir == Some(
                ResizeDir::SW,
            );
            let east = dir == Some(ResizeDir::E) || dir == Some(ResizeDir::NE) || dir == Some(
                ResizeDir::SE,
            );
            let north = dir == Some(ResizeDir::N) || dir == Some(ResizeDir::NW) || dir == Some(
                ResizeDir::NE,
            );
            let south = dir == Some(ResizeDir::S) || dir == Some(ResizeDir::SW) || dir == Some(
                ResizeDir::SE,
            );
            &&& west <==> x < edge
            &&& east <==> x >= edge && w - x <= edge
            &&& north <==> y < edge
            &&& south <==> y >= edge && h - y <= edge
        }),
{
}

/// See [`edge_at`].
pub fn resize_dir_at(cfg: &FenceCfg, x: i32, y: i32, m: &Metrics) -> (dir: Option<ResizeDir>)
    requires
        m.wf(),
    ensures
        dir == edge_at(cfg.w as int, cfg.h as int, m.edge as int, x as int, y as int),
{
    let left: bool = x < m.edge;
    let right: bool = x as i64 >= cfg.w as i64 - m.edge as i64;
    let top: bool = y < m.edge;
    let bottom: bool = y as i64 >= cfg.h as i64 - m.edge as i64;
    match (left, right, top, bottom) {
        (true, _, true, _) => Some(ResizeDir::NW),
        (true, _, false, true) => Some(ResizeDir::SW),
        (false, true, true, _) => Some(ResizeDir::NE),
        (false, true, false, true) => Some(ResizeDir::SE),
        (true, _, _, _) => Some(ResizeDir::W),
        (false, true, _, _) => Some(ResizeDir::E),
        (_, _, true, _) => Some(ResizeDir::N),
        (_, _, false, true) => Some(ResizeDir::S),
        _ => None,
    }
}

} // verus!
