//! The life of fences: where a new one stands, how one comes back at another DPI, which of them show,
//! and what becomes of what is dropped on one.

use crate::config::{
    extent_for_dpi, opt_view, saturated, scale_extent_for_dpi, vault_dir, vault_of, Config, FenceCfg,
    FenceKind,
};
use crate::desktop::avoidance::MovedFence;
use crate::download::{download_box_should_show, left_of, set_download_box_visible, shows};
use crate::fence::menu::{new_title, FenceCommand};
use crate::fence::window::{
    extent, extent_of, fence_idx, is_fence_of, the_fence_of_a_window_is_found,
};
use crate::fence::Fence;
use crate::geometry::{has_pixel, Area};
use crate::global::{is_synced, sync_config, Global};
use crate::text::{decimal, decimal_reads_back, owned, push_decimal, trimmed};
use crate::utils::{at_dpi, pixels};
use crate::winpath::{
    a_joined_name_comes_last, file_name, file_name_of, is_plain, is_same_place, is_verbatim, join,
    joined, parent, parent_of, same_place, takes_names,
};
use vstd::prelude::*;
use vstd::string::*;

verus! {

// ---------- new fences ----------

/// The name of the `n`th box.
pub open spec fn box_name(n: nat) -> Seq<char> {
    if n <= 1 {
        "收纳箱"@
    } else {
        "收纳箱 "@ + decimal(n)
    }
}

/// No two boxes have the same name, and the first has no number.
pub proof fn boxes_have_different_names(n: nat, k: nat)
    requires
        1 <= n < k,
    ensures
        box_name(n) != box_name(k),
        box_name(1) == "收纳箱"@,
        box_name(k) == "收纳箱"@ + " "@ + decimal(k),
{
    reveal_strlit("收纳箱");
    reveal_strlit("收纳箱 ");
    reveal_strlit(" ");
    assert("收纳箱 "@ =~= "收纳箱"@ + " "@);
    decimal_reads_back(n);
    decimal_reads_back(k);
    let from = "收纳箱 "@.len() as int;
    assert(box_name(k).skip(from) =~= decimal(k));
    if n > 1 {
        assert(box_name(n).skip(from) =~= decimal(n));
    } else {
        assert(box_name(n).len() < box_name(k).len());
    }
}

/// Whether `taken` can have answered `answer` for `path`.
pub open spec fn told<F: Fn(&String) -> bool>(taken: F, path: Seq<char>, answer: bool) -> bool {
    exists|p: String| p@ == path && #[trigger] taken.ensures((&p,), answer)
}

/// The folder of a new box: under the first name that is not taken. None where all are.
pub fn new_box_dir<F: Fn(&String) -> bool>(boxes_root: &str, taken: F) -> (dir: Option<String>)
    requires
        forall|p: &String| #[trigger] taken.requires((p,)),
    ensures
        match dir {
            Some(dir) => exists|n: int|
                {
                    &&& 1 <= n <= u32::MAX
                    &&& dir@ == join(boxes_root@, #[trigger] box_name(n as nat))
                    &&& told(taken, dir@, false)
                    &&& forall|k: int|
                        1 <= k < n ==> told(
                            taken,
                            join(boxes_root@, #[trigger] box_name(k as nat)),
                            true,
                        )
                },
            None => forall|k: int|
                1 <= k <= u32::MAX ==> told(
                    taken,
                    join(boxes_root@, #[trigger] box_name(k as nat)),
                    true,
                ),
        },
{
    let mut n: u32 = 1;
    loop
        invariant
            1 <= n,
            forall|p: &String| #[trigger] taken.requires((p,)),
            forall|k: int|
                1 <= k < n ==> told(
                    taken,
                    join(boxes_root@, #[trigger] box_name(k as nat)),
                    true,
                ),
        decreases u32::MAX - n,
    {
        let name = if n == 1 {
            owned("收纳箱")
        } else {
            let mut name = owned("收纳箱 ");
            push_decimal(&mut name, n as u128);
            name
        };
        let ghost k = n as int;
        assert(name@ == box_name(k as nat));
        let dir = joined(boxes_root, name.as_str());
        let ghost g = dir;
        if !taken(&dir) {
            assert(told(taken, g@, false));
            return Some(dir);
        }
        assert(told(taken, g@, true));
        if n == u32::MAX {
            return None;
        }
        n += 1;
    }
}

/// How far down a new fence stands, with `count` fences there: each a little further, over five.
pub open spec fn cascade(first: int, step: int, count: int, dpi: int) -> int {
    saturated(at_dpi(first, dpi) + (count % 5) * at_dpi(step, dpi))
}

fn cascaded(first: u32, step: u32, count: usize, dpi: u32) -> (y: i32)
    requires
        first <= 0x1_0000,
        step <= 0x1_0000,
    ensures
        y == cascade(first as int, step as int, count as int, dpi as int),
{
    let turn: i64 = (count % 5) as i64;
    let one: i64 = pixels(step, dpi) as i64;
    assert(0 <= turn * one <= 4 * 0x7fff_ffff) by (nonlinear_arith)
        requires
            0 <= turn <= 4,
            0 <= one <= 0x7fff_ffff,
    ;
    let y: i64 = pixels(first, dpi) as i64 + turn * one;
    if y > i32::MAX as i64 {
        i32::MAX
    } else {
        y as i32
    }
}

/// Each new fence stands one step below the one before, and after five of them the next stands where the
/// first did.
pub proof fn new_fences_stand_below_one_another(first: int, step: int, count: int, dpi: int)
    requires
        0 <= count,
        0 <= first <= 1000,
        0 < step <= 1000,
        96 <= dpi <= 0x1_0000,
    ensures
        count % 5 == 0 ==> cascade(first, step, count, dpi) == at_dpi(first, dpi),
        count % 5 != 4 ==> cascade(first, step, count + 1, dpi) - cascade(first, step, count, dpi)
            == at_dpi(step, dpi),
        cascade(first, step, count + 5, dpi) == cascade(first, step, count, dpi),
        at_dpi(step, dpi) > 0,
{
    at_ordinary_dpi(first, dpi);
    at_ordinary_dpi(step, dpi);
    let s = at_dpi(step, dpi);
    let turn = count % 5;
    assert(0 <= turn * s <= 4 * s) by (nonlinear_arith)
        requires
            0 <= turn <= 4,
            s >= 0,
    ;
    if turn != 4 {
        assert((count + 1) % 5 == turn + 1);
        assert((turn + 1) * s == turn * s + s) by (nonlinear_arith);
    }
    if turn == 0 {
        assert(turn * s == 0) by (nonlinear_arith)
            requires
                turn == 0,
        ;
    }
    assert((count + 5) % 5 == turn);
}

proof fn at_ordinary_dpi(len: int, dpi: int)
    requires
        0 <= len <= 1000,
        96 <= dpi <= 0x1_0000,
    ensures
        len <= at_dpi(len, dpi) <= 683 * len,
        at_dpi(len, dpi) == len * dpi / 96,
{
    assert(96 * len <= len * dpi <= 0x1_0000 * len) by (nonlinear_arith)
        requires
            0 <= len,
            96 <= dpi <= 0x1_0000,
    ;
}

/// The settings of a new fence at `dpi` on a screen `screen_w` wide, with `count` fences there.
pub open spec fn is_new_fence(
    c: FenceCfg,
    right: int,
    w: int,
    screen_w: i32,
    dpi: u32,
    count: int,
) -> bool {
    &&& c.id == 0
    &&& c.x == saturated(screen_w - at_dpi(right, dpi as int))
    &&& c.y == cascade(100, 40, count, dpi as int)
    &&& c.w == at_dpi(w, dpi as int)
    &&& c.h == at_dpi(340, dpi as int)
    &&& c.dpi == dpi
    &&& c.icon == 32
    &&& c.pos_set is None
}

/// The name of the last part of `path`, or `other` where it has none.
fn name_or(path: &str, other: &str) -> (name: String)
    ensures
        name@ == (match file_name(path@) {
            Some(name) => name,
            None => other@,
        }),
{
    match file_name_of(path) {
        Some(name) => name,
        None => owned(other),
    }
}

/// The settings of a new fence that shows `folder`.
pub fn portal_cfg(folder: String, screen_w: i32, dpi: u32, count: usize) -> (c: FenceCfg)
    ensures
        is_new_fence(c, 340, 280, screen_w, dpi, count as int),
        c.title@ == (match file_name(folder@) {
            Some(name) => name,
            None => "文件夹栅栏"@,
        }),
        c.kind == FenceKind::Portal,
        c.folder == Some(folder),
        c.opacity == 700_000,
{
    let title = name_or(folder.as_str(), "文件夹栅栏");
    FenceCfg {
        id: 0,
        title,
        kind: FenceKind::Portal,
        folder: Some(folder),
        x: left_of(screen_w, pixels(340, dpi)),
        y: cascaded(100, 40, count, dpi),
        w: pixels(280, dpi),
        h: pixels(340, dpi),
        dpi,
        opacity: 700_000,
        icon: 32,
        pos_set: None,
    }
}

/// The settings of a new box whose folder is `dir`.
pub fn box_cfg(dir: String, screen_w: i32, dpi: u32, count: usize) -> (c: FenceCfg)
    ensures
        is_new_fence(c, 320, 260, screen_w, dpi, count as int),
        c.title@ == (match file_name(dir@) {
            Some(name) => name,
            None => "收纳箱"@,
        }),
        c.kind == FenceKind::Collection,
        c.folder == Some(dir),
        c.opacity == 700_000,
{
    let title = name_or(dir.as_str(), "收纳箱");
    FenceCfg {
        id: 0,
        title,
        kind: FenceKind::Collection,
        folder: Some(dir),
        x: left_of(screen_w, pixels(320, dpi)),
        y: cascaded(100, 40, count, dpi),
        w: pixels(260, dpi),
        h: pixels(340, dpi),
        dpi,
        opacity: 700_000,
        icon: 32,
        pos_set: None,
    }
}

/// The settings of the box that a first start makes.
pub fn first_box_cfg(screen_w: i32, dpi: u32) -> (c: FenceCfg)
    ensures
        is_new_fence(c, 320, 260, screen_w, dpi, 0),
        c.title@ == "收纳箱"@,
        c.kind == FenceKind::Collection,
        c.folder is None,
        c.opacity == 740_000,
{
    FenceCfg {
        id: 0,
        title: owned("收纳箱"),
        kind: FenceKind::Collection,
        folder: None,
        x: left_of(screen_w, pixels(320, dpi)),
        y: cascaded(100, 40, 0, dpi),
        w: pixels(260, dpi),
        h: pixels(340, dpi),
        dpi,
        opacity: 740_000,
        icon: 32,
        pos_set: None,
    }
}

// ---------- placing ----------

/// A screen and its DPI.
#[derive(Clone, Copy, Debug, PartialEq, Eq, Structural)]
pub struct Screen {
    pub w: i32,
    pub h: i32,
    pub dpi: u32,
}

/// Whether the settings say no place for a fence. A place that was set is kept, (0, 0) too.
pub open spec fn is_unplaced(c: FenceCfg) -> bool {
    c.pos_set != Some(true) && c.x == 0 && c.y == 0
}

/// Where a fence without a place stands, with `count` fences there: at the upper right, each a little
/// further left and down.
pub open spec fn first_place(s: Screen, count: int) -> (int, int) {
    let dpi = s.dpi as int;
    let x = s.w - at_dpi(320, dpi) - at_dpi(20, dpi) - (count % 5) * at_dpi(30, dpi);
    let y = at_dpi(80, dpi) + (count % 5) * at_dpi(40, dpi);
    let low = if s.h - at_dpi(400, dpi) < 0 {
        0
    } else {
        s.h - at_dpi(400, dpi)
    };
    (
        if x < 0 {
            0
        } else {
            x
        },
        if y > low {
            low
        } else {
            y
        },
    )
}

/// A fence without a place stands on the screen: not left of it nor above it, with room for its usual
/// width to the right and, where the screen is high enough, for its usual height below; and it stands
/// further left and lower than the fence before, where there is room.
pub proof fn a_fence_without_a_place_gets_one_on_the_screen(s: Screen, count: int)
    requires
        0 <= count,
        96 <= s.dpi <= 0x1_0000,
        s.w >= at_dpi(500, s.dpi as int),
        s.h >= at_dpi(400, s.dpi as int),
    ensures
        ({
            let (x, y) = first_place(s, count);
            let (nx, ny) = first_place(s, count + 1);
            &&& 0 <= x && x + at_dpi(320, s.dpi as int) <= s.w
            &&& 0 <= y && y + at_dpi(400, s.dpi as int) <= s.h
            &&& count % 5 != 4 && s.h >= at_dpi(400, s.dpi as int) + at_dpi(80, s.dpi as int) + 4
                * at_dpi(40, s.dpi as int) ==> nx == x - at_dpi(30, s.dpi as int) && ny == y
                + at_dpi(40, s.dpi as int)
            &&& at_dpi(30, s.dpi as int) > 0 && at_dpi(40, s.dpi as int) > 0
        }),
{
    let dpi = s.dpi as int;
    at_ordinary_dpi(320, dpi);
    at_ordinary_dpi(20, dpi);
    at_ordinary_dpi(30, dpi);
    at_ordinary_dpi(40, dpi);
    at_ordinary_dpi(80, dpi);
    at_ordinary_dpi(400, dpi);
    at_ordinary_dpi(500, dpi);
    let turn = count % 5;
    let (a, b) = (at_dpi(30, dpi), at_dpi(40, dpi));
    assert(0 <= turn * a <= 4 * a && 0 <= turn * b <= 4 * b) by (nonlinear_arith)
        requires
            0 <= turn <= 4,
            a >= 0,
            b >= 0,
    ;
    if turn != 4 {
        assert((count + 1) % 5 == turn + 1);
        assert((turn + 1) * a == turn * a + a && (turn + 1) * b == turn * b + b)
            by (nonlinear_arith);
        assert((turn + 1) * a <= 4 * a && (turn + 1) * b <= 4 * b) by (nonlinear_arith)
            requires
                0 <= turn + 1 <= 4,
                a >= 0,
                b >= 0,
        ;
    }
}

/// `n`, at least `min`.
pub open spec fn at_least(n: i32, min: i32) -> i32 {
    if n < min {
        min
    } else {
        n
    }
}

/// What of the settings of a fence is settled before it has a window: its number, its place, and that
/// it is not too small for the DPI at which it was kept (`min_w` and `min_h` at that DPI).
pub open spec fn prepared(
    c: FenceCfg,
    next_id: u32,
    s: Screen,
    count: int,
    min_w: i32,
    min_h: i32,
) -> FenceCfg {
    let (x, y) = first_place(s, count);
    FenceCfg {
        id: if c.id == 0 {
            next_id
        } else {
            c.id
        },
        x: if is_unplaced(c) {
            x as i32
        } else {
            c.x
        },
        y: if is_unplaced(c) {
            y as i32
        } else {
            c.y
        },
        w: if c.dpi != 0 {
            at_least(c.w, min_w)
        } else {
            c.w
        },
        h: if c.dpi != 0 {
            at_least(c.h, min_h)
        } else {
            c.h
        },
        ..c
    }
}

/// A place that was set is kept, and so is one that is not the corner of the screen; a number that a fence
/// has is kept too. Nothing else of the settings changes but a size that is too small.
pub proof fn what_was_set_is_kept(
    c: FenceCfg,
    next_id: u32,
    s: Screen,
    count: int,
    min_w: i32,
    min_h: i32,
)
    ensures
        ({
            let p = prepared(c, next_id, s, count, min_w, min_h);
            &&& c.pos_set == Some(true) || c.x != 0 || c.y != 0 ==> p.x == c.x && p.y == c.y
            &&& c.id != 0 ==> p.id == c.id
            &&& c.id == 0 ==> p.id == next_id
            &&& c.w >= min_w && c.h >= min_h ==> p.w == c.w && p.h == c.h
            &&& c.dpi != 0 ==> p.w >= min_w && p.h >= min_h && p.w >= c.w && p.h >= c.h
            &&& p.title == c.title && p.kind == c.kind && p.folder == c.folder && p.dpi == c.dpi
            &&& p.pos_set == c.pos_set && p.opacity == c.opacity && p.icon == c.icon
        }),
{
}

/// See [`prepared`]. Takes `next_id` on where it was used.
pub fn prepare_fence(
    cfg: &mut FenceCfg,
    next_id: &mut u32,
    s: Screen,
    count: usize,
    min_w: i32,
    min_h: i32,
)
    requires
        old(cfg).id == 0 ==> *old(next_id) < u32::MAX,
    ensures
        *final(cfg) == prepared(*old(cfg), *old(next_id), s, count as int, min_w, min_h),
        *final(next_id) == *old(next_id) + (if old(cfg).id == 0 {
            1int
        } else {
            0
        }),
{
    if cfg.id == 0 {
        cfg.id = *next_id;
        *next_id = *next_id + 1;
    }
    let placed: bool = match cfg.pos_set {
        Some(set) => set,
        None => false,
    };
    if !placed && cfg.x == 0 && cfg.y == 0 {
        let turn: i64 = (count % 5) as i64;
        let right: i64 = pixels(30, s.dpi) as i64;
        let down: i64 = pixels(40, s.dpi) as i64;
        assert(0 <= turn * right <= 4 * 0x7fff_ffff && 0 <= turn * down <= 4 * 0x7fff_ffff)
            by (nonlinear_arith)
            requires
                0 <= turn <= 4,
                0 <= right <= 0x7fff_ffff,
                0 <= down <= 0x7fff_ffff,
        ;
        let x: i64 = s.w as i64 - pixels(320, s.dpi) as i64 - pixels(20, s.dpi) as i64 - turn
            * right;
        let y: i64 = pixels(80, s.dpi) as i64 + turn * down;
        let room: i64 = s.h as i64 - pixels(400, s.dpi) as i64;
        let low: i64 = if room < 0 {
            0
        } else {
            room
        };
        cfg.x = if x < 0 {
            0
        } else {
            x as i32
        };
        cfg.y = if y > low {
            low as i32
        } else {
            y as i32
        };
    }
    if cfg.dpi != 0 {
        if cfg.w < min_w {
            cfg.w = min_w;
        }
        if cfg.h < min_h {
            cfg.h = min_h;
        }
    }
}

// ---------- coming back at another DPI ----------

/// A fence whose window was just made, on its way to the size that it had, at the DPI of its screen.
#[derive(Clone, Copy, Debug, PartialEq, Eq, Structural)]
pub struct Restore {
    /// The size and DPI that were kept.
    pub saved_w: i32,
    pub saved_h: i32,
    pub saved_dpi: u32,
    /// The size of the window.
    pub w: i32,
    pub h: i32,
    /// The DPI that the size is brought to.
    pub dpi: u32,
    /// How many looks at the window's DPI found another one.
    pub misses: u8,
}

/// How a restoring goes on.
#[derive(Clone, Copy, Debug, PartialEq, Eq, Structural)]
pub enum RestoreStep {
    /// Once more, at the DPI that was found.
    Again,
    /// The window has the DPI that its size is for.
    Settled,
    /// The window goes to and fro between two screens; it has to be put inside one.
    PutInside,
}

/// A kept length at another DPI, at least `min`.
pub open spec fn restored_len(len: int, saved_dpi: int, dpi: int, min: int) -> int {
    let n = extent_for_dpi(len, saved_dpi, dpi);
    if n < min {
        min
    } else {
        n
    }
}

fn restored(len: i32, saved_dpi: u32, dpi: u32, min: i32) -> (n: i32)
    ensures
        n == restored_len(len as int, saved_dpi as int, dpi as int, min as int),
{
    let n: i32 = scale_extent_for_dpi(len, saved_dpi, dpi);
    if n < min {
        min
    } else {
        n
    }
}

impl Restore {
    /// The restoring of a fence in a window of DPI `dpi`.
    pub fn new(c: &FenceCfg, dpi: u32) -> (r: Restore)
        ensures
            r == (Restore {
                saved_w: c.w,
                saved_h: c.h,
                saved_dpi: c.dpi,
                w: c.w,
                h: c.h,
                dpi,
                misses: 0,
            }),
    {
        Restore {
            saved_w: c.w,
            saved_h: c.h,
            saved_dpi: c.dpi,
            w: c.w,
            h: c.h,
            dpi,
            misses: 0,
        }
    }

    /// Brings the size to the present DPI (at which it is at least `min_w` and `min_h`); whether the
    /// window has to change.
    pub fn resize(&mut self, min_w: i32, min_h: i32) -> (changed: bool)
        ensures
            *final(self) == (Restore {
                w: restored_len(
                    old(self).saved_w as int,
                    old(self).saved_dpi as int,
                    old(self).dpi as int,
                    min_w as int,
                ) as i32,
                h: restored_len(
                    old(self).saved_h as int,
                    old(self).saved_dpi as int,
                    old(self).dpi as int,
                    min_h as int,
                ) as i32,
                ..*old(self)
            }),
            changed == (final(self).w != old(self).w || final(self).h != old(self).h),
    {
        let w: i32 = restored(self.saved_w, self.saved_dpi, self.dpi, min_w);
        let h: i32 = restored(self.saved_h, self.saved_dpi, self.dpi, min_h);
        let changed: bool = w != self.w || h != self.h;
        self.w = w;
        self.h = h;
        changed
    }

    /// Takes in the DPI of the window after a change of its size, which may have brought it to
    /// another screen.
    pub fn observe(&mut self, dpi: u32) -> (step: RestoreStep)
        ensures
            *final(self) == after_look_at_dpi(*old(self), dpi),
            step == restore_step(*old(self), dpi),
    {
        if dpi == self.dpi {
            return RestoreStep::Settled;
        }
        self.dpi = dpi;
        if self.misses >= 1 {
            self.misses = 2;
            RestoreStep::PutInside
        } else {
            self.misses = 1;
            RestoreStep::Again
        }
    }
}

/// A restoring after a look that found `dpi`.
pub open spec fn after_look_at_dpi(r: Restore, dpi: u32) -> Restore {
    if dpi == r.dpi {
        r
    } else {
        Restore {
            dpi,
            misses: if r.misses >= 1 {
                2
            } else {
                1
            },
            ..r
        }
    }
}

/// How a restoring goes on after a look that found `dpi`.
pub open spec fn restore_step(r: Restore, dpi: u32) -> RestoreStep {
    if dpi == r.dpi {
        RestoreStep::Settled
    } else if r.misses >= 1 {
        RestoreStep::PutInside
    } else {
        RestoreStep::Again
    }
}

/// Whatever DPIs are found, a restoring ends with the second look.
pub proof fn a_restoring_ends(r: Restore, first: u32, second: u32)
    requires
        r.misses == 0,
    ensures
        restore_step(r, first) != RestoreStep::PutInside,
        restore_step(after_look_at_dpi(r, first), second) == RestoreStep::Again ==> restore_step(
            r,
            first,
        ) == RestoreStep::Settled,
{
}

/// A window that has the DPI that its size is for is settled. One that is found at another DPI is tried once
/// more at that; one that is found at yet another DPI then is put inside its screen, at the last DPI.
pub proof fn a_window_that_goes_to_and_fro_is_put_inside(r: Restore, first: u32, second: u32)
    requires
        r.misses == 0,
    ensures
        restore_step(r, r.dpi) == RestoreStep::Settled,
        after_look_at_dpi(r, r.dpi) == r,
        first != r.dpi ==> restore_step(r, first) == RestoreStep::Again && after_look_at_dpi(
            r,
            first,
        ).dpi == first,
        first != r.dpi && second != first ==> restore_step(after_look_at_dpi(r, first), second)
            == RestoreStep::PutInside && after_look_at_dpi(after_look_at_dpi(r, first), second).dpi
            == second,
        first != r.dpi && second != first ==> after_look_at_dpi(
            after_look_at_dpi(r, first),
            second,
        ).misses == 2,
        after_look_at_dpi(r, first).saved_w == r.saved_w && after_look_at_dpi(r, first).saved_h
            == r.saved_h && after_look_at_dpi(r, first).saved_dpi == r.saved_dpi,
{
}

/// A fence that comes back at the DPI at which it was kept has the size that it had, where that is not
/// too small.
pub proof fn a_fence_comes_back_as_it_was(c: FenceCfg, min_w: i32, min_h: i32)
    requires
        c.dpi > 0,
        c.w >= min_w,
        c.h >= min_h,
        c.w >= 1,
        c.h >= 1,
    ensures
        restored_len(c.w as int, c.dpi as int, c.dpi as int, min_w as int) == c.w,
        restored_len(c.h as int, c.dpi as int, c.dpi as int, min_h as int) == c.h,
{
    crate::config::equal_dpi_keeps_extent(c.w as int, c.dpi as int);
    crate::config::equal_dpi_keeps_extent(c.h as int, c.dpi as int);
}

/// A fence that comes back at another DPI keeps its logical size, to within half a pixel, where that is not
/// too small.
pub proof fn a_fence_comes_back_in_proportion(len: int, saved_dpi: int, dpi: int, min: int)
    requires
        saved_dpi > 0,
        dpi > 0,
        restored_len(len, saved_dpi, dpi, min) > min,
        i32::MIN < restored_len(len, saved_dpi, dpi, min) < i32::MAX,
    ensures
        -saved_dpi <= 2 * (restored_len(len, saved_dpi, dpi, min) * saved_dpi - len * dpi)
            <= saved_dpi,
{
    crate::config::an_extent_keeps_its_logical_size(len, saved_dpi, dpi);
}

/// `n`, at most `max`.
pub open spec fn at_most(n: int, max: int) -> int {
    if n > max {
        max
    } else {
        n
    }
}

/// `at` for something `len` long, held between `from` and `to`; at `from` where it is too long.
pub open spec fn held_between(at: int, len: int, from: int, to: int) -> int {
    let last = if to - len < from {
        from
    } else {
        to - len
    };
    if at < from {
        from
    } else if at > last {
        last
    } else {
        at
    }
}

fn hold_between(at: i32, len: i32, from: i32, to: i32) -> (n: i32)
    requires
        len >= 0,
    ensures
        n == held_between(at as int, len as int, from as int, to as int),
{
    let room: i64 = to as i64 - len as i64;
    if at < from || room < from as i64 {
        from
    } else if at as i64 > room {
        room as i32
    } else {
        at
    }
}

/// Where a fence that goes to and fro is put: into `area`, no larger than it.
pub open spec fn put_inside(r: Restore, x: int, y: int, area: Area, min_w: int, min_h: int) -> (
    int,
    int,
    int,
    int,
) {
    let w = at_most(
        restored_len(r.saved_w as int, r.saved_dpi as int, r.dpi as int, min_w),
        area.right - area.left,
    );
    let h = at_most(
        restored_len(r.saved_h as int, r.saved_dpi as int, r.dpi as int, min_h),
        area.bottom - area.top,
    );
    (
        held_between(x, w, area.left as int, area.right as int),
        held_between(y, h, area.top as int, area.bottom as int),
        w,
        h,
    )
}

/// A fence that fits stays where it is if it is inside, and else goes no further than it must: one of its
/// edges is then at that of the area.
pub proof fn a_fence_goes_no_further_than_it_must(at: int, len: int, from: int, to: int)
    requires
        0 <= len <= to - from,
    ensures
        from <= held_between(at, len, from, to),
        held_between(at, len, from, to) + len <= to,
        from <= at && at + len <= to ==> held_between(at, len, from, to) == at,
        at < from ==> held_between(at, len, from, to) == from,
        at + len > to ==> held_between(at, len, from, to) + len == to,
{
}

/// See [`put_inside`].
pub fn place_inside(r: &Restore, x: i32, y: i32, area: &Area, min_w: i32, min_h: i32) -> (place: (
    i32,
    i32,
    i32,
    i32,
))
    requires
        area.left <= area.right,
        area.top <= area.bottom,
        min_w >= 0,
        min_h >= 0,
    ensures
        ({
            let (px, py, pw, ph) = put_inside(
                *r,
                x as int,
                y as int,
                *area,
                min_w as int,
                min_h as int,
            );
            place.0 == px && place.1 == py && place.2 == pw && place.3 == ph
        }),
        area.left <= place.0 && place.0 + place.2 <= area.right,
        area.top <= place.1 && place.1 + place.3 <= area.bottom,
{
    let mut w: i32 = restored(r.saved_w, r.saved_dpi, r.dpi, min_w);
    let mut h: i32 = restored(r.saved_h, r.saved_dpi, r.dpi, min_h);
    let room_w: i64 = area.right as i64 - area.left as i64;
    let room_h: i64 = area.bottom as i64 - area.top as i64;
    if w as i64 > room_w {
        w = room_w as i32;
    }
    if h as i64 > room_h {
        h = room_h as i32;
    }
    (
        hold_between(x, w, area.left, area.right),
        hold_between(y, h, area.top, area.bottom),
        w,
        h,
    )
}

/// Takes the window as it stands in the end for the fence: its rectangle and its DPI.
pub fn adopt_window(f: &mut Fence, rect: &Area, dpi: u32)
    ensures
        *final(f) == (Fence {
            dpi,
            cfg: FenceCfg {
                x: rect.left,
                y: rect.top,
                w: extent(rect.left as int, rect.right as int) as i32,
                h: extent(rect.top as int, rect.bottom as int) as i32,
                dpi,
                pos_set: Some(true),
                ..old(f).cfg
            },
            ..*old(f)
        }),
{
    f.dpi = dpi;
    f.cfg.x = rect.left;
    f.cfg.y = rect.top;
    f.cfg.w = extent_of(rect.left, rect.right);
    f.cfg.h = extent_of(rect.top, rect.bottom);
    f.cfg.dpi = dpi;
    f.cfg.pos_set = Some(true);
}

/// The folder that is watched for a fence: its own, or the vault.
pub fn watched_dir(f: &FenceCfg, c: &Config, config_dir: &str) -> (dir: String)
    ensures
        dir@ == (match opt_view(f.folder) {
            Some(dir) => dir,
            None => vault_of(opt_view(c.vault_dir), config_dir@),
        }),
{
    match &f.folder {
        Some(dir) => dir.clone(),
        None => vault_dir(c, config_dir),
    }
}

// ---------- which fences show ----------

/// A window and whether it shows.
#[derive(Clone, Copy, Debug, PartialEq, Eq, Structural)]
pub struct Visibility {
    pub hwnd: isize,
    pub show: bool,
}

/// Which of `fences` show: none in Zen mode, and the box for downloads only where it is to.
pub open spec fn visibilities(fences: Seq<Fence>, c: Config, zen: bool) -> Seq<Visibility>
    decreases fences.len(),
{
    if fences.len() == 0 {
        Seq::empty()
    } else {
        let f = fences.last();
        let before = visibilities(fences.drop_last(), c, zen);
        if f.valid {
            before.push(Visibility { hwnd: f.hwnd, show: !zen && shows(c, f.cfg.id) })
        } else {
            before
        }
    }
}

/// See [`visibilities`].
pub fn apply_visibility(g: &Global) -> (out: Vec<Visibility>)
    ensures
        out@ == visibilities(g.fences@, g.config, g.zen),
{
    let mut out: Vec<Visibility> = Vec::new();
    for i in 0..g.fences.len()
        invariant
            out@ == visibilities(g.fences@.take(i as int), g.config, g.zen),
    {
        assert(g.fences@.take(i + 1).drop_last() =~= g.fences@.take(i as int));
        let f = &g.fences[i];
        if f.valid {
            let show: bool = !g.zen && download_box_should_show(&g.config, f.cfg.id);
            out.push(Visibility { hwnd: f.hwnd, show });
        }
    }
    assert(g.fences@.take(g.fences@.len() as int) =~= g.fences@);
    out
}

/// Switches Zen mode.
pub fn toggle_zen(g: &mut Global)
    ensures
        *final(g) == (Global { zen: !old(g).zen, ..*old(g) }),
{
    g.zen = !g.zen;
}

/// Zen mode hides every fence.
pub proof fn zen_hides_every_fence(fences: Seq<Fence>, c: Config, i: int)
    requires
        0 <= i < visibilities(fences, c, true).len(),
    ensures
        !visibilities(fences, c, true)[i].show,
    decreases fences.len(),
{
    if fences.len() > 0 {
        let before = visibilities(fences.drop_last(), c, true);
        if i < before.len() {
            zen_hides_every_fence(fences.drop_last(), c, i);
        }
    }
}

/// Outside Zen mode each fence with a window shows, but the box for downloads, which does while downloads
/// are taken and it is not switched off; and each window is told of once.
pub proof fn each_fence_shows_outside_zen(fences: Seq<Fence>, c: Config, zen: bool, i: int)
    requires
        0 <= i < fences.len(),
        fences[i].valid,
    ensures
        visibilities(fences, c, zen).contains(
            Visibility {
                hwnd: fences[i].hwnd,
                show: !zen && !(c.download_box_id == Some(fences[i].cfg.id) && !(c.download_enabled
                    && c.download_box_visible)),
            },
        ),
        visibilities(fences, c, zen).len() == fences.filter(|f: Fence| f.valid).len(),
    decreases fences.len(),
{
    let t = fences.drop_last();
    let n = fences.len() - 1;
    let before = visibilities(t, c, zen);
    let now = visibilities(fences, c, zen);
    windows_are_counted(fences, c, zen);
    if i < n {
        each_fence_shows_outside_zen(t, c, zen, i);
        let v = Visibility {
            hwnd: fences[i].hwnd,
            show: !zen && !(c.download_box_id == Some(fences[i].cfg.id) && !(c.download_enabled
                && c.download_box_visible)),
        };
        let k = choose|k: int| 0 <= k < before.len() && before[k] == v;
        assert(now[k] == v);
    } else {
        assert(now.last() == now[before.len() as int]);
    }
}

proof fn windows_are_counted(fences: Seq<Fence>, c: Config, zen: bool)
    ensures
        visibilities(fences, c, zen).len() == fences.filter(|f: Fence| f.valid).len(),
    decreases fences.len(),
{
    reveal(Seq::filter);
    if fences.len() > 0 {
        windows_are_counted(fences.drop_last(), c, zen);
    }
}

/// The fences that stand on the desktop, by their windows: the ones with a window that show where
/// downloads are concerned.
pub open spec fn standing(fences: Seq<Fence>, c: Config) -> Seq<Fence> {
    fences.filter(|f: Fence| f.valid && shows(c, f.cfg.id))
}

/// The rectangle of a fence.
pub open spec fn area_of(f: Fence) -> Area {
    Area {
        left: f.cfg.x,
        top: f.cfg.y,
        right: saturated(f.cfg.x + f.cfg.w) as i32,
        bottom: saturated(f.cfg.y + f.cfg.h) as i32,
    }
}

/// Icons make room for every pixel of every fence that shows: the fence `i` has a rectangle among those
/// that are kept free, which has the pixels of the fence and no others.
pub proof fn every_pixel_of_a_fence_is_kept_free(
    fences: Seq<Fence>,
    c: Config,
    i: int,
    px: int,
    py: int,
)
    requires
        0 <= i < fences.len(),
        fences[i].valid,
        c.download_box_id != Some(fences[i].cfg.id) || (c.download_enabled
            && c.download_box_visible),
        i32::MIN <= fences[i].cfg.x + fences[i].cfg.w <= i32::MAX,
        i32::MIN <= fences[i].cfg.y + fences[i].cfg.h <= i32::MAX,
    ensures
        standing(fences, c).map_values(|f: Fence| area_of(f)).contains(area_of(fences[i])),
        area_of(fences[i]).has(px, py) == has_pixel(
            fences[i].cfg.x as int,
            fences[i].cfg.y as int,
            fences[i].cfg.w as int,
            fences[i].cfg.h as int,
            px,
            py,
        ),
{
    let stands = |f: Fence| f.valid && shows(c, f.cfg.id);
    fences.lemma_filter_contains(stands, i);
    let kept = standing(fences, c);
    let k = choose|k: int| 0 <= k < kept.len() && kept[k] == fences[i];
    assert(kept.map_values(|f: Fence| area_of(f))[k] == area_of(fences[i]));
}

fn plus(a: i32, b: i32) -> (n: i32)
    ensures
        n == saturated(a + b),
{
    let n: i64 = a as i64 + b as i64;
    if n < i32::MIN as i64 {
        i32::MIN
    } else if n > i32::MAX as i64 {
        i32::MAX
    } else {
        n as i32
    }
}

/// The rectangles that desktop icons make room for: those of the standing fences; none where icons do
/// not make room.
pub fn reserve_desktop_icons(g: &Global, safe_desktop: bool) -> (areas: Option<Vec<Area>>)
    ensures
        match areas {
            Some(areas) => g.config.desktop_avoid && !safe_desktop && areas@ == standing(
                g.fences@,
                g.config,
            ).map_values(|f: Fence| area_of(f)),
            None => !g.config.desktop_avoid || safe_desktop,
        },
{
    if !g.config.desktop_avoid || safe_desktop {
        return None;
    }
    let mut areas: Vec<Area> = Vec::new();
    let ghost stands = |f: Fence| f.valid && shows(g.config, f.cfg.id);
    proof {
        reveal(Seq::filter);
        assert(areas@ =~= g.fences@.take(0).filter(stands).map_values(|f: Fence| area_of(f)));
    }
    for i in 0..g.fences.len()
        invariant
            stands == (|f: Fence| f.valid && shows(g.config, f.cfg.id)),
            areas@ == g.fences@.take(i as int).filter(stands).map_values(|f: Fence| area_of(f)),
    {
        proof {
            reveal(Seq::filter);
            assert(g.fences@.take(i + 1).drop_last() =~= g.fences@.take(i as int));
        }
        let f = &g.fences[i];
        if f.valid && download_box_should_show(&g.config, f.cfg.id) {
            let area = Area {
                left: f.cfg.x,
                top: f.cfg.y,
                right: plus(f.cfg.x, f.cfg.w),
                bottom: plus(f.cfg.y, f.cfg.h),
            };
            areas.push(area);
        }
        assert(areas@ =~= g.fences@.take(i + 1).filter(stands).map_values(|f: Fence| area_of(f)));
    }
    assert(g.fences@.take(g.fences@.len() as int) =~= g.fences@);
    Some(areas)
}

/// The windows that are kept right above the desktop, each above the one before: those of the standing
/// fences; none in Zen mode.
pub fn desktop_layer(g: &Global) -> (hwnds: Vec<isize>)
    ensures
        hwnds@ == (if g.zen {
            Seq::empty()
        } else {
            standing(g.fences@, g.config).map_values(|f: Fence| f.hwnd)
        }),
{
    let mut hwnds: Vec<isize> = Vec::new();
    if g.zen {
        return hwnds;
    }
    let ghost stands = |f: Fence| f.valid && shows(g.config, f.cfg.id);
    proof {
        reveal(Seq::filter);
        assert(hwnds@ =~= g.fences@.take(0).filter(stands).map_values(|f: Fence| f.hwnd));
    }
    for i in 0..g.fences.len()
        invariant
            stands == (|f: Fence| f.valid && shows(g.config, f.cfg.id)),
            hwnds@ == g.fences@.take(i as int).filter(stands).map_values(|f: Fence| f.hwnd),
    {
        proof {
            reveal(Seq::filter);
            assert(g.fences@.take(i + 1).drop_last() =~= g.fences@.take(i as int));
        }
        let f = &g.fences[i];
        if f.valid && download_box_should_show(&g.config, f.cfg.id) {
            hwnds.push(f.hwnd);
        }
        assert(hwnds@ =~= g.fences@.take(i + 1).filter(stands).map_values(|f: Fence| f.hwnd));
    }
    assert(g.fences@.take(g.fences@.len() as int) =~= g.fences@);
    hwnds
}

/// Behind which window a fence's window is put, if it does not stand there: the one above the anchor.
pub fn layer_step(hwnd: isize, above_anchor: isize) -> (behind: Option<isize>)
    ensures
        behind == (if above_anchor != hwnd {
            Some(above_anchor)
        } else {
            None
        }),
{
    if above_anchor != hwnd {
        Some(above_anchor)
    } else {
        None
    }
}

/// What the watchdog does with a fence.
#[derive(Clone, Copy, Debug, PartialEq, Eq, Structural)]
pub enum WatchStep {
    /// Its window is gone: make it a new one.
    Rebuild,
    /// Its window was hidden or minimised by someone else: show it.
    ShowAgain,
    Leave,
}

/// What the watchdog does with a fence whose window is `hidden` (or minimised).
pub fn watchdog_step(f: &Fence, c: &Config, zen: bool, hidden: bool) -> (step: WatchStep)
    ensures
        step == (if !f.valid {
            WatchStep::Rebuild
        } else if !zen && shows(*c, f.cfg.id) && hidden {
            WatchStep::ShowAgain
        } else {
            WatchStep::Leave
        }),
{
    if !f.valid {
        WatchStep::Rebuild
    } else if !zen && download_box_should_show(c, f.cfg.id) && hidden {
        WatchStep::ShowAgain
    } else {
        WatchStep::Leave
    }
}

/// Gives a fence whose window was lost the window `hwnd`; nothing is being moved or resized there.
pub fn rebuilt(f: &mut Fence, hwnd: isize)
    ensures
        *final(f) == (Fence {
            hwnd,
            valid: true,
            interaction: crate::fence::interaction::FenceInteraction {
                moving: false,
                resizing: None,
                ..old(f).interaction
            },
            ..*old(f)
        }),
{
    f.hwnd = hwnd;
    f.valid = true;
    f.interaction.moving = false;
    f.interaction.resizing = None;
}

/// The first fence with the number `id`, with a window or not.
pub open spec fn is_numbered(fences: Seq<Fence>, id: u32, at: Option<usize>) -> bool {
    match at {
        Some(i) => i < fences.len() && fences[i as int].cfg.id == id && forall|j: int|
            0 <= j < i ==> (#[trigger] fences[j]).cfg.id != id,
        None => forall|j: int| 0 <= j < fences.len() ==> (#[trigger] fences[j]).cfg.id != id,
    }
}

/// The fence with a number is the first, at `k`, that has it; where there is none, none is found.
pub proof fn the_fence_with_a_number_is_found(
    fences: Seq<Fence>,
    id: u32,
    at: Option<usize>,
    k: int,
)
    requires
        is_numbered(fences, id, at),
        0 <= k <= fences.len() <= usize::MAX,
        forall|j: int| 0 <= j < k ==> (#[trigger] fences[j]).cfg.id != id,
        k < fences.len() ==> fences[k].cfg.id == id,
    ensures
        at == if k < fences.len() {
            Some(k as usize)
        } else {
            None
        },
{
    if k < fences.len() {
        assert(fences[k].cfg.id == id);
    }
    if at is Some && at->0 < k {
        assert(fences[at->0 as int].cfg.id != id);
    }
}

/// Gives a fence that was moved or resized the rectangle that it had, and says which it is; it has to
/// be settled there. None where it is gone.
pub fn put_back(fences: &mut Vec<Fence>, moved: &MovedFence) -> (at: Option<usize>)
    ensures
        is_numbered(old(fences)@, moved.cfg.id, at),
        match at {
            Some(i) => final(fences)@ == old(fences)@.update(
                i as int,
                Fence {
                    cfg: FenceCfg {
                        x: moved.cfg.x,
                        y: moved.cfg.y,
                        w: moved.cfg.w,
                        h: moved.cfg.h,
                        ..old(fences)@[i as int].cfg
                    },
                    ..old(fences)@[i as int]
                },
            ),
            None => final(fences)@ == old(fences)@,
        },
{
    let n: usize = fences.len();
    for i in 0..n
        invariant
            fences@ == old(fences)@,
            n == fences@.len(),
            forall|j: int| 0 <= j < i ==> (#[trigger] fences@[j]).cfg.id != moved.cfg.id,
    {
        if fences[i].cfg.id == moved.cfg.id {
            let f = &mut fences[i];
            f.cfg.x = moved.cfg.x;
            f.cfg.y = moved.cfg.y;
            f.cfg.w = moved.cfg.w;
            f.cfg.h = moved.cfg.h;
            return Some(i);
        }
    }
    None
}

// ---------- drops ----------

/// Something that could not be moved or copied, and why.
pub struct Failure {
    pub path: String,
    pub error: String,
}

/// How many failures are told in full.
pub const MAX_DETAILS: usize = 5;

pub open spec fn operation(copy: bool) -> Seq<char> {
    if copy {
        "复制"@
    } else {
        "移动"@
    }
}

/// What a path is called: its last part, or all of it where it has none.
pub open spec fn called(path: Seq<char>) -> Seq<char> {
    match file_name(path) {
        Some(name) => name,
        None => path,
    }
}

/// One line for each of the first `n` failures.
pub open spec fn failure_lines(failures: Seq<Failure>, n: int) -> Seq<char>
    decreases n,
{
    if n <= 0 {
        Seq::empty()
    } else {
        failure_lines(failures, n - 1) + "• "@ + called(failures[n - 1].path@) + "："@
            + failures[n - 1].error@ + "\n"@
    }
}

/// The head of the message: how many things failed, where, and how many did not.
pub open spec fn failure_head(
    target: Seq<char>,
    succeeded: nat,
    failed: nat,
    copy: bool,
) -> Seq<char> {
    let head = "有 "@ + decimal(failed) + " 个项目未能"@ + operation(copy) + "到：\n"@ + target
        + "\n\n"@;
    if succeeded > 0 {
        head + "已成功"@ + operation(copy) + " "@ + decimal(succeeded) + " 个项目。\n\n"@
    } else {
        head
    }
}

/// What is told of a drop of which something failed.
pub open spec fn failure_text(
    target: Seq<char>,
    succeeded: nat,
    failures: Seq<Failure>,
    copy: bool,
) -> Seq<char> {
    let told = if failures.len() > MAX_DETAILS {
        failure_head(target, succeeded, failures.len(), copy) + failure_lines(
            failures,
            MAX_DETAILS as int,
        ) + "• 另有 "@ + decimal((failures.len() - MAX_DETAILS) as nat)
            + " 个项目未列出\n"@
    } else {
        failure_head(target, succeeded, failures.len(), copy) + failure_lines(
            failures,
            failures.len() as int,
        )
    };
    told
        + "\n请检查原位置和目标目录后重试。程序不会主动删除未成功移动的源项目。"@
}

fn operation_name(copy: bool) -> (name: &'static str)
    ensures
        name@ == operation(copy),
{
    if copy {
        "复制"
    } else {
        "移动"
    }
}

/// See [`failure_text`].
pub fn format_drop_failures(
    target: &str,
    succeeded: usize,
    failures: &Vec<Failure>,
    copy_requested: bool,
) -> (message: String)
    ensures
        message@ == failure_text(target@, succeeded as nat, failures@, copy_requested),
{
    let n: usize = failures.len();
    let operation = operation_name(copy_requested);
    let mut message = owned("有 ");
    push_decimal(&mut message, n as u128);
    message.append(" 个项目未能");
    message.append(operation);
    message.append("到：\n");
    message.append(target);
    message.append("\n\n");
    if succeeded > 0 {
        message.append("已成功");
        message.append(operation);
        message.append(" ");
        push_decimal(&mut message, succeeded as u128);
        message.append(" 个项目。\n\n");
    }
    let ghost head = message@;
    assert(head == failure_head(target@, succeeded as nat, n as nat, copy_requested));
    let shown: usize = if n < MAX_DETAILS {
        n
    } else {
        MAX_DETAILS
    };
    assert(head + failure_lines(failures@, 0) =~= head);
    for i in 0..shown
        invariant
            shown <= failures@.len(),
            message@ == head + failure_lines(failures@, i as int),
    {
        let f = &failures[i];
        let name = match file_name_of(f.path.as_str()) {
            Some(name) => name,
            None => f.path.clone(),
        };
        message.append("• ");
        message.append(name.as_str());
        message.append("：");
        message.append(f.error.as_str());
        message.append("\n");
        assert(message@ =~= head + failure_lines(failures@, i + 1));
    }
    if n > MAX_DETAILS {
        message.append("• 另有 ");
        push_decimal(&mut message, (n - MAX_DETAILS) as u128);
        message.append(" 个项目未列出\n");
    }
    message.append(
        "\n请检查原位置和目标目录后重试。程序不会主动删除未成功移动的源项目。",
    );
    message
}

/// Where a drop goes.
pub enum DropTarget {
    /// The window belongs to no fence.
    NoFence,
    /// To the fence at `idx`, into `dir`. Whether that is the vault, which has to be made first.
    Into { idx: usize, dir: String, is_vault: bool },
}

/// Where a drop on the window `hwnd` goes: into the folder of its fence, or the vault where it has
/// none.
pub fn drop_target(g: &Global, hwnd: isize, config_dir: &str) -> (target: DropTarget)
    ensures
        match target {
            DropTarget::NoFence => is_fence_of(g.fences@, hwnd, None),
            DropTarget::Into { idx, dir, is_vault } => {
                &&& is_fence_of(g.fences@, hwnd, Some(idx))
                &&& is_vault == (g.fences@[idx as int].cfg.folder is None)
                &&& dir@ == (match opt_view(g.fences@[idx as int].cfg.folder) {
                    Some(dir) => dir,
                    None => vault_of(opt_view(g.config.vault_dir), config_dir@),
                })
            },
        },
{
    match fence_idx(&g.fences, hwnd) {
        Some(idx) => {
            let is_vault: bool = g.fences[idx].cfg.folder.is_none();
            DropTarget::Into {
                idx,
                dir: watched_dir(&g.fences[idx].cfg, &g.config, config_dir),
                is_vault,
            }
        },
        None => DropTarget::NoFence,
    }
}

/// What is done with something that is dropped.
#[derive(Clone, Copy, Debug, PartialEq, Eq, Structural)]
pub enum DropStep {
    /// It is no longer there.
    Missing,
    /// It is moved to where it is: nothing is done. A copy there is made, under another name.
    SameDir,
    Transfer,
}

/// What is done with `path`, which `exists` or does not, dropped into `target`.
pub open spec fn step_of_drop(
    path: Seq<char>,
    exists: bool,
    target: Seq<char>,
    copy_requested: bool,
) -> DropStep {
    if !exists {
        DropStep::Missing
    } else if !copy_requested && parent(path) is Some && same_place(parent(path)->0, target) {
        DropStep::SameDir
    } else {
        DropStep::Transfer
    }
}

/// A file `name` of the folder `dir` that is moved into a folder is left alone where that is its own
/// folder, however written, and transferred where it is another; a copy is always made, and what is not
/// there is missing.
pub proof fn a_file_moved_to_its_own_folder_stays(
    dir: Seq<char>,
    name: Seq<char>,
    exists: bool,
    target: Seq<char>,
    copy_requested: bool,
)
    requires
        takes_names(dir),
        !is_verbatim(dir),
        is_plain(name),
    ensures
        ({
            let step = step_of_drop(join(dir, name), exists, target, copy_requested);
            &&& step == DropStep::Missing <==> !exists
            &&& step == DropStep::SameDir <==> exists && !copy_requested && same_place(dir, target)
            &&& step == DropStep::Transfer <==> exists && (copy_requested || !same_place(
                dir,
                target,
            ))
        }),
{
    a_joined_name_comes_last(dir, name);
}

/// See [`step_of_drop`].
pub fn drop_step(path: &str, exists: bool, target: &str, copy_requested: bool) -> (step: DropStep)
    ensures
        step == step_of_drop(path@, exists, target@, copy_requested),
{
    if !exists {
        return DropStep::Missing;
    }
    if !copy_requested {
        if let Some(dir) = parent_of(path) {
            if is_same_place(dir.as_str(), target) {
                return DropStep::SameDir;
            }
        }
    }
    DropStep::Transfer
}

/// What came of something that was dropped.
pub enum ItemOutcome {
    Missing,
    SameDir,
    Done,
    Failed(String),
}

/// What came of a drop.
pub struct DropTally {
    pub succeeded: usize,
    pub missing: usize,
    pub same_dir_skipped: usize,
    pub failures: Vec<Failure>,
}

/// What came of a drop, over plain values: the numbers, and the failures with their reasons.
#[verifier::ext_equal]
pub struct Tally {
    pub succeeded: int,
    pub missing: int,
    pub same_dir_skipped: int,
    pub failures: Seq<(Seq<char>, Seq<char>)>,
}

impl View for DropTally {
    type V = Tally;

    open spec fn view(&self) -> Tally {
        Tally {
            succeeded: self.succeeded as int,
            missing: self.missing as int,
            same_dir_skipped: self.same_dir_skipped as int,
            failures: self.failures@.map_values(|f: Failure| (f.path@, f.error@)),
        }
    }
}

/// What came of the first `n` things of a drop.
pub open spec fn tallied(paths: Seq<String>, outcomes: Seq<ItemOutcome>, n: int) -> Tally
    decreases n,
{
    if n <= 0 {
        Tally { succeeded: 0, missing: 0, same_dir_skipped: 0, failures: Seq::empty() }
    } else {
        let t = tallied(paths, outcomes, n - 1);
        let path = paths[n - 1]@;
        match outcomes[n - 1] {
            ItemOutcome::Missing => Tally {
                missing: t.missing + 1,
                failures: t.failures.push((path, "源项目不存在或已被移动"@)),
                ..t
            },
            ItemOutcome::SameDir => Tally { same_dir_skipped: t.same_dir_skipped + 1, ..t },
            ItemOutcome::Done => Tally { succeeded: t.succeeded + 1, ..t },
            ItemOutcome::Failed(e) => Tally { failures: t.failures.push((path, e@)), ..t },
        }
    }
}

/// See [`tallied`].
pub fn tally_drop(paths: &Vec<String>, outcomes: &Vec<ItemOutcome>) -> (tally: DropTally)
    requires
        outcomes@.len() == paths@.len(),
    ensures
        tally@ == tallied(paths@, outcomes@, paths@.len() as int),
{
    let mut t = DropTally {
        succeeded: 0,
        missing: 0,
        same_dir_skipped: 0,
        failures: Vec::new(),
    };
    assert(t@ =~= tallied(paths@, outcomes@, 0));
    for i in 0..paths.len()
        invariant
            outcomes@.len() == paths@.len(),
            t@ == tallied(paths@, outcomes@, i as int),
            t.succeeded <= i,
            t.missing <= i,
            t.same_dir_skipped <= i,
    {
        let ghost before = t@;
        match &outcomes[i] {
            ItemOutcome::Missing => {
                t.missing = t.missing + 1;
                t.failures.push(
                    Failure { path: paths[i].clone(), error: owned("源项目不存在或已被移动") },
                );
            },
            ItemOutcome::SameDir => {
                t.same_dir_skipped = t.same_dir_skipped + 1;
            },
            ItemOutcome::Done => {
                t.succeeded = t.succeeded + 1;
            },
            ItemOutcome::Failed(e) => {
                t.failures.push(Failure { path: paths[i].clone(), error: e.clone() });
            },
        }
        assert(t@ =~= tallied(paths@, outcomes@, i + 1));
    }
    t
}

/// Everything that was dropped is accounted for: it was moved or copied, left where it is, or failed;
/// what is missing failed.
pub proof fn nothing_dropped_is_lost(paths: Seq<String>, outcomes: Seq<ItemOutcome>, n: int)
    requires
        0 <= n <= paths.len(),
    ensures
        ({
            let t = tallied(paths, outcomes, n);
            &&& t.succeeded + t.same_dir_skipped + t.failures.len() == n
            &&& 0 <= t.missing <= t.failures.len()
            &&& t.succeeded >= 0 && t.same_dir_skipped >= 0
        }),
    decreases n,
{
    if n > 0 {
        nothing_dropped_is_lost(paths, outcomes, n - 1);
    }
}

/// Each thing that was dropped counts as what came of it, and as nothing else; what failed is told with
/// its path and its reason, in order.
pub proof fn each_thing_dropped_counts_once(paths: Seq<String>, outcomes: Seq<ItemOutcome>, n: int)
    requires
        0 <= n < paths.len(),
        outcomes.len() == paths.len(),
    ensures
        ({
            let (t, u) = (tallied(paths, outcomes, n), tallied(paths, outcomes, n + 1));
            let o = outcomes[n];
            &&& u.succeeded - t.succeeded == if o is Done {
                1int
            } else {
                0
            }
            &&& u.same_dir_skipped - t.same_dir_skipped == if o is SameDir {
                1int
            } else {
                0
            }
            &&& u.missing - t.missing == if o is Missing {
                1int
            } else {
                0
            }
            &&& o is Done || o is SameDir ==> u.failures == t.failures
            &&& o is Missing || o is Failed ==> u.failures.drop_last() == t.failures
                && u.failures.last().0 == paths[n]@
            &&& o matches ItemOutcome::Failed(e) ==> u.failures.last().1 == e@
            &&& tallied(paths, outcomes, 0).succeeded == 0 && tallied(
                paths,
                outcomes,
                0,
            ).failures.len() == 0
        }),
{
    let (t, u) = (tallied(paths, outcomes, n), tallied(paths, outcomes, n + 1));
    if outcomes[n] is Missing || outcomes[n] is Failed {
        assert(u.failures.drop_last() =~= t.failures);
    }
}

/// What came of a drop where the vault could not be made: everything failed.
pub fn all_failed(paths: &Vec<String>) -> (tally: DropTally)
    ensures
        tally@ == (Tally {
            succeeded: 0,
            missing: 0,
            same_dir_skipped: 0,
            failures: paths@.map_values(
                |p: String| (p@, "无法创建或访问栅栏存储目录"@),
            ),
        }),
{
    let mut failures: Vec<Failure> = Vec::new();
    for i in 0..paths.len()
        invariant
            failures@.len() == i,
            forall|j: int|
                0 <= j < i ==> (#[trigger] failures@[j]).path@ == paths@[j]@ && failures@[j].error@
                    == "无法创建或访问栅栏存储目录"@,
    {
        failures.push(
            Failure { path: paths[i].clone(), error: owned("无法创建或访问栅栏存储目录") },
        );
    }
    let tally = DropTally { succeeded: 0, missing: 0, same_dir_skipped: 0, failures };
    assert(tally@.failures =~= paths@.map_values(
        |p: String| (p@, "无法创建或访问栅栏存储目录"@),
    ));
    tally
}

/// What is told at the notification area of a drop of which `failed` things failed.
pub fn failure_tip(failed: usize) -> (text: String)
    ensures
        text@ == decimal(failed as nat)
            + " 个文件未能移入目标目录(可能被占用或跨卷移动文件夹)"@,
{
    let mut text = String::new();
    push_decimal(&mut text, failed as u128);
    assert(text@ =~= decimal(failed as nat));
    text.append(" 个文件未能移入目标目录(可能被占用或跨卷移动文件夹)");
    text
}

/// What follows a drop.
#[derive(Clone, Copy, Debug, PartialEq, Eq, Structural)]
pub struct AfterDrop {
    /// The fence is told to show what came.
    pub refresh: bool,
    /// Failures are told.
    pub tell: bool,
    /// The source is told that something was taken.
    pub taken: bool,
}

/// What follows a drop.
pub fn after_drop(t: &DropTally) -> (after: AfterDrop)
    ensures
        after == (AfterDrop {
            refresh: t.succeeded > 0,
            tell: t.failures@.len() > 0,
            taken: t.succeeded > 0,
        }),
{
    AfterDrop { refresh: t.succeeded > 0, tell: t.failures.len() > 0, taken: t.succeeded > 0 }
}

// ---------- the menu of a fence ----------

/// What is left to do after a line of a fence's menu was chosen.
pub enum MenuOutcome {
    /// Downloads are taken no longer.
    EndDownloads,
    /// This fence goes.
    DeleteFence(usize),
    /// Ask for a new title.
    AskTitle,
    /// The settings changed in what shows, or they did not.
    HideBox { changed: bool },
    /// Show this folder.
    Open(String),
    /// Draw this fence, and save the settings.
    Redraw(usize),
    /// Settle all fences on the new grid.
    SettleAll,
    Nothing,
}

/// The first fence whose window is `hwnd`, lost or not.
pub open spec fn is_window_of(fences: Seq<Fence>, hwnd: isize, at: Option<usize>) -> bool {
    match at {
        Some(i) => i < fences.len() && fences[i as int].hwnd == hwnd && forall|j: int|
            0 <= j < i ==> (#[trigger] fences[j]).hwnd != hwnd,
        None => forall|j: int| 0 <= j < fences.len() ==> (#[trigger] fences[j]).hwnd != hwnd,
    }
}

/// The fence of a window, lost or not, is the first, at `k`, whose window it is; where there is none, none
/// is found.
pub proof fn the_window_of_a_fence_is_found(
    fences: Seq<Fence>,
    hwnd: isize,
    at: Option<usize>,
    k: int,
)
    requires
        is_window_of(fences, hwnd, at),
        0 <= k <= fences.len() <= usize::MAX,
        forall|j: int| 0 <= j < k ==> (#[trigger] fences[j]).hwnd != hwnd,
        k < fences.len() ==> fences[k].hwnd == hwnd,
    ensures
        at == if k < fences.len() {
            Some(k as usize)
        } else {
            None
        },
{
    if k < fences.len() {
        assert(fences[k].hwnd == hwnd);
    }
    if at is Some && at->0 < k {
        assert(fences[at->0 as int].hwnd != hwnd);
    }
}

/// See [`is_window_of`].
pub fn window_idx(fences: &Vec<Fence>, hwnd: isize) -> (at: Option<usize>)
    ensures
        is_window_of(fences@, hwnd, at),
{
    for i in 0..fences.len()
        invariant
            forall|j: int| 0 <= j < i ==> (#[trigger] fences@[j]).hwnd != hwnd,
    {
        if fences[i].hwnd == hwnd {
            return Some(i);
        }
    }
    None
}

/// `f` with another opacity.
pub open spec fn with_opacity(f: Fence, opacity: u32) -> Fence {
    Fence { cfg: FenceCfg { opacity, ..f.cfg }, ..f }
}

/// The folder that the fence of a window shows; the vault where it shows none, or is gone.
pub open spec fn is_folder_of(g: Global, hwnd: isize, config_dir: Seq<char>, dir: Seq<char>) -> bool {
    let vault = vault_of(opt_view(g.config.vault_dir), config_dir);
    exists|at: Option<usize>| #[trigger]
        is_fence_of(g.fences@, hwnd, at) && dir == (match at {
            Some(i) => match opt_view(g.fences@[i as int].cfg.folder) {
                Some(folder) => folder,
                None => vault,
            },
            None => vault,
        })
}

/// The folder that is opened for a window is that of its fence, the first at `k`; the vault where that has
/// none or there is no such fence.
pub proof fn the_folder_of_a_window_is_opened(
    g: Global,
    hwnd: isize,
    config_dir: Seq<char>,
    dir: Seq<char>,
    k: int,
)
    requires
        is_folder_of(g, hwnd, config_dir, dir),
        0 <= k <= g.fences@.len() <= usize::MAX,
        forall|j: int|
            0 <= j < k ==> (#[trigger] g.fences@[j]).hwnd != hwnd || !g.fences@[j].valid,
        k < g.fences@.len() ==> g.fences@[k].hwnd == hwnd && g.fences@[k].valid,
    ensures
        k < g.fences@.len() && g.fences@[k].cfg.folder is Some ==> dir
            == g.fences@[k].cfg.folder->0@,
        k == g.fences@.len() || g.fences@[k].cfg.folder is None ==> dir == vault_of(
            opt_view(g.config.vault_dir),
            config_dir,
        ),
{
    let vault = vault_of(opt_view(g.config.vault_dir), config_dir);
    let at = choose|at: Option<usize>| #[trigger]
        is_fence_of(g.fences@, hwnd, at) && dir == (match at {
            Some(i) => match opt_view(g.fences@[i as int].cfg.folder) {
                Some(folder) => folder,
                None => vault,
            },
            None => vault,
        });
    the_fence_of_a_window_is_found(g.fences@, hwnd, at, k);
}

/// Does what a line of a fence's menu asks for: at once where only the state changes, and as far as
/// the state goes otherwise.
pub fn apply_fence_command(
    g: &mut Global,
    hwnd: isize,
    asked: FenceCommand,
    config_dir: &str,
) -> (outcome: MenuOutcome)
    ensures
        match asked {
            FenceCommand::Delete => {
                &&& *final(g) == *old(g)
                &&& match outcome {
                    MenuOutcome::EndDownloads => exists|i: usize| #[trigger]
                        is_window_of(old(g).fences@, hwnd, Some(i)) && old(g).config.download_box_id
                            == Some(old(g).fences@[i as int].cfg.id),
                    MenuOutcome::DeleteFence(i) => is_window_of(old(g).fences@, hwnd, Some(i)) && old(
                        g,
                    ).config.download_box_id != Some(old(g).fences@[i as int].cfg.id),
                    MenuOutcome::Nothing => is_window_of(old(g).fences@, hwnd, None),
                    _ => false,
                }
            },
            FenceCommand::Rename => *final(g) == *old(g) && outcome is AskTitle,
            FenceCommand::HideDownloadBox => {
                &&& outcome == (MenuOutcome::HideBox {
                    changed: old(g).config.download_box_visible,
                })
                &&& *final(g) == (Global {
                    config: Config { download_box_visible: false, ..old(g).config },
                    ..*old(g)
                })
            },
            FenceCommand::OpenFolder => {
                &&& *final(g) == *old(g)
                &&& outcome matches MenuOutcome::Open(dir) && is_folder_of(
                    *old(g),
                    hwnd,
                    config_dir@,
                    dir@,
                )
            },
            FenceCommand::Opacity(opacity) => match outcome {
                MenuOutcome::Redraw(i) => {
                    &&& is_fence_of(old(g).fences@, hwnd, Some(i))
                    &&& final(g).fences@ == old(g).fences@.update(
                        i as int,
                        with_opacity(old(g).fences@[i as int], opacity),
                    )
                    &&& is_synced(old(g).config, final(g).config, final(g).fences@)
                    &&& *final(g) == (Global {
                        fences: final(g).fences,
                        config: final(g).config,
                        ..*old(g)
                    })
                },
                MenuOutcome::Nothing => is_fence_of(old(g).fences@, hwnd, None) && *final(g)
                    == *old(g),
                _ => false,
            },
            FenceCommand::IconSize(size) => outcome is SettleAll && *final(g) == (Global {
                config: Config { icon: size, ..old(g).config },
                ..*old(g)
            }),
            FenceCommand::TitleSize(size) => outcome is SettleAll && *final(g) == (Global {
                config: Config { title_font_size: size, ..old(g).config },
                ..*old(g)
            }),
            FenceCommand::Nothing => outcome is Nothing && *final(g) == *old(g),
        },
{
    match asked {
        FenceCommand::Delete => match window_idx(&g.fences, hwnd) {
            Some(i) => {
                let id: u32 = g.fences[i].cfg.id;
                match g.config.download_box_id {
                    Some(download) => {
                        if download == id {
                            return MenuOutcome::EndDownloads;
                        }
                    },
                    None => {},
                }
                MenuOutcome::DeleteFence(i)
            },
            None => MenuOutcome::Nothing,
        },
        FenceCommand::Rename => MenuOutcome::AskTitle,
        FenceCommand::HideDownloadBox => {
            let changed = set_download_box_visible(&mut g.config, false);
            MenuOutcome::HideBox { changed }
        },
        FenceCommand::OpenFolder => {
            match fence_idx(&g.fences, hwnd) {
                Some(i) => {
                    assert(is_fence_of(g.fences@, hwnd, Some(i)));
                    MenuOutcome::Open(watched_dir(&g.fences[i].cfg, &g.config, config_dir))
                },
                None => {
                    assert(is_fence_of(g.fences@, hwnd, None));
                    MenuOutcome::Open(vault_dir(&g.config, config_dir))
                },
            }
        },
        FenceCommand::Opacity(opacity) => match fence_idx(&g.fences, hwnd) {
            Some(i) => {
                let f = &mut g.fences[i];
                f.cfg.opacity = opacity;
                sync_config(g);
                MenuOutcome::Redraw(i)
            },
            None => MenuOutcome::Nothing,
        },
        FenceCommand::IconSize(size) => {
            g.config.icon = size;
            MenuOutcome::SettleAll
        },
        FenceCommand::TitleSize(size) => {
            g.config.title_font_size = size;
            MenuOutcome::SettleAll
        },
        FenceCommand::Nothing => MenuOutcome::Nothing,
    }
}

/// `f` under another title.
pub open spec fn with_title(f: Fence, g: Fence, title: Seq<char>) -> bool {
    g.cfg.title@ == title && g == Fence { cfg: FenceCfg { title: g.cfg.title, ..f.cfg }, ..f }
}

/// A fence under another title has that title, and is as it was in everything else.
pub proof fn a_new_title_changes_nothing_else(f: Fence, g: Fence, title: Seq<char>)
    requires
        with_title(f, g, title),
    ensures
        g.cfg.title@ == title,
        g.cfg.id == f.cfg.id && g.cfg.kind == f.cfg.kind && g.cfg.folder == f.cfg.folder,
        g.cfg.x == f.cfg.x && g.cfg.y == f.cfg.y && g.cfg.w == f.cfg.w && g.cfg.h == f.cfg.h,
        g.cfg.dpi == f.cfg.dpi && g.cfg.opacity == f.cfg.opacity && g.cfg.icon == f.cfg.icon,
        g.model == f.model && g.interaction == f.interaction && g.hwnd == f.hwnd && g.valid
            == f.valid,
{
}

/// Gives the fence of a window the title that was typed; the fence to draw. A title of blanks is
/// none.
pub fn rename_fence(g: &mut Global, hwnd: isize, typed: &str) -> (renamed: Option<usize>)
    ensures
        match renamed {
            Some(i) => {
                &&& trimmed(typed@).len() > 0
                &&& is_fence_of(old(g).fences@, hwnd, Some(i))
                &&& final(g).fences@.len() == old(g).fences@.len()
                &&& with_title(
                    old(g).fences@[i as int],
                    final(g).fences@[i as int],
                    trimmed(typed@),
                )
                &&& forall|j: int|
                    0 <= j < old(g).fences@.len() && j != i ==> #[trigger] final(g).fences@[j] == old(
                        g,
                    ).fences@[j]
                &&& is_synced(old(g).config, final(g).config, final(g).fences@)
                &&& *final(g) == (Global {
                    fences: final(g).fences,
                    config: final(g).config,
                    ..*old(g)
                })
            },
            None => *final(g) == *old(g) && (trimmed(typed@).len() == 0 || is_fence_of(
                old(g).fences@,
                hwnd,
                None,
            )),
        },
{
    match new_title(typed) {
        Some(title) => match fence_idx(&g.fences, hwnd) {
            Some(i) => {
                let f = &mut g.fences[i];
                f.cfg.title = title;
                sync_config(g);
                Some(i)
            },
            None => None,
        },
        None => None,
    }
}

} // verus!
