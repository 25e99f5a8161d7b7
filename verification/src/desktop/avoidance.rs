//! Desktop icons that lie under a fence move to the nearest free cell, and can be put back for a
//! while.

use crate::config::FenceCfg;
use crate::geometry::{has_pixel, Area, Point};
use vstd::prelude::*;

verus! {

/// For how many seconds a move can be undone.
pub const ROLLBACK_TTL_SECS: u64 = 60;

/// The desktop as icons see it.
pub struct Layout {
    /// What fences cover.
    pub reserved: Vec<Area>,
    pub cell_w: i32,
    pub cell_h: i32,
    /// The inside of the desktop's window.
    pub client: Area,
}

impl Layout {
    /// The cells are not empty.
    pub open spec fn wf(&self) -> bool {
        self.cell_w > 0 && self.cell_h > 0
    }

    /// Whether an icon at (`x`, `y`) lies under a fence.
    pub open spec fn blocks(&self, x: int, y: int) -> bool {
        exists|i: int|
            0 <= i < self.reserved@.len() && under(
                #[trigger] self.reserved@[i],
                x,
                y,
                self.cell_w as int,
                self.cell_h as int,
            )
    }

    /// Whether an icon at (`x`, `y`) comes too near to one other than `skip`.
    pub open spec fn crowds(&self, icons: Seq<Point>, skip: int, x: int, y: int) -> bool {
        exists|i: int|
            0 <= i < icons.len() && i != skip && near(
                #[trigger] icons[i],
                x,
                y,
                self.cell_w as int,
                self.cell_h as int,
            )
    }

    /// Where the last column can begin.
    pub open spec fn max_x(&self) -> int {
        if self.client.right - self.cell_w < 0 {
            0
        } else {
            self.client.right - self.cell_w
        }
    }

    /// Where the last row can begin.
    pub open spec fn max_y(&self) -> int {
        if self.client.bottom - self.cell_h < 0 {
            0
        } else {
            self.client.bottom - self.cell_h
        }
    }

    /// Whether the cell in column `a` and row `b` can take icon `idx`.
    pub open spec fn takes(&self, icons: Seq<Point>, idx: int, a: int, b: int) -> bool {
        let x = a * self.cell_w;
        let y = b * self.cell_h;
        &&& 0 <= a && 0 <= b && x <= self.max_x() && y <= self.max_y()
        &&& !self.blocks(x, y)
        &&& !self.crowds(icons, idx, x, y)
    }

    /// The square of how far the cell in column `a` and row `b` is from icon `idx`.
    pub open spec fn distance(&self, icons: Seq<Point>, idx: int, a: int, b: int) -> int {
        let dx = a * self.cell_w - icons[idx].x;
        let dy = b * self.cell_h - icons[idx].y;
        dx * dx + dy * dy
    }

    /// Whether the cell in column `a` and row `b` is the one that icon `idx` moves to: the nearest
    /// that can take it; of equally near ones the leftmost, of those the uppermost.
    pub open spec fn is_best(&self, icons: Seq<Point>, idx: int, a: int, b: int) -> bool {
        self.takes(icons, idx, a, b) && forall|c: int, d: int| #[trigger]
            self.takes(icons, idx, c, d) ==> self.no_worse(icons, idx, a, b, c, d)
    }

    /// Whether the first cell is nearer, or as near and first in order.
    pub open spec fn no_worse(
        &self,
        icons: Seq<Point>,
        idx: int,
        a: int,
        b: int,
        c: int,
        d: int,
    ) -> bool {
        let mine = self.distance(icons, idx, a, b);
        let other = self.distance(icons, idx, c, d);
        mine < other || (mine == other && (a < c || (a == c && b <= d)))
    }

    /// Where icon `idx` goes: nowhere if it lies under no fence or no cell can take it.
    pub open spec fn refuge(&self, icons: Seq<Point>, idx: int) -> Option<Point> {
        if self.blocks(icons[idx].x as int, icons[idx].y as int) && exists|a: int, b: int| #[trigger]
            self.is_best(icons, idx, a, b) {
            let (a, b) = choose|a: int, b: int| #[trigger] self.is_best(icons, idx, a, b);
            Some(Point { x: (a * self.cell_w) as i32, y: (b * self.cell_h) as i32 })
        } else {
            None
        }
    }

    /// The icons after the first `n` of them have moved, one by one.
    pub open spec fn avoided(&self, icons: Seq<Point>, n: int) -> Seq<Point>
        decreases n,
    {
        if n <= 0 {
            icons
        } else {
            let before = self.avoided(icons, n - 1);
            match self.refuge(before, n - 1) {
                Some(p) => before.update(n - 1, p),
                None => before,
            }
        }
    }
}

/// Whether an icon at (`x`, `y`) in a cell of `w` and `h` lies under `r`.
pub open spec fn under(r: Area, x: int, y: int, w: int, h: int) -> bool {
    x < r.right && x + w > r.left && y < r.bottom && y + h > r.top
}

/// Whether (`x`, `y`) is within half a cell of `q` both ways.
pub open spec fn near(q: Point, x: int, y: int, w: int, h: int) -> bool {
    let (hw, hh) = (w / 2, h / 2);
    -hw < x - q.x < hw && -hh < y - q.y < hh
}

/// Whether two rectangles share a point inside.
pub fn overlaps(a: &Area, b: &Area) -> (yes: bool)
    ensures
        yes == (a.left < b.right && a.right > b.left && a.top < b.bottom && a.bottom > b.top),
        a.left < a.right && a.top < a.bottom && b.left < b.right && b.top < b.bottom ==> yes
            == exists|px: int, py: int| #[trigger] a.has(px, py) && b.has(px, py),
{
    proof {
        let px: int = if a.left < b.left {
            b.left as int
        } else {
            a.left as int
        };
        let py: int = if a.top < b.top {
            b.top as int
        } else {
            a.top as int
        };
        assert(a.left < b.right && a.right > b.left && a.top < b.bottom && a.bottom > b.top
            && a.left < a.right && a.top < a.bottom && b.left < b.right && b.top < b.bottom
            ==> a.has(px, py) && b.has(px, py));
    }
    a.left < b.right && a.right > b.left && a.top < b.bottom && a.bottom > b.top
}

fn is_blocked(l: &Layout, x: i64, y: i64) -> (yes: bool)
    requires
        -0x1_0000_0000 <= x <= 0x1_0000_0000,
        -0x1_0000_0000 <= y <= 0x1_0000_0000,
    ensures
        yes == l.blocks(x as int, y as int),
{
    for i in 0..l.reserved.len()
        invariant
            -0x1_0000_0000 <= x <= 0x1_0000_0000,
            -0x1_0000_0000 <= y <= 0x1_0000_0000,
            forall|j: int|
                0 <= j < i ==> !under(
                    #[trigger] l.reserved@[j],
                    x as int,
                    y as int,
                    l.cell_w as int,
                    l.cell_h as int,
                ),
    {
        let r = l.reserved[i];
        if x < r.right as i64 && x + l.cell_w as i64 > r.left as i64 && y < r.bottom as i64 && y
            + l.cell_h as i64 > r.top as i64 {
            assert(under(
                l.reserved@[i as int],
                x as int,
                y as int,
                l.cell_w as int,
                l.cell_h as int,
            ));
            return true;
        }
    }
    false
}

fn is_crowded(l: &Layout, icons: &Vec<Point>, skip: usize, x: i64, y: i64) -> (yes: bool)
    requires
        l.wf(),
        -0x1_0000_0000 <= x <= 0x1_0000_0000,
        -0x1_0000_0000 <= y <= 0x1_0000_0000,
    ensures
        yes == l.crowds(icons@, skip as int, x as int, y as int),
{
    let hw: i64 = l.cell_w as i64 / 2;
    let hh: i64 = l.cell_h as i64 / 2;
    for i in 0..icons.len()
        invariant
            l.wf(),
            hw == l.cell_w as int / 2,
            hh == l.cell_h as int / 2,
            -0x1_0000_0000 <= x <= 0x1_0000_0000,
            -0x1_0000_0000 <= y <= 0x1_0000_0000,
            forall|j: int|
                0 <= j < i && j != skip ==> !near(
                    #[trigger] icons@[j],
                    x as int,
                    y as int,
                    l.cell_w as int,
                    l.cell_h as int,
                ),
    {
        let q = icons[i];
        let dx: i64 = x - q.x as i64;
        let dy: i64 = y - q.y as i64;
        if i != skip && -hw < dx && dx < hw && -hh < dy && dy < hh {
            assert(near(
                icons@[i as int],
                x as int,
                y as int,
                l.cell_w as int,
                l.cell_h as int,
            ));
            return true;
        }
    }
    false
}

fn distance_to(l: &Layout, icons: &Vec<Point>, idx: usize, a: i64, b: i64, x: i64, y: i64) -> (d:
    i128)
    requires
        idx < icons@.len(),
        x == a * l.cell_w,
        y == b * l.cell_h,
        0 <= x <= 0x1_0000_0000,
        0 <= y <= 0x1_0000_0000,
    ensures
        d == l.distance(icons@, idx as int, a as int, b as int),
{
    let dx: i128 = x as i128 - icons[idx].x as i128;
    let dy: i128 = y as i128 - icons[idx].y as i128;
    proof {
        assert(0 <= dx * dx <= 0x2_0000_0000 * 0x2_0000_0000) by (nonlinear_arith)
            requires
                -0x2_0000_0000 <= dx <= 0x2_0000_0000,
        ;
        assert(0 <= dy * dy <= 0x2_0000_0000 * 0x2_0000_0000) by (nonlinear_arith)
            requires
                -0x2_0000_0000 <= dy <= 0x2_0000_0000,
        ;
    }
    dx * dx + dy * dy
}

/// Whether the cell in column `c` and row `d` lies before the one in column `a` and row `b`.
spec fn scanned(a: int, b: int, c: int, d: int) -> bool {
    c < a || (c == a && d < b)
}

/// The nearest free cell for icon `idx`, as the column and row of its corner in pixels.
pub fn nearest_free_cell(l: &Layout, icons: &Vec<Point>, idx: usize) -> (best: Option<Point>)
    requires
        l.wf(),
        idx < icons@.len(),
    ensures
        match best {
            Some(p) => exists|a: int, b: int| #[trigger]
                l.is_best(icons@, idx as int, a, b) && p.x == a * l.cell_w && p.y == b * l.cell_h,
            None => forall|a: int, b: int| !#[trigger] l.takes(icons@, idx as int, a, b),
        },
{
    let max_x: i64 = if (l.client.right as i64) < l.cell_w as i64 {
        0
    } else {
        l.client.right as i64 - l.cell_w as i64
    };
    let max_y: i64 = if (l.client.bottom as i64) < l.cell_h as i64 {
        0
    } else {
        l.client.bottom as i64 - l.cell_h as i64
    };
    let ghost i = idx as int;
    let mut found: Option<Point> = None;
    let mut found_at: (i64, i64) = (0, 0);
    let mut best: i128 = 0;
    let mut a: i64 = 0;
    let mut x: i64 = 0;
    while x <= max_x
        invariant
            l.wf(),
            idx < icons@.len(),
            i == idx,
            max_x == l.max_x(),
            max_y == l.max_y(),
            0 <= max_x <= i32::MAX,
            0 <= max_y <= i32::MAX,
            0 <= a <= x,
            x == a * l.cell_w,
            x <= max_x + l.cell_w,
            match found {
                Some(p) => {
                    &&& l.takes(icons@, i, found_at.0 as int, found_at.1 as int)
                    &&& p.x == found_at.0 * l.cell_w && p.y == found_at.1 * l.cell_h
                    &&& best == l.distance(icons@, i, found_at.0 as int, found_at.1 as int)
                    &&& found_at.0 < a
                    &&& forall|c: int, d: int|
                        #![trigger l.takes(icons@, i, c, d)]
                        c < a && l.takes(icons@, i, c, d) ==> l.no_worse(
                            icons@,
                            i,
                            found_at.0 as int,
                            found_at.1 as int,
                            c,
                            d,
                        )
                },
                None => forall|c: int, d: int|
                    #![trigger l.takes(icons@, i, c, d)]
                    c < a ==> !l.takes(icons@, i, c, d),
            },
        decreases max_x + l.cell_w + 1 - x,
    {
        let mut b: i64 = 0;
        let mut y: i64 = 0;
        while y <= max_y
            invariant
                l.wf(),
                idx < icons@.len(),
                i == idx,
                max_x == l.max_x(),
                max_y == l.max_y(),
                0 <= max_x <= i32::MAX,
                0 <= max_y <= i32::MAX,
                0 <= a <= x <= max_x,
                x == a * l.cell_w,
                0 <= b <= y,
                y == b * l.cell_h,
                y <= max_y + l.cell_h,
                match found {
                    Some(p) => {
                        &&& l.takes(icons@, i, found_at.0 as int, found_at.1 as int)
                        &&& p.x == found_at.0 * l.cell_w && p.y == found_at.1 * l.cell_h
                        &&& best == l.distance(icons@, i, found_at.0 as int, found_at.1 as int)
                        &&& scanned(a as int, b as int, found_at.0 as int, found_at.1 as int)
                        &&& forall|c: int, d: int|
                            #![trigger l.takes(icons@, i, c, d)]
                            scanned(a as int, b as int, c, d) && l.takes(icons@, i, c, d)
                                ==> l.no_worse(
                                icons@,
                                i,
                                found_at.0 as int,
                                found_at.1 as int,
                                c,
                                d,
                            )
                    },
                    None => forall|c: int, d: int|
                        #![trigger l.takes(icons@, i, c, d)]
                        scanned(a as int, b as int, c, d) ==> !l.takes(icons@, i, c, d),
                },
            decreases max_y + l.cell_h + 1 - y,
        {
            let free: bool = !is_blocked(l, x, y) && !is_crowded(l, icons, idx, x, y);
            assert(free == l.takes(icons@, i, a as int, b as int));
            if free {
                let d2: i128 = distance_to(l, icons, idx, a, b, x, y);
                let better: bool = match found {
                    Some(_) => d2 < best,
                    None => true,
                };
                if better {
                    found = Some(Point { x: x as i32, y: y as i32 });
                    found_at = (a, b);
                    best = d2;
                }
            }
            proof {
                assert((b + 1) * l.cell_h == b * l.cell_h + l.cell_h) by (nonlinear_arith);
                assert forall|c: int, d: int|
                    scanned(a as int, b + 1, c, d) implies scanned(a as int, b as int, c, d) || (c
                    == a && d == b) by {}
            }
            b += 1;
            y += l.cell_h as i64;
        }
        proof {
            assert((a + 1) * l.cell_w == a * l.cell_w + l.cell_w) by (nonlinear_arith);
            assert forall|c: int, d: int|
                #![trigger l.takes(icons@, i, c, d)]
                c < a + 1 && l.takes(icons@, i, c, d) implies scanned(a as int, b as int, c, d) by {
                if c == a && d >= b {
                    assert(d * l.cell_h >= b * l.cell_h) by (nonlinear_arith)
                        requires
                            d >= b,
                            l.cell_h > 0,
                    ;
                }
            }
        }
        a += 1;
        x += l.cell_w as i64;
    }
    proof {
        assert forall|c: int, d: int| #[trigger] l.takes(icons@, i, c, d) implies c < a by {
            if c >= a {
                assert(c * l.cell_w >= a * l.cell_w) by (nonlinear_arith)
                    requires
                        c >= a,
                        l.cell_w > 0,
                ;
            }
        }
        if found is Some {
            assert(l.is_best(icons@, i, found_at.0 as int, found_at.1 as int));
        }
    }
    found
}

proof fn the_best_cell_is_one(l: &Layout, icons: Seq<Point>, idx: int, a: int, b: int, c: int, d: int)
    requires
        l.is_best(icons, idx, a, b),
        l.is_best(icons, idx, c, d),
    ensures
        a == c,
        b == d,
{
    assert(l.takes(icons, idx, a, b) && l.takes(icons, idx, c, d));
}

/// One icon that moves.
#[derive(Clone, Copy, Debug, PartialEq, Eq, Structural)]
pub struct IconMove {
    pub index: usize,
    pub from: Point,
    pub to: Point,
}

/// Whether `moves` are the moves that lead from `icons` to where they have all made room.
pub open spec fn are_moves(l: &Layout, icons: Seq<Point>, moves: Seq<IconMove>) -> bool {
    &&& forall|k: int|
        0 <= k < moves.len() ==> {
            let mv = #[trigger] moves[k];
            &&& mv.index < icons.len()
            &&& mv.from == l.avoided(icons, mv.index as int)[mv.index as int]
            &&& Some(mv.to) == l.refuge(l.avoided(icons, mv.index as int), mv.index as int)
        }
    &&& forall|j: int, k: int|
        0 <= j < k < moves.len() ==> (#[trigger] moves[j]).index < (#[trigger] moves[k]).index
    &&& forall|i: int|
        0 <= i < icons.len() && l.refuge(#[trigger] l.avoided(icons, i), i) is Some ==> exists|
            k: int,
        |
            0 <= k < moves.len() && (#[trigger] moves[k]).index == i
}

/// Moves each icon that lies under a fence to the nearest cell that is free at that moment; the
/// moves come back in order.
pub fn reserve(l: &Layout, icons: &mut Vec<Point>) -> (moves: Vec<IconMove>)
    requires
        l.wf(),
    ensures
        final(icons)@ == l.avoided(old(icons)@, old(icons)@.len() as int),
        are_moves(l, old(icons)@, moves@),
{
    let ghost start = icons@;
    let n: usize = icons.len();
    let mut moves: Vec<IconMove> = Vec::new();
    for idx in 0..n
        invariant
            l.wf(),
            n == start.len(),
            icons@.len() == n,
            icons@ == l.avoided(start, idx as int),
            forall|k: int|
                0 <= k < moves@.len() ==> {
                    let mv = #[trigger] moves@[k];
                    &&& mv.index < idx
                    &&& mv.from == l.avoided(start, mv.index as int)[mv.index as int]
                    &&& Some(mv.to) == l.refuge(l.avoided(start, mv.index as int), mv.index as int)
                },
            forall|j: int, k: int|
                0 <= j < k < moves@.len() ==> (#[trigger] moves@[j]).index < (
                #[trigger] moves@[k]).index,
            forall|i: int|
                0 <= i < idx && l.refuge(#[trigger] l.avoided(start, i), i) is Some ==> exists|
                    k: int,
                |
                    0 <= k < moves@.len() && (#[trigger] moves@[k]).index == i,
    {
        let ghost now = icons@;
        let ghost before_moves = moves@;
        if is_blocked(l, icons[idx].x as i64, icons[idx].y as i64) {
            match nearest_free_cell(l, icons, idx) {
                Some(p) => {
                    proof {
                        let (a, b) = choose|a: int, b: int| #[trigger]
                            l.is_best(now, idx as int, a, b) && p.x == a * l.cell_w && p.y == b
                                * l.cell_h;
                        let (c, d) = choose|c: int, d: int| #[trigger]
                            l.is_best(now, idx as int, c, d);
                        the_best_cell_is_one(l, now, idx as int, a, b, c, d);
                        assert(l.refuge(now, idx as int) == Some(p));
                    }
                    moves.push(IconMove { index: idx, from: icons[idx], to: p });
                    icons.set(idx, p);
                    assert(moves@[moves@.len() - 1].index == idx);
                },
                None => {
                    assert(l.refuge(now, idx as int) is None) by {
                        if exists|a: int, b: int| #[trigger] l.is_best(now, idx as int, a, b) {
                            let (a, b) = choose|a: int, b: int| #[trigger]
                                l.is_best(now, idx as int, a, b);
                            assert(l.takes(now, idx as int, a, b));
                        }
                    }
                },
            }
        }
        assert forall|i: int|
            0 <= i < idx + 1 && l.refuge(#[trigger] l.avoided(start, i), i) is Some implies exists|
                k: int,
            |
            0 <= k < moves@.len() && (#[trigger] moves@[k]).index == i by {
            if i < idx {
                let k = choose|k: int|
                    0 <= k < before_moves.len() && (#[trigger] before_moves[k]).index == i;
                assert(moves@[k] == before_moves[k]);
            }
        }
    }
    moves
}

proof fn avoided_len(l: &Layout, icons: Seq<Point>, n: int)
    requires
        n <= icons.len(),
    ensures
        l.avoided(icons, n).len() == icons.len(),
        forall|i: int| n <= i < icons.len() ==> l.avoided(icons, n)[i] == icons[i],
    decreases n,
{
    if n > 0 {
        avoided_len(l, icons, n - 1);
    }
}

/// Where a cell can take an icon, one of those that can is the best.
proof fn some_cell_is_best(l: &Layout, icons: Seq<Point>, idx: int, a: int, b: int)
    requires
        l.takes(icons, idx, a, b),
    ensures
        exists|c: int, d: int| #[trigger] l.is_best(icons, idx, c, d),
    decreases l.distance(icons, idx, a, b), a, b,
{
    if !l.is_best(icons, idx, a, b) {
        let (c, d) = choose|c: int, d: int| #[trigger]
            l.takes(icons, idx, c, d) && !l.no_worse(icons, idx, a, b, c, d);
        let dx = c * l.cell_w - icons[idx].x;
        let dy = d * l.cell_h - icons[idx].y;
        assert(0 <= dx * dx + dy * dy) by (nonlinear_arith);
        some_cell_is_best(l, icons, idx, c, d);
    }
}

/// An icon moves only where it lies under a fence. It moves to a cell that no fence covers, where no
/// other icon stands at that moment, and no free cell is nearer; it stays only where no cell is free.
pub proof fn icons_move_only_out_from_under(l: &Layout, icons: Seq<Point>, idx: int)
    requires
        l.wf(),
        0 <= idx < icons.len(),
    ensures
        ({
            let before = l.avoided(icons, idx);
            let after = l.avoided(icons, idx + 1);
            let p = after[idx];
            &&& before[idx] == icons[idx]
            &&& forall|j: int| 0 <= j < icons.len() && j != idx ==> after[j] == before[j]
            &&& !l.blocks(icons[idx].x as int, icons[idx].y as int) ==> after == before
            &&& forall|a: int, b: int| #[trigger]
                l.takes(before, idx, a, b) ==> !l.blocks(p.x as int, p.y as int)
            &&& after != before ==> {
                &&& !l.blocks(p.x as int, p.y as int)
                &&& !l.crowds(before, idx, p.x as int, p.y as int)
                &&& forall|a: int, b: int| #[trigger]
                    l.takes(before, idx, a, b) ==> (p.x - icons[idx].x) * (p.x - icons[idx].x) + (
                    p.y - icons[idx].y) * (p.y - icons[idx].y) <= l.distance(before, idx, a, b)
            }
        }),
{
    avoided_len(l, icons, idx);
    let before = l.avoided(icons, idx);
    assert forall|a: int, b: int| #[trigger] l.takes(before, idx, a, b) implies exists|
        c: int,
        d: int,
    | #[trigger] l.is_best(before, idx, c, d) by {
        some_cell_is_best(l, before, idx, a, b);
    }
    if l.refuge(before, idx) is Some {
        let (a, b) = choose|a: int, b: int| #[trigger] l.is_best(before, idx, a, b);
        let x = a * l.cell_w;
        let y = b * l.cell_h;
        assert(0 <= x && 0 <= y) by (nonlinear_arith)
            requires
                a >= 0,
                b >= 0,
                l.cell_w > 0,
                l.cell_h > 0,
                x == a * l.cell_w,
                y == b * l.cell_h,
        ;
        assert(x <= l.max_x() && y <= l.max_y());
        let p = l.refuge(before, idx)->0;
        assert(p.x == x && p.y == y);
        assert forall|c: int, d: int| #[trigger] l.takes(before, idx, c, d) implies (p.x
            - icons[idx].x) * (p.x - icons[idx].x) + (p.y - icons[idx].y) * (p.y - icons[idx].y)
            <= l.distance(before, idx, c, d) by {
            assert(l.no_worse(before, idx, a, b, c, d));
        }
    }
}

/// The icons after the first `n` of `moves`.
pub open spec fn moved(icons: Seq<Point>, moves: Seq<IconMove>, n: int) -> Seq<Point>
    decreases n,
{
    if n <= 0 {
        icons
    } else {
        moved(icons, moves, n - 1).update(moves[n - 1].index as int, moves[n - 1].to)
    }
}

/// Whether the icon cell at (`x`, `y`) has a pixel that a fence covers.
pub open spec fn is_covered(l: &Layout, x: int, y: int) -> bool {
    exists|r: int, px: int, py: int|
        #![trigger l.reserved@[r], has_pixel(x, y, l.cell_w as int, l.cell_h as int, px, py)]
        0 <= r < l.reserved@.len() && has_pixel(x, y, l.cell_w as int, l.cell_h as int, px, py)
            && l.reserved@[r].left <= px < l.reserved@[r].right && l.reserved@[r].top <= py
            < l.reserved@[r].bottom
}

/// Whether (`x`, `y`) is at least half a cell, less what halving leaves over, from `q` across or down.
pub open spec fn keeps_off(l: &Layout, x: int, y: int, q: Point) -> bool {
    2 * (x - q.x) >= l.cell_w - 1 || 2 * (q.x - x) >= l.cell_w - 1 || 2 * (y - q.y) >= l.cell_h - 1
        || 2 * (q.y - y) >= l.cell_h - 1
}

/// Whether icon `i` of `icons` can stand at (`x`, `y`): on the grid, in the desktop's window or in its
/// first column or row, with no pixel under a fence, and off all other icons.
pub open spec fn can_stand(l: &Layout, icons: Seq<Point>, i: int, x: int, y: int) -> bool {
    &&& x >= 0 && x % l.cell_w as int == 0 && (x == 0 || x + l.cell_w <= l.client.right)
    &&& y >= 0 && y % l.cell_h as int == 0 && (y == 0 || y + l.cell_h <= l.client.bottom)
    &&& !is_covered(l, x, y)
    &&& forall|q: int|
        0 <= q < icons.len() && q != i ==> keeps_off(l, x, y, #[trigger] icons[q])
}

/// Whether no fence's area is empty.
pub open spec fn areas_have_pixels(l: &Layout) -> bool {
    forall|r: int|
        0 <= r < l.reserved@.len() ==> (#[trigger] l.reserved@[r]).left < l.reserved@[r].right
            && l.reserved@[r].top < l.reserved@[r].bottom
}

proof fn pixels_tell_blocks(l: &Layout, x: int, y: int)
    requires
        l.wf(),
        areas_have_pixels(l),
    ensures
        is_covered(l, x, y) == l.blocks(x, y),
{
    let (w, h) = (l.cell_w as int, l.cell_h as int);
    if l.blocks(x, y) {
        let r = choose|r: int|
            0 <= r < l.reserved@.len() && under(#[trigger] l.reserved@[r], x, y, w, h);
        let s = l.reserved@[r];
        let px = if x < s.left {
            s.left as int
        } else {
            x
        };
        let py = if y < s.top {
            s.top as int
        } else {
            y
        };
        assert(has_pixel(x, y, w, h, px, py));
        assert(l.reserved@[r].left <= px < l.reserved@[r].right);
    }
    if is_covered(l, x, y) {
        let (r, px, py) = choose|r: int, px: int, py: int|
            #![trigger l.reserved@[r], has_pixel(x, y, l.cell_w as int, l.cell_h as int, px, py)]
            0 <= r < l.reserved@.len() && has_pixel(
                x,
                y,
                l.cell_w as int,
                l.cell_h as int,
                px,
                py,
            ) && l.reserved@[r].left <= px < l.reserved@[r].right && l.reserved@[r].top <= py
                < l.reserved@[r].bottom;
        assert(under(l.reserved@[r], x, y, w, h));
    }
}

proof fn a_cell_takes_where_one_can_stand(
    l: &Layout,
    icons: Seq<Point>,
    i: int,
    a: int,
    b: int,
)
    requires
        l.wf(),
        areas_have_pixels(l),
    ensures
        can_stand(l, icons, i, a * l.cell_w, b * l.cell_h) == l.takes(icons, i, a, b),
{
    let (w, h) = (l.cell_w as int, l.cell_h as int);
    let (x, y) = (a * w, b * h);
    pixels_tell_blocks(l, x, y);
    assert(x % w == 0) by {
        vstd::arithmetic::div_mod::lemma_mod_multiples_basic(a, w);
    }
    assert(y % h == 0) by {
        vstd::arithmetic::div_mod::lemma_mod_multiples_basic(b, h);
    }
    assert((x >= 0) == (a >= 0)) by (nonlinear_arith)
        requires
            x == a * w,
            w > 0,
    ;
    assert((y >= 0) == (b >= 0)) by (nonlinear_arith)
        requires
            y == b * h,
            h > 0,
    ;
    assert forall|q: int| 0 <= q < icons.len() && q != i implies keeps_off(
        l,
        x,
        y,
        #[trigger] icons[q],
    ) == !near(icons[q], x, y, w, h) by {}
    if l.crowds(icons, i, x, y) {
        let q = choose|q: int|
            0 <= q < icons.len() && q != i && near(#[trigger] icons[q], x, y, w, h);
        assert(!keeps_off(l, x, y, icons[q]));
    }
}

proof fn a_grid_place_is_a_cell(l: &Layout, x: int, y: int) -> (cell: (int, int))
    requires
        l.wf(),
        x % l.cell_w as int == 0,
        y % l.cell_h as int == 0,
    ensures
        x == cell.0 * l.cell_w,
        y == cell.1 * l.cell_h,
{
    let (w, h) = (l.cell_w as int, l.cell_h as int);
    vstd::arithmetic::div_mod::lemma_fundamental_div_mod(x, w);
    vstd::arithmetic::div_mod::lemma_fundamental_div_mod(y, h);
    assert(w * (x / w) == (x / w) * w) by (nonlinear_arith);
    assert(h * (y / h) == (y / h) * h) by (nonlinear_arith);
    (x / w, y / h)
}

proof fn moves_lead_there(l: &Layout, icons: Seq<Point>, moves: Seq<IconMove>, n: int, k: int)
    requires
        are_moves(l, icons, moves),
        0 <= n <= icons.len(),
        0 <= k <= moves.len(),
        forall|j: int| 0 <= j < k ==> (#[trigger] moves[j]).index < n,
        forall|j: int| k <= j < moves.len() ==> (#[trigger] moves[j]).index >= n,
    ensures
        l.avoided(icons, n) == moved(icons, moves, k),
    decreases n,
{
    if n == 0 {
        if k > 0 {
            assert(moves[0].index < 0);
        }
    } else {
        let before = l.avoided(icons, n - 1);
        if l.refuge(before, n - 1) is Some {
            let kk = choose|kk: int|
                0 <= kk < moves.len() && (#[trigger] moves[kk]).index == n - 1;
            assert(kk < k);
            if kk < k - 1 {
                assert(moves[kk].index < moves[k - 1].index);
            }
            assert(kk == k - 1);
            assert forall|j: int| 0 <= j < k - 1 implies (#[trigger] moves[j]).index < n - 1 by {
                assert(moves[j].index < moves[k - 1].index);
            }
            moves_lead_there(l, icons, moves, n - 1, k - 1);
        } else {
            assert forall|j: int| 0 <= j < moves.len() implies (#[trigger] moves[j]).index != n
                - 1 by {}
            moves_lead_there(l, icons, moves, n - 1, k);
        }
    }
}

proof fn moved_only_by_its_moves(
    icons: Seq<Point>,
    moves: Seq<IconMove>,
    k: int,
    n: int,
    i: int,
)
    requires
        0 <= k <= n <= moves.len(),
        0 <= i < icons.len(),
        forall|j: int| 0 <= j < moves.len() ==> (#[trigger] moves[j]).index < icons.len(),
        forall|j: int| k <= j < n ==> (#[trigger] moves[j]).index != i,
    ensures
        moved(icons, moves, n).len() == icons.len(),
        moved(icons, moves, n)[i] == moved(icons, moves, k)[i],
    decreases n,
{
    if n > 0 {
        moved_only_by_its_moves(icons, moves, if k < n {
            k
        } else {
            n - 1
        }, n - 1, i);
    }
}

/// Each move takes an icon from where it stood, with a pixel under a fence, to where it can stand among
/// the icons as they are at that moment. Of all such places none is nearer; of equally near ones it is
/// the leftmost, of those the uppermost.
pub proof fn a_moved_icon_stands_free(
    l: &Layout,
    icons: Seq<Point>,
    moves: Seq<IconMove>,
    k: int,
    x: int,
    y: int,
)
    requires
        l.wf(),
        areas_have_pixels(l),
        are_moves(l, icons, moves),
        0 <= k < moves.len(),
    ensures
        ({
            let mv = moves[k];
            let i = mv.index as int;
            let now = moved(icons, moves, k);
            let (dx, dy) = (mv.to.x - mv.from.x, mv.to.y - mv.from.y);
            let (ex, ey) = (x - mv.from.x, y - mv.from.y);
            &&& 0 <= i < icons.len()
            &&& mv.from == icons[i]
            &&& mv.from == now[i]
            &&& is_covered(l, mv.from.x as int, mv.from.y as int)
            &&& can_stand(l, now, i, mv.to.x as int, mv.to.y as int)
            &&& can_stand(l, now, i, x, y) ==> dx * dx + dy * dy < ex * ex + ey * ey || (dx * dx
                + dy * dy == ex * ex + ey * ey && (mv.to.x < x || (mv.to.x == x && mv.to.y <= y)))
        }),
{
    let mv = moves[k];
    let i = mv.index as int;
    assert forall|j: int| 0 <= j < k implies (#[trigger] moves[j]).index < i by {
        assert(moves[j].index < moves[k].index);
    }
    assert forall|j: int| k <= j < moves.len() implies (#[trigger] moves[j]).index >= i by {
        if j > k {
            assert(moves[k].index < moves[j].index);
        }
    }
    moves_lead_there(l, icons, moves, i, k);
    avoided_len(l, icons, i);
    let now = l.avoided(icons, i);
    pixels_tell_blocks(l, mv.from.x as int, mv.from.y as int);
    let (a, b) = choose|a: int, b: int| #[trigger] l.is_best(now, i, a, b);
    let (w, h) = (l.cell_w as int, l.cell_h as int);
    assert(0 <= a * w && 0 <= b * h) by (nonlinear_arith)
        requires
            a >= 0,
            b >= 0,
            w > 0,
            h > 0,
    ;
    assert(a * w <= l.max_x() && b * h <= l.max_y());
    assert(mv.to.x == a * w && mv.to.y == b * h);
    a_cell_takes_where_one_can_stand(l, now, i, a, b);
    if can_stand(l, now, i, x, y) {
        let (c, d) = a_grid_place_is_a_cell(l, x, y);
        a_cell_takes_where_one_can_stand(l, now, i, c, d);
        assert(l.no_worse(now, i, a, b, c, d));
        assert(a < c ==> a * w < c * w) by (nonlinear_arith)
            requires
                w > 0,
        ;
        assert(b <= d ==> b * h <= d * h) by (nonlinear_arith)
            requires
                h > 0,
        ;
    }
}

/// An icon that lies under a fence and does not move had no place to stand when its turn came, which
/// is after the `k` moves of the icons before it.
pub proof fn an_icon_stays_only_where_it_must(
    l: &Layout,
    icons: Seq<Point>,
    moves: Seq<IconMove>,
    i: int,
    k: int,
    x: int,
    y: int,
)
    requires
        l.wf(),
        areas_have_pixels(l),
        are_moves(l, icons, moves),
        0 <= i < icons.len(),
        0 <= k <= moves.len(),
        forall|j: int| 0 <= j < k ==> (#[trigger] moves[j]).index < i,
        forall|j: int| k <= j < moves.len() ==> (#[trigger] moves[j]).index > i,
        is_covered(l, icons[i].x as int, icons[i].y as int),
    ensures
        !can_stand(l, moved(icons, moves, k), i, x, y),
{
    moves_lead_there(l, icons, moves, i, k);
    avoided_len(l, icons, i);
    let now = l.avoided(icons, i);
    pixels_tell_blocks(l, icons[i].x as int, icons[i].y as int);
    if can_stand(l, now, i, x, y) {
        let (c, d) = a_grid_place_is_a_cell(l, x, y);
        a_cell_takes_where_one_can_stand(l, now, i, c, d);
        some_cell_is_best(l, now, i, c, d);
        assert(l.refuge(now, i) is Some);
        let kk = choose|kk: int| 0 <= kk < moves.len() && (#[trigger] moves[kk]).index == i;
        assert(kk < k || k <= kk);
    }
}

/// When all moves are made the icons are where the moves took them, no icon that moved has a pixel
/// under a fence, and none is nearer than half a cell, across and down, to any other icon `q`.
pub proof fn moved_icons_end_apart(
    l: &Layout,
    icons: Seq<Point>,
    moves: Seq<IconMove>,
    k: int,
    q: int,
)
    requires
        l.wf(),
        areas_have_pixels(l),
        are_moves(l, icons, moves),
        0 <= k < moves.len(),
        0 <= q < icons.len(),
        q != moves[k].index,
    ensures
        ({
            let after = l.avoided(icons, icons.len() as int);
            let p = after[moves[k].index as int];
            &&& after == moved(icons, moves, moves.len() as int)
            &&& p == moves[k].to
            &&& !is_covered(l, p.x as int, p.y as int)
            &&& keeps_off(l, p.x as int, p.y as int, after[q])
        }),
{
    let n = moves.len() as int;
    let i = moves[k].index as int;
    moves_lead_there(l, icons, moves, icons.len() as int, n);
    assert forall|j: int| k + 1 <= j < n implies (#[trigger] moves[j]).index != i by {
        assert(moves[k].index < moves[j].index);
    }
    moved_only_by_its_moves(icons, moves, k + 1, n, i);
    moved_only_by_its_moves(icons, moves, k, k, i);
    assert(moved(icons, moves, k + 1)[i] == moves[k].to);
    a_moved_icon_stands_free(l, icons, moves, k, 0, 0);
    if exists|j: int| k < j < n && (#[trigger] moves[j]).index == q {
        let j = choose|j: int| k < j < n && (#[trigger] moves[j]).index == q;
        a_moved_icon_stands_free(l, icons, moves, j, 0, 0);
        assert forall|s: int| j + 1 <= s < n implies (#[trigger] moves[s]).index != q by {
            assert(moves[j].index < moves[s].index);
        }
        moved_only_by_its_moves(icons, moves, j + 1, n, q);
        moved_only_by_its_moves(icons, moves, j, j, q);
        assert(moved(icons, moves, j + 1)[q] == moves[j].to);
        moved_only_by_its_moves(icons, moves, k + 1, j, i);
        let now = moved(icons, moves, j);
        assert(keeps_off(l, moves[j].to.x as int, moves[j].to.y as int, now[i]));
    } else {
        moved_only_by_its_moves(icons, moves, k, n, q);
        let now = moved(icons, moves, k);
        moved_only_by_its_moves(icons, moves, k, k, q);
        assert(keeps_off(l, moves[k].to.x as int, moves[k].to.y as int, now[q]));
    }
}

/// The cell of the desktop's icons, out of the packed spacing that its window tells: 48 pixels at
/// least both ways.
pub open spec fn cell_of(packed: u32) -> (i32, i32) {
    let w = (packed % 0x1_0000) as i32;
    let h = (packed / 0x1_0000) as i32;
    (if w < 48 {
        48
    } else {
        w
    }, if h < 48 {
        48
    } else {
        h
    })
}

/// A spacing of `w` across and `h` down is the cell, but for the least of 48 pixels.
pub proof fn a_spacing_is_the_cell(w: int, h: int)
    requires
        0 <= w < 0x1_0000,
        0 <= h < 0x1_0000,
    ensures
        ({
            let cell = cell_of((h * 0x1_0000 + w) as u32);
            &&& cell.0 >= 48 && cell.0 >= w && (cell.0 == 48 || cell.0 == w)
            &&& cell.1 >= 48 && cell.1 >= h && (cell.1 == 48 || cell.1 == h)
        }),
{
    let packed = (h * 0x1_0000 + w) as u32;
    assert(packed as int % 0x1_0000 == w && packed as int / 0x1_0000 == h);
}

/// See [`cell_of`].
pub fn icon_cell(packed: u32) -> (cell: (i32, i32))
    ensures
        cell == cell_of(packed),
{
    let w: i32 = (packed % 0x1_0000) as i32;
    let h: i32 = (packed / 0x1_0000) as i32;
    (if w < 48 {
        48
    } else {
        w
    }, if h < 48 {
        48
    } else {
        h
    })
}

/// A place as the desktop's window takes it: the low halves of its coordinates, packed.
pub fn packed_position(p: Point) -> (packed: u32)
    ensures
        packed == (p.y as int % 0x1_0000) * 0x1_0000 + p.x as int % 0x1_0000,
        0 <= p.x < 0x1_0000 ==> packed % 0x1_0000 == p.x,
        0 <= p.y < 0x1_0000 ==> packed / 0x1_0000 == p.y,
        -0x1_0000 <= p.x < 0 ==> packed % 0x1_0000 == p.x + 0x1_0000,
        -0x1_0000 <= p.y < 0 ==> packed / 0x1_0000 == p.y + 0x1_0000,
{
    let x: i64 = (p.x as i64 + 0x8000_0000) % 0x1_0000;
    let y: i64 = (p.y as i64 + 0x8000_0000) % 0x1_0000;
    (y * 0x1_0000 + x) as u32
}

/// An icon that was moved, where from, and when (in seconds).
#[derive(Clone, Copy, Debug, PartialEq, Eq, Structural)]
pub struct MovedIcon {
    pub index: u32,
    pub from: Point,
    pub at: u64,
}

/// A fence as it was before it was moved or resized, and when that was (in seconds).
pub struct MovedFence {
    pub cfg: FenceCfg,
    pub at: u64,
}

/// Whether what happened at `at` can still be undone at `now`.
pub open spec fn is_fresh(at: u64, now: u64) -> bool {
    now < at + ROLLBACK_TTL_SECS
}

fn fresh(at: u64, now: u64) -> (yes: bool)
    ensures
        yes == is_fresh(at, now),
{
    let age: u64 = if now > at {
        now - at
    } else {
        0
    };
    age < ROLLBACK_TTL_SECS
}

/// What can be undone: the icons and fences that were moved while icons made room, and whether
/// Explorer arranged icons by itself before that.
pub struct History {
    pub icons: Vec<MovedIcon>,
    pub fences: Vec<MovedFence>,
    pub autoarrange_was_on: bool,
}

/// The fences of `s` that can still be put back at `now`.
pub open spec fn fresh_fences(s: Seq<MovedFence>, now: u64) -> Seq<MovedFence> {
    s.filter(|m: MovedFence| is_fresh(m.at, now))
}

/// The icons of `s` that can still be put back at `now`.
pub open spec fn fresh_icons(s: Seq<MovedIcon>, now: u64) -> Seq<MovedIcon> {
    s.filter(|m: MovedIcon| is_fresh(m.at, now))
}

/// Whether fence `id` is in `s`.
pub open spec fn has_fence(s: Seq<MovedFence>, id: u32) -> bool {
    exists|i: int| 0 <= i < s.len() && (#[trigger] s[i]).cfg.id == id
}

/// Whether icon `index` is in `s`.
pub open spec fn has_icon(s: Seq<MovedIcon>, index: u32) -> bool {
    exists|i: int| 0 <= i < s.len() && (#[trigger] s[i]).index == index
}

/// What is remembered of fences in `s` once `m` was about to be moved too.
pub open spec fn fence_recorded(s: Seq<MovedFence>, m: MovedFence) -> Seq<MovedFence> {
    let kept = fresh_fences(s, m.at);
    if has_fence(kept, m.cfg.id) {
        kept
    } else {
        kept.push(m)
    }
}

/// What is remembered of icons in `s` once `m` was moved too.
pub open spec fn icon_recorded(s: Seq<MovedIcon>, m: MovedIcon) -> Seq<MovedIcon> {
    let kept = fresh_icons(s, m.at);
    if has_icon(kept, m.index) {
        kept
    } else {
        kept.push(m)
    }
}

fn forget_old_fences(fences: &mut Vec<MovedFence>, now: u64)
    ensures
        final(fences)@ == fresh_fences(old(fences)@, now),
{
    let ghost all = fences@;
    let ghost p = |m: MovedFence| is_fresh(m.at, now);
    let ghost mut k: int = 0;
    let mut i: usize = 0;
    assert(all.take(0).filter(p) =~= Seq::empty());
    assert(all.skip(0) =~= all);
    assert(fences@ =~= all.take(0).filter(p) + all.skip(0));
    while i < fences.len()
        invariant
            p == (|m: MovedFence| is_fresh(m.at, now)),
            0 <= k <= all.len(),
            i == all.take(k).filter(p).len(),
            fences@ == all.take(k).filter(p) + all.skip(k),
        decreases all.len() - k,
    {
        proof {
            assert(fences@[i as int] == all.skip(k)[0]);
            assert(all.take(k + 1).drop_last() =~= all.take(k));
            assert(all.take(k + 1).last() == all[k]);
            reveal(Seq::filter);
        }
        let ghost kept = all.take(k).filter(p);
        if fresh(fences[i].at, now) {
            assert(all.take(k + 1).filter(p) =~= kept.push(all[k]));
            assert(fences@ =~= all.take(k + 1).filter(p) + all.skip(k + 1));
            i += 1;
        } else {
            fences.remove(i);
            assert(all.take(k + 1).filter(p) =~= kept);
            assert(fences@ =~= all.take(k + 1).filter(p) + all.skip(k + 1));
        }
        proof {
            k = k + 1;
        }
    }
    proof {
        assert(all.take(k).filter(p).len() + all.skip(k).len() == fences@.len());
        assert(k == all.len());
        assert(all.take(k) =~= all);
        assert(fences@ =~= all.filter(p));
    }
}

fn forget_old_icons(icons: &mut Vec<MovedIcon>, now: u64)
    ensures
        final(icons)@ == fresh_icons(old(icons)@, now),
{
    let ghost all = icons@;
    let ghost p = |m: MovedIcon| is_fresh(m.at, now);
    let ghost mut k: int = 0;
    let mut i: usize = 0;
    assert(all.take(0).filter(p) =~= Seq::empty());
    assert(all.skip(0) =~= all);
    assert(icons@ =~= all.take(0).filter(p) + all.skip(0));
    while i < icons.len()
        invariant
            p == (|m: MovedIcon| is_fresh(m.at, now)),
            0 <= k <= all.len(),
            i == all.take(k).filter(p).len(),
            icons@ == all.take(k).filter(p) + all.skip(k),
        decreases all.len() - k,
    {
        proof {
            assert(icons@[i as int] == all.skip(k)[0]);
            assert(all.take(k + 1).drop_last() =~= all.take(k));
            assert(all.take(k + 1).last() == all[k]);
            reveal(Seq::filter);
        }
        let ghost kept = all.take(k).filter(p);
        if fresh(icons[i].at, now) {
            assert(all.take(k + 1).filter(p) =~= kept.push(all[k]));
            assert(icons@ =~= all.take(k + 1).filter(p) + all.skip(k + 1));
            i += 1;
        } else {
            icons.remove(i);
            assert(all.take(k + 1).filter(p) =~= kept);
            assert(icons@ =~= all.take(k + 1).filter(p) + all.skip(k + 1));
        }
        proof {
            k = k + 1;
        }
    }
    proof {
        assert(all.take(k).filter(p).len() + all.skip(k).len() == icons@.len());
        assert(k == all.len());
        assert(all.take(k) =~= all);
        assert(icons@ =~= all.filter(p));
    }
}

impl History {
    /// Nothing to undo.
    pub fn new() -> (h: History)
        ensures
            h.icons@.len() == 0,
            h.fences@.len() == 0,
            !h.autoarrange_was_on,
    {
        History { icons: Vec::new(), fences: Vec::new(), autoarrange_was_on: false }
    }
}

/// Remembers a fence as it stands, before it is moved or resized; once for each fence, for as
/// long as that can be undone. What can no longer be undone is forgotten.
pub fn record_fence(h: &mut History, cfg: &FenceCfg, now: u64)
    ensures
        final(h).fences@ == fence_recorded(old(h).fences@, MovedFence { cfg: *cfg, at: now }),
        final(h).icons == old(h).icons,
        final(h).autoarrange_was_on == old(h).autoarrange_was_on,
{
    forget_old_fences(&mut h.fences, now);
    for i in 0..h.fences.len()
        invariant
            h.fences@ == fresh_fences(old(h).fences@, now),
            h.icons == old(h).icons,
            h.autoarrange_was_on == old(h).autoarrange_was_on,
            forall|j: int| 0 <= j < i ==> (#[trigger] h.fences@[j]).cfg.id != cfg.id,
    {
        if h.fences[i].cfg.id == cfg.id {
            assert(has_fence(h.fences@, cfg.id));
            return ;
        }
    }
    h.fences.push(MovedFence { cfg: cfg.copied(), at: now });
}

/// Remembers where icon `index` stood before it was moved; once for each icon, for as long as
/// that can be undone. What can no longer be undone is forgotten.
pub fn record_icon(h: &mut History, index: u32, from: Point, now: u64)
    ensures
        final(h).icons@ == icon_recorded(old(h).icons@, MovedIcon { index, from, at: now }),
        final(h).fences == old(h).fences,
        final(h).autoarrange_was_on == old(h).autoarrange_was_on,
{
    forget_old_icons(&mut h.icons, now);
    for i in 0..h.icons.len()
        invariant
            h.icons@ == fresh_icons(old(h).icons@, now),
            h.fences == old(h).fences,
            h.autoarrange_was_on == old(h).autoarrange_was_on,
            forall|j: int| 0 <= j < i ==> (#[trigger] h.icons@[j]).index != index,
    {
        if h.icons[i].index == index {
            assert(has_icon(h.icons@, index));
            return ;
        }
    }
    h.icons.push(MovedIcon { index, from, at: now });
}

/// The icons to put back at `now`, and forgets all icons.
pub fn rollback_icons(h: &mut History, now: u64) -> (moved: Vec<MovedIcon>)
    ensures
        moved@ == fresh_icons(old(h).icons@, now),
        final(h).icons@.len() == 0,
        final(h).fences == old(h).fences,
        final(h).autoarrange_was_on == old(h).autoarrange_was_on,
{
    let mut moved: Vec<MovedIcon> = Vec::new();
    std::mem::swap(&mut moved, &mut h.icons);
    forget_old_icons(&mut moved, now);
    moved
}

/// How many of the icons were put back, where `accepted` says of each whether the desktop took it.
pub fn put_back_count(accepted: &Vec<bool>) -> (n: usize)
    ensures
        n == accepted@.filter(|taken: bool| taken).len(),
{
    let ghost p = |taken: bool| taken;
    let mut n: usize = 0;
    assert(accepted@.take(0).filter(p) =~= Seq::empty());
    for i in 0..accepted.len()
        invariant
            p == (|taken: bool| taken),
            n == accepted@.take(i as int).filter(p).len(),
            n <= i,
    {
        proof {
            let next = accepted@.take(i + 1);
            assert(next.drop_last() =~= accepted@.take(i as int));
            assert(next.last() == accepted@[i as int]);
            reveal(Seq::filter);
        }
        if accepted[i] {
            n += 1;
        }
    }
    assert(accepted@.take(accepted@.len() as int) =~= accepted@);
    n
}

/// The fences to put back at `now`, as they were, and forgets all fences.
pub fn take_fence_history(h: &mut History, now: u64) -> (moved: Vec<MovedFence>)
    ensures
        moved@ == fresh_fences(old(h).fences@, now),
        final(h).fences@.len() == 0,
        final(h).icons == old(h).icons,
        final(h).autoarrange_was_on == old(h).autoarrange_was_on,
{
    let mut moved: Vec<MovedFence> = Vec::new();
    std::mem::swap(&mut moved, &mut h.fences);
    forget_old_fences(&mut moved, now);
    moved
}

/// Forgets what could be undone; icons and fences stay where they are.
pub fn clear_history(h: &mut History)
    ensures
        final(h).icons@.len() == 0,
        final(h).fences@.len() == 0,
        final(h).autoarrange_was_on == old(h).autoarrange_was_on,
{
    h.icons = Vec::new();
    h.fences = Vec::new();
}

/// Whether the desktop arranges its icons itself, and whether it is remembered that it did.
pub struct Arranging {
    pub is_on: bool,
    pub was_on: bool,
}

/// Arranging switched off, and remembered.
pub open spec fn suspended(a: Arranging) -> Arranging {
    Arranging { is_on: false, was_on: a.was_on || a.is_on }
}

/// Arranging as it is remembered, and forgotten.
pub open spec fn restored(a: Arranging) -> Arranging {
    Arranging { is_on: a.is_on || a.was_on, was_on: false }
}

/// Arranging switched off `n` times.
pub open spec fn suspended_times(a: Arranging, n: nat) -> Arranging
    decreases n,
{
    if n == 0 {
        a
    } else {
        suspended(suspended_times(a, (n - 1) as nat))
    }
}

/// However often room is made in between, the desktop arranges its icons afterwards if and only if it
/// did before: a layout that was made by hand is left alone.
pub proof fn arranging_comes_back_as_it_was(is_on: bool, n: nat)
    ensures
        restored(suspended_times(Arranging { is_on, was_on: false }, n)) == (Arranging {
            is_on,
            was_on: false,
        }),
    decreases n,
{
    if n > 0 {
        arranging_comes_back_as_it_was(is_on, (n - 1) as nat);
    }
}

/// Icons are about to make room: whether Explorer's own arranging, which would put them back,
/// has to be switched off. That it was on is remembered.
pub fn suspend_autoarrange(h: &mut History, is_on: bool) -> (switch_off: bool)
    ensures
        ({
            let after = suspended(Arranging { is_on, was_on: old(h).autoarrange_was_on });
            &&& switch_off == (is_on && !after.is_on)
            &&& final(h).autoarrange_was_on == after.was_on
        }),
        final(h).icons == old(h).icons,
        final(h).fences == old(h).fences,
{
    if is_on {
        h.autoarrange_was_on = true;
    }
    is_on
}

/// Icons need make room no longer: whether Explorer's own arranging has to be switched on again.
/// It is only where it was switched off here; who keeps icons where they put them keeps doing so.
pub fn restore_autoarrange(h: &mut History, is_on: bool) -> (switch_on: bool)
    ensures
        ({
            let after = restored(Arranging { is_on, was_on: old(h).autoarrange_was_on });
            &&& switch_on == (!is_on && after.is_on)
            &&& final(h).autoarrange_was_on == after.was_on
        }),
        final(h).icons == old(h).icons,
        final(h).fences == old(h).fences,
{
    let was_on: bool = h.autoarrange_was_on;
    h.autoarrange_was_on = false;
    was_on && !is_on
}

/// A fence that was remembered can be put back as it was until a minute has gone by, however often
/// it was moved since; then it cannot.
pub proof fn the_first_record_is_what_comes_back(
    before: Seq<MovedFence>,
    cfg: FenceCfg,
    at: u64,
    again: FenceCfg,
    later: u64,
    now: u64,
)
    requires
        again.id == cfg.id,
        at <= later <= now,
        !has_fence(fresh_fences(before, at), cfg.id),
    ensures
        ({
            let first = fence_recorded(before, MovedFence { cfg, at });
            let second = fence_recorded(first, MovedFence { cfg: again, at: later });
            &&& now < at + 60 ==> {
                &&& fresh_fences(second, now).contains(MovedFence { cfg, at })
                &&& !has_later(fresh_fences(second, now), cfg.id, at)
            }
            &&& later >= at + 60 ==> !fresh_fences(second, later).contains(
                MovedFence { cfg, at },
            )
        }),
{
    let m = MovedFence { cfg, at };
    let kept0 = fresh_fences(before, at);
    let first = kept0.push(m);
    let kept = fresh_fences(first, later);
    let second = if has_fence(kept, again.id) {
        kept
    } else {
        kept.push(MovedFence { cfg: again, at: later })
    };
    filter_facts(first, later);
    filter_facts(second, now);
    filter_facts(second, later);
    filter_facts(before, at);
    assert(first[kept0.len() as int] == m);
    if now < at + ROLLBACK_TTL_SECS {
        assert(first.contains(m));
        assert(kept.contains(m));
        let i = choose|i: int| 0 <= i < kept.len() && kept[i] == m;
        assert(kept[i].cfg.id == again.id);
        assert(has_fence(kept, again.id));
        assert(second == kept);
        assert(fresh_fences(second, now).contains(m));
        if has_later(fresh_fences(second, now), cfg.id, at) {
            let f = fresh_fences(second, now);
            let j = choose|j: int|
                0 <= j < f.len() && (#[trigger] f[j]).cfg.id == cfg.id && f[j].at > at;
            assert(f.contains(f[j]));
            assert(second.contains(f[j]));
            assert(first.contains(f[j]));
            let k = choose|k: int| 0 <= k < first.len() && first[k] == f[j];
            if k < kept0.len() {
                assert(kept0[k].cfg.id == cfg.id);
                assert(has_fence(kept0, cfg.id));
            }
        }
    }
}

/// The icons that are remembered after `moves` were recorded at `at`, one after the other.
pub open spec fn moves_recorded(
    before: Seq<MovedIcon>,
    moves: Seq<IconMove>,
    at: u64,
    n: int,
) -> Seq<MovedIcon>
    decreases n,
{
    if n <= 0 {
        before
    } else {
        let mv = moves[n - 1];
        icon_recorded(
            moves_recorded(before, moves, at, n - 1),
            MovedIcon { index: mv.index as u32, from: mv.from, at },
        )
    }
}

/// The icons after the first `n` of `records` were put back.
pub open spec fn put_back(icons: Seq<Point>, records: Seq<MovedIcon>, n: int) -> Seq<Point>
    decreases n,
{
    if n <= 0 {
        icons
    } else {
        put_back(icons, records, n - 1).update(
            records[n - 1].index as int,
            records[n - 1].from,
        )
    }
}

proof fn all_are_fresh(s: Seq<MovedIcon>, now: u64)
    requires
        forall|i: int| 0 <= i < s.len() ==> now < (#[trigger] s[i]).at + 60,
    ensures
        fresh_icons(s, now) == s,
    decreases s.len(),
{
    reveal(Seq::filter);
    if s.len() > 0 {
        assert forall|i: int| 0 <= i < s.drop_last().len() implies now < (
        #[trigger] s.drop_last()[i]).at + 60 by {
            assert(s.drop_last()[i] == s[i]);
        }
        all_are_fresh(s.drop_last(), now);
        assert(now < s[s.len() - 1].at + 60);
        assert(fresh_icons(s, now) =~= s.drop_last().push(s.last()));
    }
    assert(fresh_icons(s, now) =~= s);
}

proof fn records_are_the_moves(
    icons: Seq<Point>,
    moves: Seq<IconMove>,
    at: u64,
    n: int,
)
    requires
        0 <= n <= moves.len(),
        icons.len() <= u32::MAX,
        forall|j: int| 0 <= j < moves.len() ==> (#[trigger] moves[j]).index < icons.len(),
        forall|j: int, k: int|
            0 <= j < k < moves.len() ==> (#[trigger] moves[j]).index < (#[trigger] moves[k]).index,
    ensures
        moves_recorded(Seq::empty(), moves, at, n).len() == n,
        forall|j: int|
            0 <= j < n ==> #[trigger] moves_recorded(Seq::empty(), moves, at, n)[j] == (MovedIcon {
                index: moves[j].index as u32,
                from: moves[j].from,
                at,
            }),
    decreases n,
{
    if n > 0 {
        records_are_the_moves(icons, moves, at, n - 1);
        let before = moves_recorded(Seq::empty(), moves, at, n - 1);
        all_are_fresh(before, at);
        if has_icon(before, moves[n - 1].index as u32) {
            let j = choose|j: int|
                0 <= j < before.len() && (#[trigger] before[j]).index == moves[n - 1].index as u32;
            assert(moves[j].index < moves[n - 1].index);
        }
    }
}

/// What making room does to the icons can be undone for a minute: the icons that are put back then are
/// all that were moved, and each is where it was before, while all others have stayed there.
pub proof fn undoing_puts_every_icon_back(
    l: &Layout,
    icons: Seq<Point>,
    moves: Seq<IconMove>,
    at: u64,
    now: u64,
)
    requires
        l.wf(),
        icons.len() <= u32::MAX,
        are_moves(l, icons, moves),
        now < at + 60,
    ensures
        ({
            let after = l.avoided(icons, icons.len() as int);
            let records = fresh_icons(
                moves_recorded(Seq::empty(), moves, at, moves.len() as int),
                now,
            );
            put_back(after, records, records.len() as int) == icons
        }),
{
    let n = moves.len() as int;
    let after = l.avoided(icons, icons.len() as int);
    let records = moves_recorded(Seq::empty(), moves, at, n);
    moves_lead_there(l, icons, moves, icons.len() as int, n);
    records_are_the_moves(icons, moves, at, n);
    all_are_fresh(records, now);
    avoided_len(l, icons, icons.len() as int);
    assert forall|j: int| 0 <= j < n implies (#[trigger] moves[j]).from
        == icons[moves[j].index as int] by {
        avoided_len(l, icons, moves[j].index as int);
    }
    let end = put_back(after, records, n);
    assert forall|i: int| 0 <= i < icons.len() implies #[trigger] end[i] == icons[i] by {
        put_back_is_where_it_was(icons, after, records, n, i);
        if !(exists|j: int| 0 <= j < n && (#[trigger] moves[j]).index == i) {
            moved_only_by_its_moves(icons, moves, 0, n, i);
        } else {
            let j = choose|j: int| 0 <= j < n && (#[trigger] moves[j]).index == i;
            assert(records[j].index == i);
        }
    }
    if icons.len() > 0 {
        put_back_is_where_it_was(icons, after, records, n, 0);
    } else if n > 0 {
        assert(moves[0].index < icons.len());
    }
    assert(end =~= icons);
}

proof fn put_back_is_where_it_was(
    icons: Seq<Point>,
    after: Seq<Point>,
    records: Seq<MovedIcon>,
    n: int,
    i: int,
)
    requires
        0 <= n <= records.len(),
        0 <= i < icons.len(),
        after.len() == icons.len(),
        forall|j: int|
            0 <= j < records.len() ==> (#[trigger] records[j]).index < icons.len()
                && records[j].from == icons[records[j].index as int],
    ensures
        put_back(after, records, n).len() == icons.len(),
        put_back(after, records, n)[i] == icons[i] || put_back(after, records, n)[i] == after[i],
        (exists|j: int| 0 <= j < n && (#[trigger] records[j]).index == i) ==> put_back(
            after,
            records,
            n,
        )[i] == icons[i],
    decreases n,
{
    if n > 0 {
        put_back_is_where_it_was(icons, after, records, n - 1, i);
        assert(records[n - 1].index < icons.len());
    }
}

/// No icon is remembered twice, so an icon that moved again goes back to where it first stood: what is
/// remembered of it does not change for a minute, and is forgotten then.
pub proof fn an_icon_is_remembered_once(s: Seq<MovedIcon>, m: MovedIcon, i: int, j: int)
    requires
        forall|a: int, b: int|
            0 <= a < b < s.len() ==> (#[trigger] s[a]).index != (#[trigger] s[b]).index,
    ensures
        ({
            let after = icon_recorded(s, m);
            &&& 0 <= i < j < after.len() ==> after[i].index != after[j].index
            &&& 0 <= i < s.len() && m.at < s[i].at + 60 ==> after.contains(s[i])
            &&& 0 <= i < s.len() && m.at >= s[i].at + 60 && s[i] != m ==> !after.contains(s[i])
            &&& (forall|a: int|
                0 <= a < s.len() ==> (#[trigger] s[a]).index != m.index || m.at >= s[a].at + 60)
                ==> after.contains(m)
            &&& exists|a: int| 0 <= a < after.len() && (#[trigger] after[a]).index == m.index
        }),
{
    let p = |x: MovedIcon| is_fresh(x.at, m.at);
    let kept = fresh_icons(s, m.at);
    let after = icon_recorded(s, m);
    icon_filter_facts(s, m.at);
    kept_icons_differ(s, m.at);
    if !has_icon(kept, m.index) {
        assert(after.last() == m);
        assert(after[after.len() - 1].index == m.index);
    }
    if 0 <= i < s.len() && m.at < s[i].at + 60 {
        assert(s.contains(s[i]));
        assert(kept.contains(s[i]));
        let k = choose|k: int| 0 <= k < kept.len() && kept[k] == s[i];
        assert(after[k] == s[i]);
    }
    if 0 <= i < s.len() && m.at >= s[i].at + 60 && s[i] != m && after.contains(s[i]) {
        let k = choose|k: int| 0 <= k < after.len() && after[k] == s[i];
        assert(kept[k] == s[i]);
        assert(kept.contains(s[i]));
    }
    if (forall|a: int|
        0 <= a < s.len() ==> (#[trigger] s[a]).index != m.index || m.at >= s[a].at + 60)
        && has_icon(kept, m.index) {
        let k = choose|k: int| 0 <= k < kept.len() && (#[trigger] kept[k]).index == m.index;
        assert(kept.contains(kept[k]));
        assert(s.contains(kept[k]));
        let a = choose|a: int| 0 <= a < s.len() && s[a] == kept[k];
        assert(s[a].index == m.index);
    }
}

proof fn kept_icons_differ(s: Seq<MovedIcon>, now: u64)
    requires
        forall|a: int, b: int|
            0 <= a < b < s.len() ==> (#[trigger] s[a]).index != (#[trigger] s[b]).index,
    ensures
        forall|a: int, b: int|
            0 <= a < b < fresh_icons(s, now).len() ==> (#[trigger] fresh_icons(s, now)[a]).index
                != (#[trigger] fresh_icons(s, now)[b]).index,
    decreases s.len(),
{
    reveal(Seq::filter);
    if s.len() > 0 {
        let t = s.drop_last();
        assert forall|a: int, b: int| 0 <= a < b < t.len() implies (#[trigger] t[a]).index != (
        #[trigger] t[b]).index by {
            assert(s[a].index != s[b].index);
        }
        kept_icons_differ(t, now);
        icon_filter_facts(t, now);
        let kept = fresh_icons(t, now);
        assert forall|a: int| 0 <= a < kept.len() implies (#[trigger] kept[a]).index
            != s.last().index by {
            assert(kept.contains(kept[a]));
            let k = choose|k: int| 0 <= k < t.len() && t[k] == kept[a];
            assert(s[k].index != s[s.len() - 1].index);
        }
    }
}

proof fn icon_filter_facts(s: Seq<MovedIcon>, now: u64)
    ensures
        forall|m: MovedIcon| #[trigger]
            fresh_icons(s, now).contains(m) <==> s.contains(m) && is_fresh(m.at, now),
{
    let p = |m: MovedIcon| is_fresh(m.at, now);
    assert forall|m: MovedIcon| #[trigger] fresh_icons(s, now).contains(m) implies s.contains(m)
        && is_fresh(m.at, now) by {
        s.lemma_filter_contains_rev(p, m);
        let f = s.filter(p);
        let i = choose|i: int| 0 <= i < f.len() && f[i] == m;
        s.lemma_filter_pred(p, i);
    }
    assert forall|m: MovedIcon| s.contains(m) && is_fresh(m.at, now) implies #[trigger]
    fresh_icons(s, now).contains(m) by {
        let i = choose|i: int| 0 <= i < s.len() && s[i] == m;
        s.lemma_filter_contains(p, i);
    }
}

/// Whether fence `id` was remembered behind `at`.
pub open spec fn has_later(s: Seq<MovedFence>, id: u32, at: u64) -> bool {
    exists|i: int| 0 <= i < s.len() && (#[trigger] s[i]).cfg.id == id && s[i].at > at
}

proof fn filter_facts(s: Seq<MovedFence>, now: u64)
    ensures
        forall|m: MovedFence| #[trigger]
            fresh_fences(s, now).contains(m) <==> s.contains(m) && is_fresh(m.at, now),
{
    let p = |m: MovedFence| is_fresh(m.at, now);
    assert forall|m: MovedFence| #[trigger] fresh_fences(s, now).contains(m) implies s.contains(m)
        && is_fresh(m.at, now) by {
        s.lemma_filter_contains_rev(p, m);
        let f = s.filter(p);
        let i = choose|i: int| 0 <= i < f.len() && f[i] == m;
        s.lemma_filter_pred(p, i);
    }
    assert forall|m: MovedFence| s.contains(m) && is_fresh(m.at, now) implies #[trigger]
    fresh_fences(s, now).contains(m) by {
        let i = choose|i: int| 0 <= i < s.len() && s[i] == m;
        s.lemma_filter_contains(p, i);
    }
}

} // verus!
