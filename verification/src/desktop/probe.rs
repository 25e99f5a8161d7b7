//! Whether the pointer is over a free place of the desktop: every icon is looked at, one question to
//! Explorer after the other, and whatever is not answered in time leaves the place taken.

use super::avoidance::{a_spacing_is_the_cell, cell_of, icon_cell};
use super::drop_position::in_cell;
use crate::geometry::{has_pixel, Area, Point};
use vstd::prelude::*;

verus! {

/// How far a look at the desktop has come.
#[derive(Clone, Copy, Debug, PartialEq, Eq, Structural)]
pub enum ProbeStage {
    /// How many icons are there?
    Counting,
    /// How large is the cell of an icon?
    Measuring,
    /// Explorer writes positions into memory of its own, which has to be got.
    Borrowing,
    /// Where is the next icon?
    Looking,
    Free,
    Taken,
}

/// A look at the desktop.
#[derive(Clone, Copy, Debug)]
pub struct CellProbe {
    /// Where the pointer is, in the window of the icons.
    pub point: Point,
    pub stage: ProbeStage,
    pub count: i32,
    pub cell: (i32, i32),
    /// How many icons were looked at.
    pub seen: i32,
}

/// What is to be done next, with how many milliseconds to wait for an answer.
#[derive(Clone, Copy, Debug, PartialEq, Eq, Structural)]
pub enum Ask {
    Count { patience: u32 },
    Spacing { patience: u32 },
    Memory,
    Position { index: i32, patience: u32 },
    Done { free: bool },
}

/// What came of it.
#[derive(Clone, Copy, Debug, PartialEq, Eq, Structural)]
pub enum Answer {
    /// None came in time, or a refusal.
    Silence,
    Number(usize),
    Granted,
    At(Point),
}

/// The number in the low 32 bits of `n`, with its sign.
pub open spec fn signed32(n: int) -> int {
    let u = n % 0x1_0000_0000;
    if u < 0x8000_0000 {
        u
    } else {
        u - 0x1_0000_0000
    }
}

/// Whether a point lies in an area.
pub open spec fn lies_in(p: Point, a: Area) -> bool {
    a.left <= p.x < a.right && a.top <= p.y < a.bottom
}

/// `p` at another stage.
pub open spec fn at_stage(p: CellProbe, stage: ProbeStage) -> CellProbe {
    CellProbe { stage, ..p }
}

/// A look that begins: with the place taken where the pointer is not over the icons' window.
pub open spec fn begun(point: Option<Point>, client: Option<Area>) -> CellProbe {
    let inside = point is Some && client is Some && lies_in(point->0, client->0);
    CellProbe {
        point: if point is Some {
            point->0
        } else {
            Point { x: 0, y: 0 }
        },
        stage: if inside {
            ProbeStage::Counting
        } else {
            ProbeStage::Taken
        },
        count: 0,
        cell: (0, 0),
        seen: 0,
    }
}

/// A look with the time that is left: none ends it where an answer would have to be waited for.
pub open spec fn timed(p: CellProbe, patience: Option<u32>) -> CellProbe {
    let waits = p.stage == ProbeStage::Counting || p.stage == ProbeStage::Measuring || p.stage
        == ProbeStage::Looking;
    if waits && patience is None {
        at_stage(p, ProbeStage::Taken)
    } else {
        p
    }
}

/// What a look asks for.
pub open spec fn question(p: CellProbe, patience: u32) -> Ask {
    match p.stage {
        ProbeStage::Counting => Ask::Count { patience },
        ProbeStage::Measuring => Ask::Spacing { patience },
        ProbeStage::Borrowing => Ask::Memory,
        ProbeStage::Looking => Ask::Position { index: p.seen, patience },
        ProbeStage::Free => Ask::Done { free: true },
        ProbeStage::Taken => Ask::Done { free: false },
    }
}

/// A look after an answer.
pub open spec fn answered(p: CellProbe, a: Answer) -> CellProbe {
    match (p.stage, a) {
        (ProbeStage::Free, _) => p,
        (ProbeStage::Counting, Answer::Number(n)) => {
            let count = signed32(n as int);
            if count <= 0 {
                at_stage(p, ProbeStage::Free)
            } else {
                CellProbe { count: count as i32, stage: ProbeStage::Measuring, ..p }
            }
        },
        (ProbeStage::Measuring, Answer::Number(n)) => CellProbe {
            cell: cell_of((n as int % 0x1_0000_0000) as u32),
            stage: ProbeStage::Borrowing,
            ..p
        },
        (ProbeStage::Borrowing, Answer::Granted) => CellProbe {
            seen: 0,
            stage: ProbeStage::Looking,
            ..p
        },
        (ProbeStage::Looking, Answer::At(icon)) => {
            if in_cell(p.point, icon, p.cell.0 as int, p.cell.1 as int) {
                at_stage(p, ProbeStage::Taken)
            } else if p.seen + 1 >= p.count {
                CellProbe { seen: p.count, stage: ProbeStage::Free, ..p }
            } else {
                CellProbe { seen: (p.seen + 1) as i32, ..p }
            }
        },
        _ => at_stage(p, ProbeStage::Taken),
    }
}

impl CellProbe {
    /// See [`begun`].
    pub fn new(point: Option<Point>, client: Option<Area>) -> (p: CellProbe)
        ensures
            p == begun(point, client),
    {
        let mut p = CellProbe {
            point: Point { x: 0, y: 0 },
            stage: ProbeStage::Taken,
            count: 0,
            cell: (0, 0),
            seen: 0,
        };
        if let Some(at) = point {
            p.point = at;
            if let Some(a) = client {
                if a.left <= at.x && at.x < a.right && a.top <= at.y && at.y < a.bottom {
                    p.stage = ProbeStage::Counting;
                }
            }
        }
        p
    }

    /// What to ask next, with the time that is left for it; see [`timed`] and [`question`].
    pub fn ask(&mut self, patience: Option<u32>) -> (ask: Ask)
        ensures
            *final(self) == timed(*old(self), patience),
            ask == question(
                timed(*old(self), patience),
                if patience is Some {
                    patience->0
                } else {
                    0
                },
            ),
    {
        let ms: u32 = match patience {
            Some(ms) => ms,
            None => 0,
        };
        match self.stage {
            ProbeStage::Counting | ProbeStage::Measuring | ProbeStage::Looking => {
                if patience.is_none() {
                    self.stage = ProbeStage::Taken;
                }
            },
            _ => {},
        }
        match self.stage {
            ProbeStage::Counting => Ask::Count { patience: ms },
            ProbeStage::Measuring => Ask::Spacing { patience: ms },
            ProbeStage::Borrowing => Ask::Memory,
            ProbeStage::Looking => Ask::Position { index: self.seen, patience: ms },
            ProbeStage::Free => Ask::Done { free: true },
            ProbeStage::Taken => Ask::Done { free: false },
        }
    }

    /// See [`answered`].
    pub fn hear(&mut self, a: Answer)
        ensures
            *final(self) == answered(*old(self), a),
    {
        match self.stage {
            ProbeStage::Free => {},
            ProbeStage::Counting => match a {
                Answer::Number(n) => {
                    let u: u64 = (n as u64) % 0x1_0000_0000;
                    if u == 0 || u >= 0x8000_0000 {
                        self.stage = ProbeStage::Free;
                    } else {
                        self.count = u as i32;
                        self.stage = ProbeStage::Measuring;
                    }
                },
                _ => {
                    self.stage = ProbeStage::Taken;
                },
            },
            ProbeStage::Measuring => match a {
                Answer::Number(n) => {
                    self.cell = icon_cell(((n as u64) % 0x1_0000_0000) as u32);
                    self.stage = ProbeStage::Borrowing;
                },
                _ => {
                    self.stage = ProbeStage::Taken;
                },
            },
            ProbeStage::Borrowing => match a {
                Answer::Granted => {
                    self.seen = 0;
                    self.stage = ProbeStage::Looking;
                },
                _ => {
                    self.stage = ProbeStage::Taken;
                },
            },
            ProbeStage::Looking => match a {
                Answer::At(icon) => {
                    let (px, py): (i64, i64) = (self.point.x as i64, self.point.y as i64);
                    let (ix, iy): (i64, i64) = (icon.x as i64, icon.y as i64);
                    if ix <= px && px < ix + self.cell.0 as i64 && iy <= py && py < iy
                        + self.cell.1 as i64 {
                        self.stage = ProbeStage::Taken;
                    } else if self.seen as i64 + 1 >= self.count as i64 {
                        self.seen = self.count;
                        self.stage = ProbeStage::Free;
                    } else {
                        self.seen = self.seen + 1;
                    }
                },
                _ => {
                    self.stage = ProbeStage::Taken;
                },
            },
            ProbeStage::Taken => {},
        }
    }
}

/// A look, with the time that was left for each question and the answer to it.
pub open spec fn probed(start: CellProbe, events: Seq<(Option<u32>, Answer)>) -> CellProbe
    decreases events.len(),
{
    if events.len() == 0 {
        start
    } else {
        let before = timed(probed(start, events.drop_last()), events.last().0);
        answered(before, events.last().1)
    }
}

/// Whether icon `i` was found, and not over the pointer.
pub open spec fn found_elsewhere(
    events: Seq<(Option<u32>, Answer)>,
    i: int,
    point: Point,
    cell: (i32, i32),
) -> bool {
    events[3 + i].1 matches Answer::At(icon) && !in_cell(
        point,
        icon,
        cell.0 as int,
        cell.1 as int,
    )
}

/// Whether every one of the first `n` icons was found, and not over the pointer.
pub open spec fn all_elsewhere(
    events: Seq<(Option<u32>, Answer)>,
    n: int,
    point: Point,
    cell: (i32, i32),
) -> bool {
    forall|i: int| 0 <= i < n ==> #[trigger] found_elsewhere(events, i, point, cell)
}

/// What was learned by the events so far.
spec fn learned(p: CellProbe, events: Seq<(Option<u32>, Answer)>) -> bool {
    let n = events.len();
    let counted = n >= 1 && (events[0].1 matches Answer::Number(c) && signed32(c as int) == p.count
        && p.count > 0);
    let measured = counted && n >= 2 && (events[1].1 matches Answer::Number(s) && p.cell == cell_of(
        (s as int % 0x1_0000_0000) as u32,
    ));
    match p.stage {
        ProbeStage::Counting => n == 0,
        ProbeStage::Measuring => n == 1 && counted,
        ProbeStage::Borrowing => n == 2 && measured,
        ProbeStage::Looking => n == 3 + p.seen && 0 <= p.seen < p.count && measured
            && all_elsewhere(events, p.seen as int, p.point, p.cell),
        ProbeStage::Free => n >= 1 && (events[0].1 matches Answer::Number(c) && (signed32(c as int)
            <= 0 || (measured && n >= 3 + p.count && all_elsewhere(
            events,
            p.count as int,
            p.point,
            p.cell,
        )))),
        ProbeStage::Taken => true,
    }
}

proof fn lemma_learned(start: CellProbe, events: Seq<(Option<u32>, Answer)>)
    requires
        start.stage == ProbeStage::Counting || start.stage == ProbeStage::Taken,
    ensures
        learned(probed(start, events), events),
        probed(start, events).point == start.point,
    decreases events.len(),
{
    if events.len() > 0 {
        let front = events.drop_last();
        lemma_learned(start, front);
        let p = probed(start, front);
        let q = probed(start, events);
        assert forall|i: int|
            0 <= i < front.len() - 3 && found_elsewhere(front, i, p.point, p.cell) implies #[trigger] found_elsewhere(
            events, i, p.point, p.cell) by {
            assert(front[3 + i] == events[3 + i]);
        }
        if p.stage == ProbeStage::Looking || p.stage == ProbeStage::Free {
            let k = if p.stage == ProbeStage::Looking {
                p.seen as int
            } else {
                p.count as int
            };
            if all_elsewhere(front, k, p.point, p.cell) && front.len() >= 3 + k {
                assert forall|i: int| 0 <= i < k implies #[trigger] found_elsewhere(
                    events,
                    i,
                    p.point,
                    p.cell,
                ) by {
                    assert(found_elsewhere(front, i, p.point, p.cell));
                }
            }
        }
        if p.stage == ProbeStage::Looking && q.stage != ProbeStage::Taken {
            assert(found_elsewhere(events, p.seen as int, p.point, p.cell));
        }
    }
}

/// A place is found free only where Explorer told of no icon at all, or where it told in time where
/// each of its icons is and none of them is under the pointer.
pub proof fn a_free_place_has_no_icon(
    point: Option<Point>,
    client: Option<Area>,
    events: Seq<(Option<u32>, Answer)>,
)
    requires
        probed(begun(point, client), events).stage == ProbeStage::Free,
    ensures
        ({
            let end = probed(begun(point, client), events);
            &&& point is Some && client is Some && lies_in(point->0, client->0)
            &&& events.len() >= 1
            &&& events[0].1 matches Answer::Number(n) && (signed32(n as int) <= 0 || (signed32(
                n as int,
            ) == end.count && events.len() >= 3 + end.count && all_elsewhere(
                events,
                end.count as int,
                point->0,
                end.cell,
            )))
        }),
{
    let start = begun(point, client);
    lemma_learned(start, events);
    if start.stage == ProbeStage::Taken {
        lemma_taken(start, events);
    }
}

proof fn lemma_taken(start: CellProbe, events: Seq<(Option<u32>, Answer)>)
    requires
        start.stage == ProbeStage::Taken,
    ensures
        probed(start, events).stage == ProbeStage::Taken,
    decreases events.len(),
{
    if events.len() > 0 {
        lemma_taken(start, events.drop_last());
    }
}

/// A look comes to its end: after the answer on how many icons there are, no later than with the
/// answer on the last of them.
pub proof fn a_look_ends(
    point: Option<Point>,
    client: Option<Area>,
    events: Seq<(Option<u32>, Answer)>,
)
    ensures
        ({
            let end = probed(begun(point, client), events);
            events.len() >= 3 && events.len() >= 3 + end.count ==> end.stage == ProbeStage::Free
                || end.stage == ProbeStage::Taken
        }),
{
    lemma_learned(begun(point, client), events);
}

/// The answers of a desktop with `icons` on cells of `w` by `h` pixels, each in time.
pub open spec fn answers(icons: Seq<Point>, w: int, h: int) -> Seq<(Option<u32>, Answer)> {
    Seq::new(
        3 + icons.len(),
        |i: int|
            (
                Some(50u32),
                if i == 0 {
                    Answer::Number(icons.len() as usize)
                } else if i == 1 {
                    Answer::Number((h * 0x1_0000 + w) as usize)
                } else if i == 2 {
                    Answer::Granted
                } else {
                    Answer::At(icons[i - 3])
                },
            ),
    )
}

proof fn looking_goes_from_icon_to_icon(
    point: Point,
    client: Area,
    icons: Seq<Point>,
    w: int,
    h: int,
    k: int,
)
    requires
        lies_in(point, client),
        48 <= w < 0x1_0000,
        48 <= h < 0x1_0000,
        0 < icons.len() <= i32::MAX,
        0 <= k <= icons.len(),
        forall|i: int|
            0 <= i < k ==> !has_pixel(
                (#[trigger] icons[i]).x as int,
                icons[i].y as int,
                w,
                h,
                point.x as int,
                point.y as int,
            ),
    ensures
        ({
            let p = probed(begun(Some(point), Some(client)), answers(icons, w, h).take(3 + k));
            &&& p.point == point
            &&& p.count == icons.len()
            &&& p.cell == (w as i32, h as i32)
            &&& k < icons.len() ==> p.stage == ProbeStage::Looking && p.seen == k
            &&& k == icons.len() ==> p.stage == ProbeStage::Free
        }),
    decreases k,
{
    let all = answers(icons, w, h);
    let start = begun(Some(point), Some(client));
    if k == 0 {
        let (a, b, c) = (all.take(1), all.take(2), all.take(3));
        assert(a.drop_last() =~= all.take(0) && a.last() == all[0]);
        assert(b.drop_last() =~= a && b.last() == all[1]);
        assert(c.drop_last() =~= b && c.last() == all[2]);
        assert(probed(start, all.take(0)) == start);
        assert(signed32(icons.len() as int) == icons.len());
        let packed = h * 0x1_0000 + w;
        assert(packed % 0x1_0000_0000 == packed);
        assert(packed as usize as int % 0x1_0000_0000 == packed);
        a_spacing_is_the_cell(w, h);
        assert(cell_of(packed as u32) == (w as i32, h as i32));
        let one = probed(start, a);
        assert(one == answered(timed(start, Some(50u32)), all[0].1));
        assert(one.stage == ProbeStage::Measuring && one.count == icons.len());
        let two = probed(start, b);
        assert(two == answered(timed(one, Some(50u32)), all[1].1));
        assert((packed as usize as int % 0x1_0000_0000) as u32 == packed as u32);
        assert(two.stage == ProbeStage::Borrowing && two.cell == (w as i32, h as i32));
        let three = probed(start, c);
        assert(three == answered(timed(two, Some(50u32)), all[2].1));
    } else {
        looking_goes_from_icon_to_icon(point, client, icons, w, h, k - 1);
        let (a, b) = (all.take(2 + k), all.take(3 + k));
        assert(b.drop_last() =~= a && b.last() == all[2 + k]);
        assert(all[2 + k].1 == Answer::At(icons[k - 1]));
        assert(!has_pixel(
            icons[k - 1].x as int,
            icons[k - 1].y as int,
            w,
            h,
            point.x as int,
            point.y as int,
        ));
    }
}

/// Where Explorer answers each question in time, a place of its window is found free if and only if the
/// pointer is in the cell of none of its icons.
pub proof fn a_place_is_free_where_no_icon_is(
    point: Point,
    client: Area,
    icons: Seq<Point>,
    w: int,
    h: int,
)
    requires
        lies_in(point, client),
        48 <= w < 0x1_0000,
        48 <= h < 0x1_0000,
        0 < icons.len() <= i32::MAX,
    ensures
        probed(begun(Some(point), Some(client)), answers(icons, w, h)).stage == ProbeStage::Free
            <==> forall|i: int|
            0 <= i < icons.len() ==> !has_pixel(
                (#[trigger] icons[i]).x as int,
                icons[i].y as int,
                w,
                h,
                point.x as int,
                point.y as int,
            ),
{
    let all = answers(icons, w, h);
    let start = begun(Some(point), Some(client));
    let n = icons.len() as int;
    assert(all.take(3 + n) =~= all);
    if forall|i: int|
        0 <= i < n ==> !has_pixel(
            (#[trigger] icons[i]).x as int,
            icons[i].y as int,
            w,
            h,
            point.x as int,
            point.y as int,
        ) {
        looking_goes_from_icon_to_icon(point, client, icons, w, h, n);
    } else if probed(start, all).stage == ProbeStage::Free {
        a_free_place_has_no_icon(Some(point), Some(client), all);
        looking_goes_from_icon_to_icon(point, client, icons, w, h, 0);
        assert(signed32(n) == n);
        let end = probed(start, all);
        what_was_measured_stays(start, all, 3);
        let i = choose|i: int|
            0 <= i < n && has_pixel(
                (#[trigger] icons[i]).x as int,
                icons[i].y as int,
                w,
                h,
                point.x as int,
                point.y as int,
            );
        assert(found_elsewhere(all, i, point, end.cell));
        assert(all[3 + i].1 == Answer::At(icons[i]));
    }
}

proof fn what_was_measured_stays(start: CellProbe, events: Seq<(Option<u32>, Answer)>, n: int)
    requires
        0 <= n <= events.len(),
        ({
            let p = probed(start, events.take(n));
            p.stage == ProbeStage::Looking || p.stage == ProbeStage::Free || p.stage
                == ProbeStage::Taken
        }),
    ensures
        ({
            let (p, q) = (probed(start, events.take(n)), probed(start, events));
            &&& q.cell == p.cell
            &&& q.stage == ProbeStage::Looking || q.stage == ProbeStage::Free || q.stage
                == ProbeStage::Taken
        }),
    decreases events.len(),
{
    if n < events.len() {
        let front = events.drop_last();
        assert(front.take(n) =~= events.take(n));
        what_was_measured_stays(start, front, n);
    } else {
        assert(events.take(n) =~= events);
    }
}

} // verus!
