//! Where a file dropped on the desktop is put, and when it is left to Explorer.

use super::avoidance::{cell_of, icon_cell};
use crate::config::saturated;
use crate::fence::grid::{held, hold_inside, trunc_div};
use crate::geometry::{Area, Point};
use crate::text::{
    ascii_lowercase, ascii_uppercase, eq_ignore_ascii_case, only_letters_have_a_case, views,
};
use crate::winpath::{
    file_name, file_name_of, is_local, is_plain, is_verbatim, join, name_end, parent, parent_of,
    prefix_len, takes_names, the_parent_of_a_joined_name_reads_like_the_folder,
};
use vstd::prelude::*;

verus! {

/// How long a dropped file is waited for, in milliseconds.
pub const POSITION_TIMEOUT: u64 = 1500;

/// How long to wait between two looks, in milliseconds.
pub const RETRY_DELAY: u64 = 25;

/// The lock that keeps the desktop from painting a dropped file at its default place. Each lock has
/// a number of its own, so that a late release cannot end a later lock.
#[derive(Clone, Copy, Debug, PartialEq, Eq, Structural)]
pub struct VisualLock {
    pub counter: u64,
    /// The number of the lock that is held, 0 for none.
    pub active: u64,
    /// The window that is locked, 0 for none.
    pub list: isize,
}

impl VisualLock {
    /// No lock.
    pub fn new() -> (lock: VisualLock)
        ensures
            lock == (VisualLock { counter: 0, active: 0, list: 0 }),
    {
        VisualLock { counter: 0, active: 0, list: 0 }
    }

    /// The window `list` has been locked; the number of the lock.
    pub fn begin(&mut self, list: isize) -> (generation: u64)
        requires
            old(self).counter < u64::MAX,
        ensures
            generation == old(self).counter + 1,
            *final(self) == (VisualLock { counter: generation, active: generation, list }),
            *final(self) == locked(*old(self), list),
    {
        self.counter = self.counter + 1;
        self.list = list;
        self.active = self.counter;
        self.counter
    }

    /// Ends lock `generation`, if that is the one that is held; the window to unlock and repaint.
    pub fn finish(&mut self, generation: u64) -> (unlocked: Option<isize>)
        ensures
            (unlocked, *final(self)) == released(*old(self), generation),
            generation != 0 && generation == old(self).active ==> unlocked == Some(old(self).list)
                && *final(self) == (VisualLock { active: 0, list: 0, ..*old(self) }),
            !(generation != 0 && generation == old(self).active) ==> unlocked is None
                && *final(self) == *old(self),
    {
        if generation == 0 || self.active != generation {
            return None;
        }
        let list: isize = self.list;
        self.active = 0;
        self.list = 0;
        Some(list)
    }
}

/// The window that ending lock `generation` unlocks, if any, and what is left.
pub open spec fn released(lock: VisualLock, generation: u64) -> (Option<isize>, VisualLock) {
    if generation != 0 && generation == lock.active {
        (Some(lock.list), VisualLock { active: 0, list: 0, ..lock })
    } else {
        (None, lock)
    }
}

/// The lock on the window `list`, with a number of its own.
pub open spec fn locked(lock: VisualLock, list: isize) -> VisualLock {
    VisualLock {
        counter: (lock.counter + 1) as u64,
        active: (lock.counter + 1) as u64,
        list,
    }
}

/// A lock is released once, and the window that was locked is the one that is unlocked: a second release,
/// or one with the number of another lock, such as an earlier one, does nothing.
pub proof fn a_lock_is_released_once(lock: VisualLock, list: isize, generation: u64, earlier: u64)
    requires
        generation == lock.active,
        generation != 0,
        earlier != generation,
    ensures
        ({
            let (unlocked, after) = released(lock, generation);
            &&& unlocked == Some(lock.list)
            &&& after.active == 0
            &&& released(after, generation) == (None::<isize>, after)
            &&& released(lock, earlier) == (None::<isize>, lock)
            &&& lock.counter < u64::MAX && earlier <= lock.counter ==> locked(lock, list).list
                == list && released(locked(lock, list), earlier) == (
                None::<isize>,
                locked(lock, list),
            )
        }),
{
}

/// How many windows are looked at on the way up.
pub const MAX_HOPS: usize = 10;

/// Whether `ancestor` is found going up from the first window of `chain`, each window of which is
/// the parent of the one before it: at most ten windows are looked at, and one that is no window or
/// its own parent ends the way.
pub open spec fn leads_to(chain: Seq<isize>, ancestor: isize) -> bool {
    exists|k: int|
        0 <= k < chain.len() && k < MAX_HOPS && #[trigger] chain[k] == ancestor && ancestor != 0
            && is_way(chain, k)
}

/// Whether the first windows of `chain` up to `k` are windows, each another one than the one before.
pub open spec fn is_way(chain: Seq<isize>, k: int) -> bool {
    &&& forall|j: int| 0 <= j <= k ==> #[trigger] chain[j] != 0
    &&& forall|j: int| 0 <= j < k ==> #[trigger] chain[j] != chain[j + 1]
}

/// See [`leads_to`].
pub fn same_or_descendant(chain: &Vec<isize>, ancestor: isize) -> (yes: bool)
    ensures
        yes == leads_to(chain@, ancestor),
{
    let mut i: usize = 0;
    while i < chain.len() && i < MAX_HOPS
        invariant
            i <= chain@.len(),
            i <= MAX_HOPS,
            forall|j: int| 0 <= j < i ==> #[trigger] chain@[j] != ancestor,
            forall|j: int| 0 <= j < i ==> #[trigger] chain@[j] != 0,
            forall|j: int| 0 <= j < i - 1 ==> #[trigger] chain@[j] != chain@[j + 1],
        decreases MAX_HOPS - i,
    {
        if chain[i] == 0 || ancestor == 0 {
            return false;
        }
        if i > 0 && chain[i - 1] == chain[i] {
            assert forall|k: int|
                0 <= k < chain@.len() && k < MAX_HOPS && #[trigger] chain@[k] == ancestor && is_way(
                    chain@,
                    k,
                ) implies false by {
                if k >= i {
                    assert(chain@[i - 1] != chain@[i - 1 + 1]);
                }
            }
            return false;
        }
        if chain[i] == ancestor {
            assert(is_way(chain@, i as int)) by {
                assert forall|j: int| 0 <= j < i implies #[trigger] chain@[j] != chain@[j + 1] by {
                    if j == i - 1 {
                        assert(chain@[i - 1] != chain@[i as int]);
                    }
                }
            }
            return true;
        }
        i += 1;
    }
    false
}

/// Whether a point of the screen is on the desktop: `under` is the window there, with the windows
/// around it, and `list` the window of the icons.
pub fn is_desktop_drop_point(list: Option<isize>, under: &Vec<isize>) -> (yes: bool)
    ensures
        yes == (list is Some && leads_to(under@, list->0)),
{
    match list {
        Some(list) => same_or_descendant(under, list),
        None => false,
    }
}

/// Where an icon of size `w` and `h` stands with its middle at `v`, within `low` and `high`.
pub open spec fn centred(v: int, w: int, low: int, high: int) -> int {
    held(saturated(v - trunc_div(w, 2)), low, high - w)
}

/// The corner of an icon's cell with its middle at `point`, within `client`.
pub fn centered_icon_position(point: Point, client: &Area, cell_w: i32, cell_h: i32) -> (p: Point)
    ensures
        p.x == centred(point.x as int, cell_w as int, client.left as int, client.right as int),
        p.y == centred(point.y as int, cell_h as int, client.top as int, client.bottom as int),
{
    Point {
        x: hold_inside(before_middle(point.x, cell_w), cell_w, client.left, client.right),
        y: hold_inside(before_middle(point.y, cell_h), cell_h, client.top, client.bottom),
    }
}

fn before_middle(v: i32, w: i32) -> (out: i32)
    ensures
        out == saturated(v - trunc_div(w as int, 2)),
{
    let w: i64 = w as i64;
    let half: i64 = if w >= 0 {
        w / 2
    } else {
        -((-w) / 2)
    };
    let n: i64 = v as i64 - half;
    if n < i32::MIN as i64 {
        i32::MIN
    } else if n > i32::MAX as i64 {
        i32::MAX
    } else {
        n as i32
    }
}

/// What has to be known to place an icon where it was dropped.
#[derive(Clone, Copy, Debug)]
pub struct DesiredFacts {
    /// Whether Explorer arranges icons by itself.
    pub autoarrange: bool,
    /// Where it was dropped, in the window of the icons.
    pub point: Option<Point>,
    /// The inside of that window.
    pub client: Option<Area>,
    /// The packed spacing of the icons.
    pub spacing: Option<u32>,
}

/// Where an icon dropped at `p` stands.
pub open spec fn placed_at(p: Point, client: Area, packed: u32) -> Point {
    let cell = cell_of(packed);
    Point {
        x: centred(p.x as int, cell.0 as int, client.left as int, client.right as int) as i32,
        y: centred(p.y as int, cell.1 as int, client.top as int, client.bottom as int) as i32,
    }
}

/// Where a dropped icon should stand; nowhere in particular where Explorer arranges icons itself, or
/// where something is not known.
pub fn desired_position(f: DesiredFacts) -> (desired: Option<Point>)
    ensures
        desired == (if !f.autoarrange && f.point is Some && f.client is Some && f.spacing is Some {
            Some(placed_at(f.point->0, f.client->0, f.spacing->0))
        } else {
            None
        }),
{
    if f.autoarrange {
        return None;
    }
    match (f.point, f.client, f.spacing) {
        (Some(p), Some(client), Some(packed)) => {
            let (w, h) = icon_cell(packed);
            Some(centered_icon_position(p, &client, w, h))
        },
        _ => None,
    }
}

/// The whole cell lies within the desktop wherever it fits.
pub proof fn a_centred_cell_stays_inside(v: int, w: int, low: int, high: int)
    requires
        0 <= w <= high - low,
    ensures
        low <= centred(v, w, low, high),
        centred(v, w, low, high) + w <= high,
{
}

/// The middle of the cell is where the icon was dropped, to within half a pixel, or the cell is at the edge
/// of the desktop on the side where it was dropped.
pub proof fn a_dropped_icon_is_centred(v: int, w: int, low: int, high: int)
    requires
        0 <= w <= high - low,
        i32::MIN <= low,
        high <= i32::MAX,
    ensures
        ({
            let c = centred(v, w, low, high);
            &&& low < c && c + w < high ==> -1 <= 2 * c + w - 2 * v <= 1
            &&& c == low && c + w < high ==> 2 * v <= 2 * low + w + 1
            &&& low < c && c + w == high ==> 2 * v >= 2 * high - w - 1
        }),
{
}

/// What a look for a name in a folder found.
#[derive(Clone, Copy, Debug, PartialEq, Eq, Structural)]
pub enum Presence {
    Found,
    NotFound,
    /// The look itself failed.
    Failed,
}

/// Whether it is certain that the name of `source` was on no desktop: it has a name, both desktops
/// are known, and neither holds it.
pub fn desktop_name_was_absent(
    source: &str,
    on_user_desktop: Option<Presence>,
    on_public_desktop: Option<Presence>,
) -> (absent: bool)
    ensures
        absent == (file_name(source@) is Some && on_user_desktop == Some(Presence::NotFound)
            && on_public_desktop == Some(Presence::NotFound)),
{
    if file_name_of(source).is_none() {
        return false;
    }
    match (on_user_desktop, on_public_desktop) {
        (Some(user), Some(public)) => user == Presence::NotFound && public == Presence::NotFound,
        _ => false,
    }
}

/// Whether two known volumes are the same, whatever the case of their names.
pub open spec fn same_volume(a: Option<Seq<char>>, b: Option<Seq<char>>) -> bool {
    a is Some && b is Some && ascii_lowercase(a->0) == ascii_lowercase(b->0)
}

/// A volume is the same as itself written in capitals, and as no other that is longer or shorter; one that is
/// not known is the same as none.
pub proof fn volumes_are_told_by_their_names(a: Seq<char>, b: Seq<char>, c: Option<Seq<char>>)
    ensures
        same_volume(Some(a), Some(a)),
        same_volume(Some(a), Some(ascii_uppercase(a))),
        same_volume(Some(a), Some(b)) == same_volume(Some(b), Some(a)),
        a.len() != b.len() ==> !same_volume(Some(a), Some(b)),
        !same_volume(None, c) && !same_volume(c, None),
{
    let (x, y) = (ascii_lowercase(a), ascii_lowercase(ascii_uppercase(a)));
    assert forall|i: int| 0 <= i < a.len() implies #[trigger] x[i] == y[i] by {
        only_letters_have_a_case(a[i]);
    }
    assert(x =~= y);
    if ascii_lowercase(a) == ascii_lowercase(b) {
        assert(ascii_lowercase(a).len() == a.len());
        assert(ascii_lowercase(b).len() == b.len());
    }
}

/// Whether a plain move to the desktop may be shown at once: the desktop is known, the name is new
/// there, and the file stays on its volume. Everything else is left to Explorer.
pub fn desktop_move_fast_path_allowed(
    desktop_known: bool,
    name_was_absent: bool,
    source_volume: &Option<String>,
    desktop_volume: &Option<String>,
) -> (allowed: bool)
    ensures
        allowed == (desktop_known && name_was_absent && same_volume(
            crate::config::opt_view(*source_volume),
            crate::config::opt_view(*desktop_volume),
        )),
{
    if !desktop_known || !name_was_absent {
        return false;
    }
    match (source_volume, desktop_volume) {
        (Some(a), Some(b)) => eq_ignore_ascii_case(a.as_str(), b.as_str()),
        _ => false,
    }
}

/// Whether `p` lies within the cell of an icon at `icon`.
pub open spec fn in_cell(p: Point, icon: Point, w: int, h: int) -> bool {
    icon.x <= p.x < icon.x + w && icon.y <= p.y < icon.y + h
}

/// What the facts about a drop's target allow.
#[derive(Clone, Copy, Debug, PartialEq, Eq, Structural)]
pub struct TargetFacts {
    pub target: isize,
    /// The window of the desktop's icons.
    pub list: Option<isize>,
    /// Whether the icons' window is the target or lies in it.
    pub list_in_target: bool,
    /// Whether Explorer arranges icons by itself.
    pub autoarrange: bool,
}

/// Whether the icons under a drop have to be asked for their places at all: the desktop is there,
/// the target is the desktop, and Explorer would not arrange the icon away.
pub fn target_may_be_taken(facts: TargetFacts) -> (yes: bool)
    ensures
        yes == (facts.list is Some && facts.target != 0 && facts.list_in_target
            && !facts.autoarrange),
{
    facts.list.is_some() && facts.target != 0 && facts.list_in_target && !facts.autoarrange
}

/// How long one question to the desktop may take at `now`, in milliseconds, with the deadline at
/// `deadline` (both in microseconds): what is left, 1 at least and 50 at most; none behind it.
pub open spec fn question_timeout(deadline: u64, now: u64) -> Option<u32> {
    if now > deadline {
        None
    } else {
        let ms = (deadline - now) / 1000;
        Some(
            (if ms < 1 {
                1
            } else if ms > 50 {
                50
            } else {
                ms
            }) as u32,
        )
    }
}

/// A question may take no longer than what is left up to the deadline, unless that is less than a
/// millisecond, and never longer than 50; behind the deadline none is asked.
pub proof fn a_question_ends_by_the_deadline(deadline: u64, now: u64)
    ensures
        question_timeout(deadline, now) is None <==> now > deadline,
        question_timeout(deadline, now) matches Some(ms) ==> 1 <= ms <= 50 && (ms == 1 || now + 1000
            * ms <= deadline) && (ms == 50 || deadline < now + 1000 * (ms + 1)),
{
}

/// See [`question_timeout`].
pub fn message_timeout(deadline: u64, now: u64) -> (ms: Option<u32>)
    ensures
        ms == question_timeout(deadline, now),
{
    if now > deadline {
        return None;
    }
    let ms: u64 = (deadline - now) / 1000;
    Some(
        if ms < 1 {
            1
        } else if ms > 50 {
            50
        } else {
            ms as u32
        },
    )
}

/// Whether two paths are the same but for the case of their ASCII letters.
pub open spec fn same_but_ascii_case(a: Seq<char>, b: Seq<char>) -> bool {
    ascii_lowercase(a) == ascii_lowercase(b)
}

/// Whether `path` stands directly in one of the folders `roots`.
pub open spec fn stands_in(path: Seq<char>, roots: Seq<Seq<char>>) -> bool {
    parent(path) is Some && exists|i: int|
        0 <= i < roots.len() && same_but_ascii_case(parent(path)->0, #[trigger] roots[i])
}

/// A file of a desktop's folder stands on it, however the letters of the folder are written; a file of a
/// folder that is none of the desktops does not.
#[verifier::rlimit(40)]
pub proof fn a_file_of_the_desktop_stands_on_it(d: Seq<char>, n: Seq<char>, roots: Seq<Seq<char>>)
    requires
        !is_verbatim(d),
        takes_names(d),
        is_plain(n),
        prefix_len(d) < d.len() || is_local(d),
        name_end(d, d.len() as int) == d.len(),
    ensures
        stands_in(join(d, n), roots) <==> exists|i: int|
            0 <= i < roots.len() && ascii_lowercase(#[trigger] roots[i]) == ascii_lowercase(d),
{
    the_parent_of_a_joined_name_reads_like_the_folder(d, n);
    if exists|i: int|
        0 <= i < roots.len() && ascii_lowercase(#[trigger] roots[i]) == ascii_lowercase(d) {
        let i = choose|i: int|
            0 <= i < roots.len() && ascii_lowercase(#[trigger] roots[i]) == ascii_lowercase(d);
        assert(same_but_ascii_case(d, roots[i]));
    }
    if stands_in(join(d, n), roots) {
        let i = choose|i: int|
            0 <= i < roots.len() && same_but_ascii_case(d, #[trigger] roots[i]);
        assert(ascii_lowercase(roots[i]) == ascii_lowercase(d));
    }
}

/// See [`stands_in`].
pub fn is_direct_desktop_child(path: &str, desktop_roots: &Vec<String>) -> (yes: bool)
    ensures
        yes == stands_in(path@, views(desktop_roots@)),
{
    match parent_of(path) {
        Some(dir) => {
            for i in 0..desktop_roots.len()
                invariant
                    parent(path@) == Some(dir@),
                    forall|j: int|
                        0 <= j < i ==> !same_but_ascii_case(
                            dir@,
                            #[trigger] views(desktop_roots@)[j],
                        ),
            {
                assert(views(desktop_roots@)[i as int] == desktop_roots@[i as int]@);
                if eq_ignore_ascii_case(dir.as_str(), desktop_roots[i].as_str()) {
                    return true;
                }
            }
            false
        },
        None => false,
    }
}

/// Whether the desktop's layout is saved before `paths` are moved: one of them stands directly on a
/// desktop.
pub fn should_save_view_state(paths: &Vec<String>, desktop_roots: &Vec<String>) -> (save: bool)
    ensures
        save == (exists|i: int|
            0 <= i < paths@.len() && stands_in(
                #[trigger] views(paths@)[i],
                views(desktop_roots@),
            )),
{
    for i in 0..paths.len()
        invariant
            forall|j: int|
                0 <= j < i ==> !stands_in(#[trigger] views(paths@)[j], views(desktop_roots@)),
    {
        assert(views(paths@)[i as int] == paths@[i as int]@);
        if is_direct_desktop_child(paths[i].as_str(), desktop_roots) {
            return true;
        }
    }
    false
}

/// What to do next while a dropped file is waited for.
#[derive(Clone, Copy, Debug, PartialEq, Eq, Structural)]
pub enum VisibleStep {
    /// Look for the file's icon, and put it in its place if it is there.
    Look,
    /// Something newer has begun, or the desktop was rebuilt: leave the icon alone.
    GiveUp,
    TimedOut,
}

/// What to do at `now` (milliseconds): a later drop, a new press of the left button and a rebuilt
/// desktop each end the wait before anything is written.
pub fn next_visible_step(
    now: u64,
    deadline: u64,
    is_newest: bool,
    button_down: bool,
    same_list: bool,
) -> (step: VisibleStep)
    ensures
        step == VisibleStep::Look <==> now < deadline && is_newest && !button_down && same_list,
        step == VisibleStep::TimedOut <==> now >= deadline,
{
    if now >= deadline {
        VisibleStep::TimedOut
    } else if !is_newest || button_down || !same_list {
        VisibleStep::GiveUp
    } else {
        VisibleStep::Look
    }
}

} // verus!
