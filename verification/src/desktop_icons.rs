//! Putting the icon of a dropped file where it was dropped: a bounded piece of work beside the
//! window thread, which a later drop, a new press or two seconds end. Times are in microseconds.

use crate::desktop::drop_position::{
    desired_position, placed_at, target_may_be_taken, DesiredFacts, Presence, TargetFacts,
};
use crate::geometry::Point;
use crate::text::owned;
use crate::winpath::{file_name, file_name_of, is_same_place, same_place};
use vstd::prelude::*;
use vstd::string::*;

verus! {

/// The wait between two tries behind a drop of Explorer's.
pub const DROP_POSITION_RETRY: u64 = 30_000;

/// The wait between two tries behind a move of our own.
pub const DROP_POSITION_EAGER_RETRY: u64 = 8_000;

/// How long Explorer is given to settle its own layout.
pub const DROP_POSITION_SETTLE_DELAY: u64 = 330_000;

/// Behind this nothing is written any more.
pub const DROP_POSITION_TIMEOUT: u64 = 2_000_000;

/// How many workers there can be.
pub const MAX_DROP_POSITION_WORKERS: u32 = 2;

/// Who made the drop.
#[derive(Clone, Copy, Debug, PartialEq, Eq, Structural)]
pub enum DropPositionOrigin {
    /// Explorer, which may still be settling its own layout.
    ExplorerDrop,
    /// A move of our own, to be placed before the default place shows.
    DirectMove,
}

/// How long to wait before the first try, and between tries.
pub fn position_timing(origin: DropPositionOrigin) -> (timing: (u64, u64))
    ensures
        timing == timing_of(origin),
{
    match origin {
        DropPositionOrigin::ExplorerDrop => (DROP_POSITION_SETTLE_DELAY, DROP_POSITION_RETRY),
        DropPositionOrigin::DirectMove => (0, DROP_POSITION_EAGER_RETRY),
    }
}

/// See [`position_timing`].
pub open spec fn timing_of(origin: DropPositionOrigin) -> (u64, u64) {
    match origin {
        DropPositionOrigin::ExplorerDrop => (330_000, 30_000),
        DropPositionOrigin::DirectMove => (0, 8_000),
    }
}

/// Whether a try may still be made.
#[derive(Clone, Copy, Debug, PartialEq, Eq, Structural)]
pub enum PositionAttemptGate {
    Continue,
    Expired,
    Cancelled,
}

/// Whether a try may be made `release_age` behind the drop: never from two seconds on, and not when
/// a new press came.
pub open spec fn attempt_gate(release_age: int, new_input: bool) -> PositionAttemptGate {
    if release_age >= DROP_POSITION_TIMEOUT {
        PositionAttemptGate::Expired
    } else if new_input {
        PositionAttemptGate::Cancelled
    } else {
        PositionAttemptGate::Continue
    }
}

/// See [`attempt_gate`].
pub fn position_attempt_gate(release_age: u64, new_input: bool) -> (gate: PositionAttemptGate)
    ensures
        gate == attempt_gate(release_age as int, new_input),
{
    if release_age >= DROP_POSITION_TIMEOUT {
        PositionAttemptGate::Expired
    } else if new_input {
        PositionAttemptGate::Cancelled
    } else {
        PositionAttemptGate::Continue
    }
}

/// Whether the state of a button tells of a press: it is down, or went down since it was last asked
/// (the highest or the lowest bit).
pub fn pointer_state_has_press(state: u16) -> (pressed: bool)
    ensures
        pressed == (state >= 0x8000 || state % 2 == 1),
{
    state >= 0x8000 || state % 2 == 1
}

/// How long one question to the desktop may take at `now`, in milliseconds: what is left until
/// `deadline`, 1 at least and 50 at most; none once nothing is left.
pub open spec fn hit_test_timeout(deadline: u64, now: u64) -> Option<u32> {
    if now >= deadline {
        None
    } else {
        crate::desktop::drop_position::question_timeout(deadline, now)
    }
}

/// See [`hit_test_timeout`].
pub fn desktop_hit_test_timeout(deadline: u64, now: u64) -> (ms: Option<u32>)
    ensures
        ms == hit_test_timeout(deadline, now),
        ms matches Some(ms) ==> 1 <= ms <= 50,
{
    if now >= deadline {
        return None;
    }
    crate::desktop::drop_position::message_timeout(deadline, now)
}

/// Whether a move may be taken over at the pointer: everything is ready for it, the desktop is the
/// target, and the place is free.
pub fn is_empty_desktop_drop_target(ready: bool, facts: TargetFacts, free: bool) -> (yes: bool)
    ensures
        yes == (ready && facts.list is Some && facts.target != 0 && facts.list_in_target
            && !facts.autoarrange && free),
{
    ready && target_may_be_taken(facts) && free
}

/// Why a dropped icon cannot be placed.
pub open spec fn undesired(f: DesiredFacts) -> Option<Seq<char>> {
    if f.autoarrange {
        Some("auto_arrange"@)
    } else if f.point is None {
        Some("screen_to_client_failed"@)
    } else if f.client is None {
        Some("client_rect_failed"@)
    } else if f.spacing is None {
        Some("item_spacing_timeout"@)
    } else {
        None
    }
}

/// Where a dropped icon should stand, or why that is not known.
pub fn desired_drop_position(f: DesiredFacts) -> (desired: Result<Point, String>)
    ensures
        match desired {
            Ok(p) => undesired(f) is None && p == placed_at(f.point->0, f.client->0, f.spacing->0),
            Err(e) => undesired(f) == Some(e@),
        },
{
    match desired_position(f) {
        Some(p) => Ok(p),
        None => Err(
            if f.autoarrange {
                owned("auto_arrange")
            } else if f.point.is_none() {
                owned("screen_to_client_failed")
            } else if f.client.is_none() {
                owned("client_rect_failed")
            } else {
                owned("item_spacing_timeout")
            },
        ),
    }
}

/// What is known of a name on the desktops.
#[derive(Clone, Copy, Debug, PartialEq, Eq, Structural)]
pub enum DesktopNameState {
    Absent,
    Present,
    Unknown,
}

/// The folders in which a name can be on the desktop: the user's, and the public one where that is
/// another. None where one of them is not known.
pub fn desktop_roots(desktop: &Option<String>, public_desktop: &Option<String>) -> (roots: Option<
    Vec<String>,
>)
    ensures
        match roots {
            Some(roots) => desktop is Some && public_desktop is Some && crate::text::views(roots@)
                == if same_place(public_desktop->0@, desktop->0@) {
                seq![desktop->0@]
            } else {
                seq![desktop->0@, public_desktop->0@]
            },
            None => desktop is None || public_desktop is None,
        },
{
    match (desktop, public_desktop) {
        (Some(user), Some(public)) => {
            let mut roots: Vec<String> = Vec::new();
            roots.push(user.clone());
            if !is_same_place(public.as_str(), user.as_str()) {
                roots.push(public.clone());
                assert(crate::text::views(roots@) =~= seq![user@, public@]);
            } else {
                assert(crate::text::views(roots@) =~= seq![user@]);
            }
            Some(roots)
        },
        _ => None,
    }
}

/// Whether one of `found` is `p`.
pub open spec fn some_is(found: Seq<Presence>, p: Presence) -> bool {
    exists|i: int| 0 <= i < found.len() && #[trigger] found[i] == p
}

/// What is known of the name of `source`, from the looks `found` into the desktops' folders (none
/// where those are not known). A name that is there already makes the dropped icon ambiguous; a look
/// that failed counts as not knowing.
pub fn snapshot_desktop_name(source: &str, found: &Option<Vec<Presence>>) -> (state: DesktopNameState)
    ensures
        state == (if file_name(source@) is None || found is None {
            DesktopNameState::Unknown
        } else if some_is(found->0@, Presence::Found) {
            DesktopNameState::Present
        } else if some_is(found->0@, Presence::Failed) {
            DesktopNameState::Unknown
        } else {
            DesktopNameState::Absent
        }),
{
    if file_name_of(source).is_none() {
        return DesktopNameState::Unknown;
    }
    match found {
        Some(looks) => {
            let mut unknown: bool = false;
            for i in 0..looks.len()
                invariant
                    file_name(source@) is Some,
                    found is Some,
                    found->0@ == looks@,
                    forall|j: int| 0 <= j < i ==> #[trigger] looks@[j] != Presence::Found,
                    unknown == (exists|j: int|
                        0 <= j < i && #[trigger] looks@[j] == Presence::Failed),
            {
                match looks[i] {
                    Presence::Found => {
                        assert(looks@[i as int] == Presence::Found);
                        return DesktopNameState::Present;
                    },
                    Presence::NotFound => {},
                    Presence::Failed => {
                        unknown = true;
                    },
                }
            }
            if unknown {
                DesktopNameState::Unknown
            } else {
                DesktopNameState::Absent
            }
        },
        None => DesktopNameState::Unknown,
    }
}

/// The number of the newest drop; each drop and each cancellation takes the next one, and 0 is none.
#[derive(Clone, Copy, Debug, PartialEq, Eq, Structural)]
pub struct DropGeneration {
    pub current: u64,
}

/// The number behind `n`, which is never 0.
pub open spec fn next_generation(n: u64) -> u64 {
    if n == u64::MAX {
        1
    } else {
        (n + 1) as u64
    }
}

impl DropGeneration {
    /// No drop yet.
    pub fn new() -> (g: DropGeneration)
        ensures
            g.current == 0,
    {
        DropGeneration { current: 0 }
    }

    /// The number of a new drop; all earlier ones are superseded.
    pub fn next_drop_generation(&mut self) -> (n: u64)
        ensures
            n == next_generation(old(self).current),
            final(self).current == n,
            n != 0,
            n != old(self).current,
    {
        self.current = if self.current == u64::MAX {
            1
        } else {
            self.current + 1
        };
        self.current
    }

    /// The number of the newest drop.
    pub fn current_drop_generation(&self) -> (n: u64)
        ensures
            n == self.current,
    {
        self.current
    }

    /// Supersedes every drop.
    pub fn cancel_pending_drop_position(&mut self)
        ensures
            final(self).current == next_generation(old(self).current),
    {
        self.next_drop_generation();
    }
}

/// How the work on a drop ended.
#[derive(Clone, Copy, Debug, PartialEq, Eq, Structural)]
pub enum Outcome {
    Superseded,
    Expired,
    CancelledByInput,
    AutoArrange,
    ViewLostBeforeWrite,
    GeometryFailedBeforeWrite,
    PositionedEagerly,
    AlreadyPositioned,
    Positioned,
    Failed,
    PointerWatchFailed,
    WorkerComInitFailed,
    NotAttempted,
}

/// The name of an outcome in the log.
pub open spec fn outcome_name(o: Outcome) -> Seq<char> {
    match o {
        Outcome::Superseded => "desktop_position_superseded"@,
        Outcome::Expired => "desktop_position_expired"@,
        Outcome::CancelledByInput => "desktop_position_cancelled_by_input"@,
        Outcome::AutoArrange => "desktop_position_auto_arrange"@,
        Outcome::ViewLostBeforeWrite => "desktop_position_view_lost_before_write"@,
        Outcome::GeometryFailedBeforeWrite => "desktop_position_geometry_failed_before_write"@,
        Outcome::PositionedEagerly => "desktop_positioned_eagerly"@,
        Outcome::AlreadyPositioned => "desktop_already_positioned"@,
        Outcome::Positioned => "desktop_positioned"@,
        Outcome::Failed => "desktop_position_failed"@,
        Outcome::PointerWatchFailed => "desktop_position_pointer_watch_failed"@,
        Outcome::WorkerComInitFailed => "desktop_position_worker_com_init_failed"@,
        Outcome::NotAttempted => "desktop_position_not_attempted"@,
    }
}

/// See [`outcome_name`].
pub fn outcome_text(o: Outcome) -> (text: String)
    ensures
        text@ == outcome_name(o),
{
    match o {
        Outcome::Superseded => owned("desktop_position_superseded"),
        Outcome::Expired => owned("desktop_position_expired"),
        Outcome::CancelledByInput => owned("desktop_position_cancelled_by_input"),
        Outcome::AutoArrange => owned("desktop_position_auto_arrange"),
        Outcome::ViewLostBeforeWrite => owned("desktop_position_view_lost_before_write"),
        Outcome::GeometryFailedBeforeWrite => owned(
            "desktop_position_geometry_failed_before_write",
        ),
        Outcome::PositionedEagerly => owned("desktop_positioned_eagerly"),
        Outcome::AlreadyPositioned => owned("desktop_already_positioned"),
        Outcome::Positioned => owned("desktop_positioned"),
        Outcome::Failed => owned("desktop_position_failed"),
        Outcome::PointerWatchFailed => owned("desktop_position_pointer_watch_failed"),
        Outcome::WorkerComInitFailed => owned("desktop_position_worker_com_init_failed"),
        Outcome::NotAttempted => owned("desktop_position_not_attempted"),
    }
}

/// Whether an icon stands where it was dropped after `o`.
pub open spec fn is_positioned(o: Outcome) -> bool {
    o == Outcome::PositionedEagerly || o == Outcome::AlreadyPositioned || o == Outcome::Positioned
}

/// See [`is_positioned`].
pub fn positioned(o: Outcome) -> (yes: bool)
    ensures
        yes == is_positioned(o),
{
    o == Outcome::PositionedEagerly || o == Outcome::AlreadyPositioned || o == Outcome::Positioned
}

/// Which answer the worker waits for.
#[derive(Clone, Copy, Debug, PartialEq, Eq, Structural)]
pub enum Phase {
    /// Between tries.
    Resting,
    /// Where the desktop's window is.
    Listing,
    /// The desktop's view.
    Viewing,
    /// The dropped item.
    Resolving,
    /// Where its icon stands.
    Probing,
    /// Where the desktop's window is, before anything is written.
    FinalListing,
    /// Where the icon should stand.
    Desiring,
    /// Where the desktop's window is, once more.
    Confirming,
    /// Whether the icon was put there.
    Writing,
    Ended,
}

/// The work on one drop.
#[derive(Clone, Copy, Debug, PartialEq, Eq, Structural)]
pub struct DropWorker {
    pub generation: u64,
    pub origin: DropPositionOrigin,
    /// The desktop's window.
    pub list: isize,
    pub desired: Point,
    pub desired_ready: bool,
    pub released_at: u64,
    pub not_before: u64,
    pub retry_delay: u64,
    pub attempts: u32,
    pub view_attempts: u32,
    pub resolve_attempts: u32,
    pub probe_attempts: u32,
    pub position_attempts: u32,
    pub appeared: bool,
    /// Whether the desktop's view is held.
    pub has_view: bool,
    /// Whether the dropped item is held.
    pub has_item: bool,
    pub resolve_failures: u8,
    pub probe_failures: u8,
    /// Where the last probe found the icon.
    pub probed: Point,
    pub phase: Phase,
}

/// What the world looks like when the worker takes a step.
#[derive(Clone, Copy, Debug, PartialEq, Eq, Structural)]
pub struct Now {
    pub time: u64,
    /// The number of the newest drop.
    pub generation: u64,
    /// Whether the left button was pressed since the drop.
    pub pressed: bool,
}

/// An answer to the worker's last request.
#[derive(Clone, Copy, Debug, PartialEq, Eq, Structural)]
pub enum Reply {
    /// The pause is over, or the work begins.
    Rested,
    /// The desktop's window, and whether Explorer arranges its icons.
    List(Option<isize>, bool),
    View(bool),
    Item(bool),
    Position(Option<Point>),
    /// Where the icon should stand.
    Desired(Point),
    /// That could not be found out, for this reason: Explorer arranges the icons.
    NoDesired(bool),
    Written(bool),
}

/// What the worker asks for.
#[derive(Clone, Copy, Debug, PartialEq, Eq, Structural)]
pub enum Request {
    /// Let this time pass while messages are served.
    Pause(u64),
    FindList,
    GetView,
    ResolveItem,
    ProbePosition,
    ComputeDesired,
    /// Put the icon at the desired place.
    Write,
    End(Outcome),
}

/// How long ago the drop was.
pub open spec fn age(w: DropWorker, now: Now) -> int {
    if now.time > w.released_at {
        now.time - w.released_at
    } else {
        0
    }
}

/// What stops the work before its next step, if anything does.
pub open spec fn stop(w: DropWorker, now: Now) -> Option<Outcome> {
    if now.generation != w.generation {
        Some(Outcome::Superseded)
    } else {
        match attempt_gate(age(w, now), now.pressed) {
            PositionAttemptGate::Expired => Some(Outcome::Expired),
            PositionAttemptGate::Cancelled => Some(Outcome::CancelledByInput),
            PositionAttemptGate::Continue => None,
        }
    }
}

/// The end of the work.
pub open spec fn ended(w: DropWorker, o: Outcome) -> (DropWorker, Request) {
    (DropWorker { phase: Phase::Ended, ..w }, Request::End(o))
}

/// A pause of `duration`, but not past the end of the time for the work.
pub open spec fn resting(w: DropWorker, now: Now, duration: int) -> (DropWorker, Request) {
    let left = if age(w, now) < DROP_POSITION_TIMEOUT {
        DROP_POSITION_TIMEOUT - age(w, now)
    } else {
        0
    };
    (
        DropWorker { phase: Phase::Resting, ..w },
        Request::Pause(
            (if duration < left {
                duration
            } else {
                left
            }) as u64,
        ),
    )
}

/// `n + 1`, held at the top.
pub open spec fn bumped(n: u32) -> u32 {
    if n < u32::MAX {
        (n + 1) as u32
    } else {
        n
    }
}

/// `n + 1`, held at the top.
pub open spec fn bumped8(n: u8) -> u8 {
    if n < u8::MAX {
        (n + 1) as u8
    } else {
        n
    }
}

/// `w` without the view and the item, of which neither can be trusted in another window.
pub open spec fn without_view(w: DropWorker) -> DropWorker {
    DropWorker { has_view: false, has_item: false, ..w }
}

/// `w` in the window `list`, with everything to be found anew.
pub open spec fn in_list(w: DropWorker, list: isize) -> DropWorker {
    DropWorker {
        list,
        desired_ready: false,
        resolve_failures: 0,
        probe_failures: 0,
        ..without_view(w)
    }
}

/// The beginning of a try, or of a pause where it is too early for one.
pub open spec fn trying(w: DropWorker, now: Now) -> (DropWorker, Request) {
    match stop(w, now) {
        Some(o) => ended(w, o),
        None => if now.time < w.not_before {
            let left = w.not_before - now.time;
            resting(
                w,
                now,
                if w.retry_delay < left {
                    w.retry_delay as int
                } else {
                    left
                },
            )
        } else {
            (
                DropWorker { attempts: bumped(w.attempts), phase: Phase::Listing, ..w },
                Request::FindList,
            )
        },
    }
}

/// On to the item, once there is a view.
pub open spec fn resolving(w: DropWorker) -> (DropWorker, Request) {
    if w.has_item {
        placing(w)
    } else {
        (
            DropWorker {
                resolve_attempts: bumped(w.resolve_attempts),
                phase: Phase::Resolving,
                ..w
            },
            Request::ResolveItem,
        )
    }
}

/// On to the place, once there is an item: behind Explorer's drop its icon has to show first.
pub open spec fn placing(w: DropWorker) -> (DropWorker, Request) {
    match w.origin {
        DropPositionOrigin::DirectMove => (
            DropWorker { phase: Phase::FinalListing, ..w },
            Request::FindList,
        ),
        DropPositionOrigin::ExplorerDrop => (
            DropWorker { probe_attempts: bumped(w.probe_attempts), phase: Phase::Probing, ..w },
            Request::ProbePosition,
        ),
    }
}

/// The write, if nothing stops it at the last moment.
pub open spec fn writing(w: DropWorker, now: Now) -> (DropWorker, Request) {
    match stop(w, now) {
        Some(o) => ended(w, o),
        None => (
            DropWorker {
                position_attempts: bumped(w.position_attempts),
                phase: Phase::Writing,
                ..w
            },
            Request::Write,
        ),
    }
}

/// A failed probe or write; after three in a row the view is got anew.
pub open spec fn probe_failed(w: DropWorker, now: Now) -> (DropWorker, Request) {
    let n = bumped8(w.probe_failures);
    let w2 = if n >= 3 {
        DropWorker { probe_failures: 0, resolve_failures: 0, ..without_view(w) }
    } else {
        DropWorker { probe_failures: n, ..w }
    };
    resting(w2, now, w2.retry_delay as int)
}

/// The step behind the answer where the desktop's window is.
pub open spec fn listed(w: DropWorker, now: Now, list: Option<isize>, arranges: bool) -> (
    DropWorker,
    Request,
) {
    match list {
        None => resting(without_view(w), now, w.retry_delay as int),
        Some(list) => {
            let w = if list != w.list {
                in_list(w, list)
            } else {
                w
            };
            if arranges {
                ended(w, Outcome::AutoArrange)
            } else if w.has_view {
                resolving(w)
            } else {
                (
                    DropWorker {
                        view_attempts: bumped(w.view_attempts),
                        phase: Phase::Viewing,
                        ..w
                    },
                    Request::GetView,
                )
            }
        },
    }
}

/// The step behind the view.
pub open spec fn viewed(w: DropWorker, now: Now, ok: bool) -> (DropWorker, Request) {
    if !ok {
        resting(w, now, w.retry_delay as int)
    } else {
        let w = DropWorker { has_view: true, ..w };
        match stop(w, now) {
            Some(o) => ended(w, o),
            None => resolving(w),
        }
    }
}

/// The step behind the item; after three failures in a row the view is got anew.
pub open spec fn resolved(w: DropWorker, now: Now, ok: bool) -> (DropWorker, Request) {
    match stop(w, now) {
        Some(o) => ended(w, o),
        None => if ok {
            placing(DropWorker { resolve_failures: 0, has_item: true, ..w })
        } else {
            let n = bumped8(w.resolve_failures);
            let w = if n >= 3 {
                DropWorker { resolve_failures: 0, has_view: false, ..w }
            } else {
                DropWorker { resolve_failures: n, ..w }
            };
            resting(w, now, w.retry_delay as int)
        },
    }
}

/// The step behind a probe.
pub open spec fn probed(w: DropWorker, now: Now, at: Option<Point>) -> (DropWorker, Request) {
    match stop(w, now) {
        Some(o) => ended(w, o),
        None => match at {
            Some(p) => (
                DropWorker {
                    appeared: true,
                    probe_failures: 0,
                    probed: p,
                    phase: Phase::FinalListing,
                    ..w
                },
                Request::FindList,
            ),
            None => probe_failed(w, now),
        },
    }
}

/// The step behind the answer where the desktop's window is, before anything is written.
pub open spec fn finally_listed(w: DropWorker, now: Now, list: Option<isize>) -> (
    DropWorker,
    Request,
) {
    match list {
        None => ended(w, Outcome::ViewLostBeforeWrite),
        Some(list) => if list != w.list {
            trying(in_list(w, list), now)
        } else if w.origin == DropPositionOrigin::DirectMove && w.desired_ready {
            writing(w, now)
        } else {
            (DropWorker { phase: Phase::Desiring, ..w }, Request::ComputeDesired)
        },
    }
}

/// The step behind the desired place.
pub open spec fn desired(w: DropWorker, now: Now, p: Point) -> (DropWorker, Request) {
    let w = DropWorker { desired: p, desired_ready: true, ..w };
    match w.origin {
        DropPositionOrigin::DirectMove => writing(w, now),
        DropPositionOrigin::ExplorerDrop => (
            DropWorker { phase: Phase::Confirming, ..w },
            Request::FindList,
        ),
    }
}

/// The step behind the last look at the desktop's window.
pub open spec fn confirmed(w: DropWorker, now: Now, list: Option<isize>) -> (DropWorker, Request) {
    if list != Some(w.list) {
        trying(without_view(w), now)
    } else {
        match stop(w, now) {
            Some(o) => ended(w, o),
            None => if w.probed == w.desired {
                ended(w, Outcome::AlreadyPositioned)
            } else {
                writing(w, now)
            },
        }
    }
}

/// The step behind a write.
pub open spec fn written(w: DropWorker, now: Now, ok: bool) -> (DropWorker, Request) {
    match w.origin {
        DropPositionOrigin::DirectMove => if ok {
            ended(DropWorker { appeared: true, ..w }, Outcome::PositionedEagerly)
        } else {
            probe_failed(w, now)
        },
        DropPositionOrigin::ExplorerDrop => ended(
            w,
            if ok {
                Outcome::Positioned
            } else {
                Outcome::Failed
            },
        ),
    }
}

/// The worker's next step. An answer that it does not wait for begins a new try.
pub open spec fn stepped(w: DropWorker, now: Now, reply: Reply) -> (DropWorker, Request) {
    match (w.phase, reply) {
        (Phase::Listing, Reply::List(list, arranges)) => listed(w, now, list, arranges),
        (Phase::Viewing, Reply::View(ok)) => viewed(w, now, ok),
        (Phase::Resolving, Reply::Item(ok)) => resolved(w, now, ok),
        (Phase::Probing, Reply::Position(at)) => probed(w, now, at),
        (Phase::FinalListing, Reply::List(list, _)) => finally_listed(w, now, list),
        (Phase::Desiring, Reply::Desired(p)) => desired(w, now, p),
        (Phase::Desiring, Reply::NoDesired(arranges)) => ended(
            w,
            if arranges {
                Outcome::AutoArrange
            } else {
                Outcome::GeometryFailedBeforeWrite
            },
        ),
        (Phase::Confirming, Reply::List(list, _)) => confirmed(w, now, list),
        (Phase::Writing, Reply::Written(ok)) => written(w, now, ok),
        (Phase::Ended, _) => ended(w, Outcome::NotAttempted),
        _ => trying(w, now),
    }
}

impl DropWorker {
    /// The work on a drop of Explorer's or of our own, of which nothing is known yet.
    pub fn new(generation: u64, origin: DropPositionOrigin, list: isize, released_at: u64) -> (w:
        DropWorker)
        requires
            released_at + DROP_POSITION_SETTLE_DELAY <= u64::MAX,
        ensures
            w.generation == generation,
            w.origin == origin,
            w.list == list,
            !w.desired_ready,
            w.released_at == released_at,
            w.not_before == released_at + timing_of(origin).0,
            w.retry_delay == timing_of(origin).1,
            w.attempts == 0 && w.view_attempts == 0 && w.resolve_attempts == 0 && w.probe_attempts
                == 0 && w.position_attempts == 0,
            !w.appeared,
            !w.has_view && !w.has_item,
            w.resolve_failures == 0 && w.probe_failures == 0,
            w.phase == Phase::Resting,
    {
        let (settle_delay, retry_delay) = position_timing(origin);
        DropWorker {
            generation,
            origin,
            list,
            desired: Point { x: 0, y: 0 },
            desired_ready: false,
            released_at,
            not_before: released_at + settle_delay,
            retry_delay,
            attempts: 0,
            view_attempts: 0,
            resolve_attempts: 0,
            probe_attempts: 0,
            position_attempts: 0,
            appeared: false,
            has_view: false,
            has_item: false,
            resolve_failures: 0,
            probe_failures: 0,
            probed: Point { x: 0, y: 0 },
            phase: Phase::Resting,
        }
    }

    /// The work on a move of our own whose view and place were found before the file moved.
    pub fn prepared(generation: u64, list: isize, desired: Point, released_at: u64) -> (w: DropWorker)
        ensures
            w.generation == generation,
            w.origin == DropPositionOrigin::DirectMove,
            w.list == list,
            w.desired == desired && w.desired_ready,
            w.released_at == released_at,
            w.not_before == released_at,
            w.retry_delay == DROP_POSITION_EAGER_RETRY,
            w.attempts == 0 && w.view_attempts == 1 && w.resolve_attempts == 0 && w.probe_attempts
                == 0 && w.position_attempts == 0,
            !w.appeared,
            w.has_view && !w.has_item,
            w.resolve_failures == 0 && w.probe_failures == 0,
            w.phase == Phase::Resting,
    {
        DropWorker {
            generation,
            origin: DropPositionOrigin::DirectMove,
            list,
            desired,
            desired_ready: true,
            released_at,
            not_before: released_at,
            retry_delay: DROP_POSITION_EAGER_RETRY,
            attempts: 0,
            view_attempts: 1,
            resolve_attempts: 0,
            probe_attempts: 0,
            position_attempts: 0,
            appeared: false,
            has_view: true,
            has_item: false,
            resolve_failures: 0,
            probe_failures: 0,
            probed: Point { x: 0, y: 0 },
            phase: Phase::Resting,
        }
    }

    /// What stops the work before its next step, if anything does; see [`stop`].
    pub fn worker_gate(&self, now: Now) -> (o: Option<Outcome>)
        ensures
            o == stop(*self, now),
    {
        if now.generation != self.generation {
            return Some(Outcome::Superseded);
        }
        let release_age: u64 = if now.time > self.released_at {
            now.time - self.released_at
        } else {
            0
        };
        match position_attempt_gate(release_age, now.pressed) {
            PositionAttemptGate::Expired => Some(Outcome::Expired),
            PositionAttemptGate::Cancelled => Some(Outcome::CancelledByInput),
            PositionAttemptGate::Continue => None,
        }
    }

    fn end(&mut self, o: Outcome) -> (request: Request)
        ensures
            (*final(self), request) == ended(*old(self), o),
    {
        self.phase = Phase::Ended;
        Request::End(o)
    }

    fn worker_pause(&mut self, now: Now, duration: u64) -> (request: Request)
        ensures
            (*final(self), request) == resting(*old(self), now, duration as int),
    {
        let release_age: u64 = if now.time > self.released_at {
            now.time - self.released_at
        } else {
            0
        };
        let left: u64 = if release_age < DROP_POSITION_TIMEOUT {
            DROP_POSITION_TIMEOUT - release_age
        } else {
            0
        };
        self.phase = Phase::Resting;
        Request::Pause(
            if duration < left {
                duration
            } else {
                left
            },
        )
    }

    fn bump(n: u32) -> (m: u32)
        ensures
            m == bumped(n),
    {
        if n < u32::MAX {
            n + 1
        } else {
            n
        }
    }

    fn bump8(n: u8) -> (m: u8)
        ensures
            m == bumped8(n),
    {
        if n < u8::MAX {
            n + 1
        } else {
            n
        }
    }

    fn drop_view(&mut self)
        ensures
            *final(self) == without_view(*old(self)),
    {
        self.has_view = false;
        self.has_item = false;
    }

    fn enter_list(&mut self, list: isize)
        ensures
            *final(self) == in_list(*old(self), list),
    {
        self.drop_view();
        self.list = list;
        self.desired_ready = false;
        self.resolve_failures = 0;
        self.probe_failures = 0;
    }

    fn begin_try(&mut self, now: Now) -> (request: Request)
        ensures
            (*final(self), request) == trying(*old(self), now),
    {
        match self.worker_gate(now) {
            Some(o) => self.end(o),
            None => if now.time < self.not_before {
                let left: u64 = self.not_before - now.time;
                let duration: u64 = if self.retry_delay < left {
                    self.retry_delay
                } else {
                    left
                };
                self.worker_pause(now, duration)
            } else {
                self.attempts = Self::bump(self.attempts);
                self.phase = Phase::Listing;
                Request::FindList
            },
        }
    }

    fn to_item(&mut self) -> (request: Request)
        ensures
            (*final(self), request) == resolving(*old(self)),
    {
        if self.has_item {
            self.to_place()
        } else {
            self.resolve_attempts = Self::bump(self.resolve_attempts);
            self.phase = Phase::Resolving;
            Request::ResolveItem
        }
    }

    fn to_place(&mut self) -> (request: Request)
        ensures
            (*final(self), request) == placing(*old(self)),
    {
        match self.origin {
            DropPositionOrigin::DirectMove => {
                self.phase = Phase::FinalListing;
                Request::FindList
            },
            DropPositionOrigin::ExplorerDrop => {
                self.probe_attempts = Self::bump(self.probe_attempts);
                self.phase = Phase::Probing;
                Request::ProbePosition
            },
        }
    }

    fn to_write(&mut self, now: Now) -> (request: Request)
        ensures
            (*final(self), request) == writing(*old(self), now),
    {
        match self.worker_gate(now) {
            Some(o) => self.end(o),
            None => {
                self.position_attempts = Self::bump(self.position_attempts);
                self.phase = Phase::Writing;
                Request::Write
            },
        }
    }

    fn probe_failure(&mut self, now: Now) -> (request: Request)
        ensures
            (*final(self), request) == probe_failed(*old(self), now),
    {
        let n: u8 = Self::bump8(self.probe_failures);
        if n >= 3 {
            self.drop_view();
            self.probe_failures = 0;
            self.resolve_failures = 0;
        } else {
            self.probe_failures = n;
        }
        self.worker_pause(now, self.retry_delay)
    }

    fn on_list(&mut self, now: Now, list: Option<isize>, arranges: bool) -> (request: Request)
        ensures
            (*final(self), request) == listed(*old(self), now, list, arranges),
    {
        match list {
            None => {
                self.drop_view();
                self.worker_pause(now, self.retry_delay)
            },
            Some(list) => {
                if list != self.list {
                    self.enter_list(list);
                }
                if arranges {
                    self.end(Outcome::AutoArrange)
                } else if self.has_view {
                    self.to_item()
                } else {
                    self.view_attempts = Self::bump(self.view_attempts);
                    self.phase = Phase::Viewing;
                    Request::GetView
                }
            },
        }
    }

    fn on_view(&mut self, now: Now, ok: bool) -> (request: Request)
        ensures
            (*final(self), request) == viewed(*old(self), now, ok),
    {
        if !ok {
            return self.worker_pause(now, self.retry_delay);
        }
        self.has_view = true;
        match self.worker_gate(now) {
            Some(o) => self.end(o),
            None => self.to_item(),
        }
    }

    fn on_item(&mut self, now: Now, ok: bool) -> (request: Request)
        ensures
            (*final(self), request) == resolved(*old(self), now, ok),
    {
        match self.worker_gate(now) {
            Some(o) => self.end(o),
            None => if ok {
                self.resolve_failures = 0;
                self.has_item = true;
                self.to_place()
            } else {
                let n: u8 = Self::bump8(self.resolve_failures);
                if n >= 3 {
                    self.has_view = false;
                    self.resolve_failures = 0;
                } else {
                    self.resolve_failures = n;
                }
                self.worker_pause(now, self.retry_delay)
            },
        }
    }

    fn on_position(&mut self, now: Now, at: Option<Point>) -> (request: Request)
        ensures
            (*final(self), request) == probed(*old(self), now, at),
    {
        match self.worker_gate(now) {
            Some(o) => self.end(o),
            None => match at {
                Some(p) => {
                    self.appeared = true;
                    self.probe_failures = 0;
                    self.probed = p;
                    self.phase = Phase::FinalListing;
                    Request::FindList
                },
                None => self.probe_failure(now),
            },
        }
    }

    fn on_final_list(&mut self, now: Now, list: Option<isize>) -> (request: Request)
        ensures
            (*final(self), request) == finally_listed(*old(self), now, list),
    {
        match list {
            None => self.end(Outcome::ViewLostBeforeWrite),
            Some(list) => if list != self.list {
                self.enter_list(list);
                self.begin_try(now)
            } else if self.origin == DropPositionOrigin::DirectMove && self.desired_ready {
                self.to_write(now)
            } else {
                self.phase = Phase::Desiring;
                Request::ComputeDesired
            },
        }
    }

    fn on_desired(&mut self, now: Now, p: Point) -> (request: Request)
        ensures
            (*final(self), request) == desired(*old(self), now, p),
    {
        self.desired = p;
        self.desired_ready = true;
        match self.origin {
            DropPositionOrigin::DirectMove => self.to_write(now),
            DropPositionOrigin::ExplorerDrop => {
                self.phase = Phase::Confirming;
                Request::FindList
            },
        }
    }

    fn on_confirm(&mut self, now: Now, list: Option<isize>) -> (request: Request)
        ensures
            (*final(self), request) == confirmed(*old(self), now, list),
    {
        let same: bool = match list {
            Some(list) => list == self.list,
            None => false,
        };
        if !same {
            self.drop_view();
            return self.begin_try(now);
        }
        match self.worker_gate(now) {
            Some(o) => self.end(o),
            None => if self.probed == self.desired {
                self.end(Outcome::AlreadyPositioned)
            } else {
                self.to_write(now)
            },
        }
    }

    fn on_written(&mut self, now: Now, ok: bool) -> (request: Request)
        ensures
            (*final(self), request) == written(*old(self), now, ok),
    {
        match self.origin {
            DropPositionOrigin::DirectMove => if ok {
                self.appeared = true;
                self.end(Outcome::PositionedEagerly)
            } else {
                self.probe_failure(now)
            },
            DropPositionOrigin::ExplorerDrop => self.end(
                if ok {
                    Outcome::Positioned
                } else {
                    Outcome::Failed
                },
            ),
        }
    }

    /// Takes in the answer to the last request and says what to do next; see [`stepped`].
    pub fn step(&mut self, now: Now, reply: Reply) -> (request: Request)
        ensures
            (*final(self), request) == stepped(*old(self), now, reply),
    {
        match (self.phase, reply) {
            (Phase::Listing, Reply::List(list, arranges)) => self.on_list(now, list, arranges),
            (Phase::Viewing, Reply::View(ok)) => self.on_view(now, ok),
            (Phase::Resolving, Reply::Item(ok)) => self.on_item(now, ok),
            (Phase::Probing, Reply::Position(at)) => self.on_position(now, at),
            (Phase::FinalListing, Reply::List(list, _)) => self.on_final_list(now, list),
            (Phase::Desiring, Reply::Desired(p)) => self.on_desired(now, p),
            (Phase::Desiring, Reply::NoDesired(arranges)) => self.end(
                if arranges {
                    Outcome::AutoArrange
                } else {
                    Outcome::GeometryFailedBeforeWrite
                },
            ),
            (Phase::Confirming, Reply::List(list, _)) => self.on_confirm(now, list),
            (Phase::Writing, Reply::Written(ok)) => self.on_written(now, ok),
            (Phase::Ended, _) => self.end(Outcome::NotAttempted),
            _ => self.begin_try(now),
        }
    }
}

/// What the worker keeps while it works: it asks for the item only with a view, for the icon and the
/// place only with both, and writes only with a place.
pub open spec fn keeps_order(w: DropWorker) -> bool {
    &&& w.has_item ==> w.has_view
    &&& match w.phase {
        Phase::Resolving => w.has_view && !w.has_item,
        Phase::Probing | Phase::FinalListing | Phase::Desiring => w.has_item,
        Phase::Confirming | Phase::Writing => w.has_item && w.desired_ready,
        _ => true,
    }
}

/// Nothing is written behind a later drop, behind a new press or two seconds behind the release: at
/// the moment the worker asks for the write, the drop is the newest, no button was pressed, and it is
/// not too late; and it has the view, the item and the place.
pub proof fn a_write_is_asked_for_only_in_time(w: DropWorker, now: Now, reply: Reply)
    requires
        keeps_order(w),
    ensures
        ({
            let (after, request) = stepped(w, now, reply);
            &&& keeps_order(after)
            &&& request == Request::Write ==> {
                &&& now.generation == w.generation
                &&& !now.pressed
                &&& age(w, now) < DROP_POSITION_TIMEOUT
                &&& after.has_view && after.has_item && after.desired_ready
            }
        }),
{
}

/// A worker that has ended asks for nothing more, and only an end that follows a write that went
/// well, or an icon found where it belongs, counts as positioned.
pub proof fn an_ended_worker_stays_ended(w: DropWorker, now: Now, reply: Reply)
    ensures
        ({
            let (after, request) = stepped(w, now, reply);
            &&& w.phase == Phase::Ended ==> after == w && request == Request::End(
                Outcome::NotAttempted,
            )
            &&& (request matches Request::End(o) && is_positioned(o)) ==> {
                ||| w.phase == Phase::Writing && reply == Reply::Written(true)
                ||| w.phase == Phase::Confirming && w.probed == w.desired
            }
        }),
{
}

/// No pause reaches past the time for the work.
pub proof fn pauses_end_in_time(w: DropWorker, now: Now, reply: Reply)
    ensures
        stepped(w, now, reply).1 matches Request::Pause(d) ==> age(w, now) + d
            <= DROP_POSITION_TIMEOUT || d == 0,
{
}

/// Whatever the answers, the worker asks for a write only within two seconds of the release, and never
/// pauses for longer than between two tries.
#[verifier::rlimit(40)]
pub proof fn a_worker_keeps_its_time(w: DropWorker, now: Now, reply: Reply)
    ensures
        stepped(w, now, reply).1 == Request::Write ==> now.time < w.released_at + 2_000_000,
        stepped(w, now, reply).1 matches Request::Pause(d) ==> d <= w.retry_delay,
{
}

/// A worker that rests begins its next try only when that is due; a later drop, two seconds behind the
/// release, and a new press each end it then.
pub proof fn a_try_begins_only_when_due(w: DropWorker, now: Now, reply: Reply)
    requires
        w.phase == Phase::Resting,
    ensures
        ({
            let request = stepped(w, now, reply).1;
            &&& now.time < w.not_before ==> request != Request::FindList
            &&& now.generation != w.generation ==> request == Request::End(Outcome::Superseded)
            &&& now.generation == w.generation && now.time >= w.released_at + 2_000_000 ==> request
                == Request::End(Outcome::Expired)
            &&& now.generation == w.generation && now.time < w.released_at + 2_000_000
                && now.pressed ==> request == Request::End(Outcome::CancelledByInput)
            &&& now.generation == w.generation && w.not_before <= now.time < w.released_at
                + 2_000_000 && !now.pressed ==> request == Request::FindList
        }),
{
    assert(stepped(w, now, reply) == trying(w, now));
}

/// Where every question is answered, the icon of Explorer's drop is found first, and then put where it
/// was dropped; one that stands there already is left alone.
pub proof fn a_dropped_icon_is_put_in_its_place(
    w: DropWorker,
    now: Now,
    list: isize,
    stands: Point,
    place: Point,
)
    requires
        w.phase == Phase::Resting,
        w.origin == DropPositionOrigin::ExplorerDrop,
        !w.has_view && !w.has_item,
        now.generation == w.generation,
        !now.pressed,
        w.not_before <= now.time < w.released_at + 2_000_000,
    ensures
        ({
            let (a, first) = stepped(w, now, Reply::Rested);
            let (b, second) = stepped(a, now, Reply::List(Some(list), false));
            let (c, third) = stepped(b, now, Reply::View(true));
            let (d, fourth) = stepped(c, now, Reply::Item(true));
            let (e, fifth) = stepped(d, now, Reply::Position(Some(stands)));
            let (f, sixth) = stepped(e, now, Reply::List(Some(list), false));
            let (g, seventh) = stepped(f, now, Reply::Desired(place));
            let (h, eighth) = stepped(g, now, Reply::List(Some(list), false));
            let (_, last) = stepped(h, now, Reply::Written(true));
            &&& first == Request::FindList && second == Request::GetView
            &&& third == Request::ResolveItem && fourth == Request::ProbePosition
            &&& fifth == Request::FindList && sixth == Request::ComputeDesired
            &&& seventh == Request::FindList
            &&& stands == place ==> eighth == Request::End(Outcome::AlreadyPositioned)
            &&& stands != place ==> eighth == Request::Write && h.desired == place && h.list
                == list && last == Request::End(Outcome::Positioned)
        }),
{
}

/// Where every question is answered, the icon of a move of our own is put where it was dropped without
/// waiting for it to show.
pub proof fn a_moved_icon_is_put_in_its_place_at_once(
    w: DropWorker,
    now: Now,
    list: isize,
    place: Point,
)
    requires
        w.phase == Phase::Resting,
        w.origin == DropPositionOrigin::DirectMove,
        w.list == list,
        w.has_view && !w.has_item,
        now.generation == w.generation,
        !now.pressed,
        w.not_before <= now.time < w.released_at + 2_000_000,
        w.desired_ready,
        w.desired == place,
    ensures
        ({
            let (a, first) = stepped(w, now, Reply::Rested);
            let (b, second) = stepped(a, now, Reply::List(Some(list), false));
            let (c, third) = stepped(b, now, Reply::Item(true));
            let (d, fourth) = stepped(c, now, Reply::List(Some(list), false));
            let (_, last) = stepped(d, now, Reply::Written(true));
            &&& first == Request::FindList && second == Request::ResolveItem
            &&& third == Request::FindList && fourth == Request::Write
            &&& d.desired == place && d.list == list
            &&& last == Request::End(Outcome::PositionedEagerly)
        }),
{
}

/// Why a drop is not placed.
#[derive(Clone, Copy, Debug, PartialEq, Eq, Structural)]
pub enum Rejection {
    NamePreexisting,
    NameUnknown,
    DeadlineElapsed,
    MissingLabel,
    ListMissing,
    NotOnDesktop,
    NewPointerInteraction,
    SupersededBeforeQueue,
    WorkerLimit,
    SpawnFailed,
}

/// The name of a reason in the log.
pub open spec fn rejection_name(r: Rejection) -> Seq<char> {
    match r {
        Rejection::NamePreexisting => "reason=desktop_name_preexisting"@,
        Rejection::NameUnknown => "reason=desktop_name_unknown"@,
        Rejection::DeadlineElapsed => "reason=release_deadline_elapsed"@,
        Rejection::MissingLabel => "reason=missing_label"@,
        Rejection::ListMissing => "reason=desktop_list_missing"@,
        Rejection::NotOnDesktop => "reason=release_not_on_desktop"@,
        Rejection::NewPointerInteraction => "reason=new_pointer_interaction"@,
        Rejection::SupersededBeforeQueue => "reason=superseded_before_queue"@,
        Rejection::WorkerLimit => "reason=worker_limit"@,
        Rejection::SpawnFailed => "reason=worker_spawn_failed"@,
    }
}

/// See [`rejection_name`].
pub fn rejection_text(r: Rejection) -> (text: String)
    ensures
        text@ == rejection_name(r),
{
    match r {
        Rejection::NamePreexisting => owned("reason=desktop_name_preexisting"),
        Rejection::NameUnknown => owned("reason=desktop_name_unknown"),
        Rejection::DeadlineElapsed => owned("reason=release_deadline_elapsed"),
        Rejection::MissingLabel => owned("reason=missing_label"),
        Rejection::ListMissing => owned("reason=desktop_list_missing"),
        Rejection::NotOnDesktop => owned("reason=release_not_on_desktop"),
        Rejection::NewPointerInteraction => owned("reason=new_pointer_interaction"),
        Rejection::SupersededBeforeQueue => owned("reason=superseded_before_queue"),
        Rejection::WorkerLimit => owned("reason=worker_limit"),
        Rejection::SpawnFailed => owned("reason=worker_spawn_failed"),
    }
}

/// What is known of a drop that asks to be placed.
pub struct DropFacts {
    pub source: String,
    pub name_state: DesktopNameState,
    pub released_at: u64,
    pub now: u64,
    /// The desktop's window.
    pub list: Option<isize>,
    /// Whether the drop was on it.
    pub on_desktop: bool,
    pub origin: DropPositionOrigin,
}

/// Why a drop with these facts is not placed, if it is not: the first reason in this order.
pub open spec fn rejection_of(f: DropFacts) -> Option<Rejection> {
    if f.name_state == DesktopNameState::Present {
        Some(Rejection::NamePreexisting)
    } else if f.name_state == DesktopNameState::Unknown {
        Some(Rejection::NameUnknown)
    } else if f.now >= f.released_at + DROP_POSITION_TIMEOUT {
        Some(Rejection::DeadlineElapsed)
    } else if file_name(f.source@) is None {
        Some(Rejection::MissingLabel)
    } else if f.list is None {
        Some(Rejection::ListMissing)
    } else if f.origin == DropPositionOrigin::ExplorerDrop && !f.on_desktop {
        Some(Rejection::NotOnDesktop)
    } else {
        None
    }
}

/// A drop is placed if and only if its name is new on the desktop, it was released less than two seconds
/// ago, it has a name, the desktop is there and, for Explorer's drop, it was dropped on it.
pub proof fn a_drop_is_placed_where_nothing_is_in_the_way(f: DropFacts)
    ensures
        rejection_of(f) is None <==> f.name_state == DesktopNameState::Absent && f.now
            < f.released_at + 2_000_000 && file_name(f.source@) is Some && f.list is Some && (
        f.on_desktop || f.origin == DropPositionOrigin::DirectMove),
{
}

/// A drop that may be placed: the name of its item and the desktop's window.
pub struct DropTicket {
    pub label: String,
    pub list: isize,
}

/// Whether a drop may be placed; see [`rejection_of`].
pub fn queue_file_at_drop_point(f: &DropFacts) -> (ticket: Result<DropTicket, Rejection>)
    ensures
        match ticket {
            Ok(t) => rejection_of(*f) is None && file_name(f.source@) == Some(t.label@) && f.list
                == Some(t.list),
            Err(r) => rejection_of(*f) == Some(r),
        },
{
    match f.name_state {
        DesktopNameState::Present => {
            return Err(Rejection::NamePreexisting);
        },
        DesktopNameState::Unknown => {
            return Err(Rejection::NameUnknown);
        },
        DesktopNameState::Absent => {},
    }
    if f.now >= f.released_at && f.now - f.released_at >= DROP_POSITION_TIMEOUT {
        return Err(Rejection::DeadlineElapsed);
    }
    match file_name_of(f.source.as_str()) {
        None => Err(Rejection::MissingLabel),
        Some(label) => match f.list {
            None => Err(Rejection::ListMissing),
            Some(list) => if f.origin == DropPositionOrigin::ExplorerDrop && !f.on_desktop {
                Err(Rejection::NotOnDesktop)
            } else {
                Ok(DropTicket { label, list })
            },
        },
    }
}

/// How many workers there are.
#[derive(Clone, Copy, Debug, PartialEq, Eq, Structural)]
pub struct WorkerSlots {
    pub active: u32,
}

impl WorkerSlots {
    /// There are never more workers than there can be.
    pub open spec fn wf(self) -> bool {
        self.active <= MAX_DROP_POSITION_WORKERS
    }

    /// No worker.
    pub fn new() -> (slots: WorkerSlots)
        ensures
            slots.active == 0,
            slots.wf(),
    {
        WorkerSlots { active: 0 }
    }

    /// Takes a place for a worker on drop `generation`, unless the button's state tells of a new
    /// press, a later drop came, or all places are taken; in this order.
    pub fn take_slot(&mut self, button: u16, generation: u64, newest: u64) -> (refused: Option<Rejection>)
        requires
            old(self).wf(),
        ensures
            refused == (if button >= 0x8000 || button % 2 == 1 {
                Some(Rejection::NewPointerInteraction)
            } else if newest != generation {
                Some(Rejection::SupersededBeforeQueue)
            } else if old(self).active == MAX_DROP_POSITION_WORKERS {
                Some(Rejection::WorkerLimit)
            } else {
                None
            }),
            final(self).active == old(self).active + if refused is None {
                1int
            } else {
                0
            },
            final(self).wf(),
    {
        if pointer_state_has_press(button) {
            return Some(Rejection::NewPointerInteraction);
        }
        if newest != generation {
            return Some(Rejection::SupersededBeforeQueue);
        }
        if self.active >= MAX_DROP_POSITION_WORKERS {
            return Some(Rejection::WorkerLimit);
        }
        self.active = self.active + 1;
        None
    }

    /// Gives a worker's place back.
    pub fn release(&mut self)
        requires
            old(self).wf(),
            old(self).active > 0,
        ensures
            final(self).active == old(self).active - 1,
            final(self).wf(),
    {
        self.active = self.active - 1;
    }
}

/// The window whose view has been got ready, and whether one is being got ready now.
#[derive(Clone, Copy, Debug, PartialEq, Eq, Structural)]
pub struct Warmup {
    pub ready_list: isize,
    pub warming: bool,
}

impl Warmup {
    /// Nothing is ready.
    pub fn new() -> (w: Warmup)
        ensures
            w == (Warmup { ready_list: 0, warming: false }),
    {
        Warmup { ready_list: 0, warming: false }
    }

    /// Whether to get the view of `list` ready now: it is not, and nothing is being got ready.
    pub fn begin(&mut self, list: Option<isize>) -> (start: bool)
        ensures
            start == (list is Some && old(self).ready_list != list->0 && !old(self).warming),
            *final(self) == (Warmup { warming: old(self).warming || start, ..*old(self) }),
    {
        match list {
            Some(list) => if self.ready_list != list && !self.warming {
                self.warming = true;
                true
            } else {
                false
            },
            None => false,
        }
    }

    /// The view of `list` was got ready, or not; it counts only if that is still the desktop.
    pub fn finish(&mut self, list: isize, ok: bool, current: Option<isize>)
        ensures
            !final(self).warming,
            final(self).ready_list == (if ok && current == Some(list) {
                list
            } else {
                old(self).ready_list
            }),
    {
        let same: bool = match current {
            Some(now) => now == list,
            None => false,
        };
        if ok && same {
            self.ready_list = list;
        }
        self.warming = false;
    }

    /// Whether the desktop's window `list` is ready to be written to at once. Where it is not, the
    /// drag is left to Explorer.
    pub fn direct_drop_positioner_ready(&self, list: Option<isize>) -> (ready: bool)
        ensures
            ready == (list is Some && self.ready_list == list->0),
    {
        match list {
            Some(list) => self.ready_list == list,
            None => false,
        }
    }
}

/// What is known when a move of our own is about to be made.
pub struct PrepareFacts {
    pub destination: String,
    pub released_at: u64,
    pub now: u64,
    pub list: Option<isize>,
    /// The window whose view has been got ready.
    pub ready_list: isize,
    /// Where the icon should stand, or why that is not known.
    pub desired: Result<Point, String>,
    /// The state of the left button.
    pub button: u16,
}

/// What a move of our own needs to be placed.
pub struct Prepared {
    pub label: String,
    pub list: isize,
    pub desired: Point,
}

/// What is in the way of placing a move of our own, if anything is: the first of these. The file is
/// then not moved at all.
pub open spec fn prepare_error(f: PrepareFacts) -> Option<Seq<char>> {
    if f.now >= f.released_at + DROP_POSITION_TIMEOUT {
        Some("desktop release expired before positioning was prepared"@)
    } else if file_name(f.destination@) is None {
        Some("desktop destination has no file name"@)
    } else if f.list is None {
        Some("desktop list view is unavailable"@)
    } else if f.ready_list != f.list->0 {
        Some("desktop positioner is not ready for the current view"@)
    } else if f.desired is Err {
        Some("desktop drop geometry is unavailable: "@ + f.desired->Err_0@)
    } else if f.button >= 0x8000 || f.button % 2 == 1 {
        Some("new pointer interaction started before positioning"@)
    } else {
        None
    }
}

/// A move of our own can be placed if and only if it was released less than two seconds ago, it has a name,
/// the desktop is there and ready, the place is known, and no button went down since.
pub proof fn a_move_is_placed_where_nothing_is_in_the_way(f: PrepareFacts)
    ensures
        prepare_error(f) is None <==> f.now < f.released_at + 2_000_000 && file_name(
            f.destination@,
        ) is Some && f.list == Some(f.ready_list) && f.desired is Ok && f.button < 0x8000
            && f.button % 2 == 0,
{
}

/// Whether a move of our own can be placed; see [`prepare_error`].
pub fn prepare_direct_drop_position(f: &PrepareFacts) -> (prepared: Result<Prepared, String>)
    ensures
        match prepared {
            Ok(p) => prepare_error(*f) is None && file_name(f.destination@) == Some(p.label@)
                && f.list == Some(p.list) && f.desired == Ok::<Point, String>(p.desired),
            Err(e) => prepare_error(*f) == Some(e@),
        },
{
    if f.now >= f.released_at && f.now - f.released_at >= DROP_POSITION_TIMEOUT {
        return Err(owned("desktop release expired before positioning was prepared"));
    }
    let label = match file_name_of(f.destination.as_str()) {
        Some(label) => label,
        None => {
            return Err(owned("desktop destination has no file name"));
        },
    };
    let list: isize = match f.list {
        Some(list) => list,
        None => {
            return Err(owned("desktop list view is unavailable"));
        },
    };
    if f.ready_list != list {
        return Err(owned("desktop positioner is not ready for the current view"));
    }
    match &f.desired {
        Err(reason) => {
            let mut text = owned("desktop drop geometry is unavailable: ");
            text.append(reason.as_str());
            Err(text)
        },
        Ok(p) => if pointer_state_has_press(f.button) {
            Err(owned("new pointer interaction started before positioning"))
        } else {
            Ok(Prepared { label, list, desired: *p })
        },
    }
}

} // verus!
