//! A fence: its state, its grid, and what its window does on each message.

pub mod grid;
pub mod interaction;
pub mod measures;
pub mod menu;
pub mod message;
pub mod model;
pub mod refresh;
pub mod render;
pub mod window;

use crate::config::FenceCfg;
use interaction::FenceInteraction;
use model::FenceModel;
use vstd::prelude::*;

verus! {

/// What is known of a fence's refresh.
#[derive(Clone, Copy, Debug, PartialEq, Eq, Structural)]
pub struct RefreshState {
    /// Whether a refresh message is under way or its timer runs.
    pub queued: bool,
    /// When the folder last changed, in nanoseconds.
    pub last_event: u128,
}

/// What to do when the refresh timer fires.
#[derive(Clone, Copy, Debug, PartialEq, Eq, Structural)]
pub enum RefreshTimerAction {
    Idle,
    /// Look again after so many milliseconds.
    Wait(u32),
    Refresh,
}

impl Default for RefreshState {
    fn default() -> (state: Self)
        ensures
            state == (RefreshState { queued: false, last_event: 0 }),
    {
        RefreshState { queued: false, last_event: 0 }
    }
}

impl RefreshState {
    /// Takes in a change at `now`; whether a refresh message has to be sent for it. While one is
    /// under way no other is.
    pub fn record_event(&mut self, now: u128) -> (send: bool)
        ensures
            (*final(self), send) == old(self).told(now),
            *final(self) == (RefreshState { queued: true, last_event: now }),
            send == !old(self).queued,
    {
        self.last_event = now;
        if self.queued {
            false
        } else {
            self.queued = true;
            true
        }
    }

    /// The state after a change at `now`, and whether a message is sent for it.
    pub open spec fn told(self, now: u128) -> (RefreshState, bool) {
        (RefreshState { queued: true, last_event: now }, !self.queued)
    }

    /// How long the folder has been quiet at `now`.
    pub open spec fn quiet(self, now: u128) -> int {
        if now > self.last_event {
            now - self.last_event
        } else {
            0
        }
    }

    /// What to do at `now`, where the folder has to be quiet for `delay` nanoseconds.
    pub open spec fn action(self, now: u128, delay: u128) -> RefreshTimerAction {
        if !self.queued {
            RefreshTimerAction::Idle
        } else if self.quiet(now) < delay {
            let ms = (delay - self.quiet(now)) / 1_000_000;
            RefreshTimerAction::Wait(
                (if ms < 1 {
                    1
                } else if ms > u32::MAX {
                    u32::MAX as int
                } else {
                    ms
                }) as u32,
            )
        } else {
            RefreshTimerAction::Refresh
        }
    }

    /// See [`RefreshState::action`].
    pub fn timer_action(&mut self, now: u128, delay: u128) -> (action: RefreshTimerAction)
        ensures
            action == old(self).action(now, delay),
            *final(self) == (RefreshState {
                queued: old(self).queued && action != RefreshTimerAction::Refresh,
                ..*old(self)
            }),
    {
        if !self.queued {
            return RefreshTimerAction::Idle;
        }
        let elapsed: u128 = if now > self.last_event {
            now - self.last_event
        } else {
            0
        };
        if elapsed < delay {
            let ms: u128 = (delay - elapsed) / 1_000_000;
            return RefreshTimerAction::Wait(
                if ms < 1 {
                    1
                } else if ms > u32::MAX as u128 {
                    u32::MAX
                } else {
                    ms as u32
                },
            );
        }
        self.queued = false;
        RefreshTimerAction::Refresh
    }
}

/// How long a folder has to be quiet before it is read again, in milliseconds.
pub const REFRESH_DEBOUNCE_MS: u32 = 150;

/// The refresh of one fence, told of by the watcher of its folder and by its timer.
#[derive(Clone, Copy, Debug, PartialEq, Eq, Structural)]
pub struct RefreshSignal {
    pub state: RefreshState,
}

impl Default for RefreshSignal {
    fn default() -> (signal: Self)
        ensures
            signal.state == (RefreshState { queued: false, last_event: 0 }),
    {
        RefreshSignal { state: RefreshState::default() }
    }
}

impl RefreshSignal {
    /// Takes in a change at `now`; whether a refresh message has to be sent. Where sending it fails,
    /// [`RefreshSignal::cancel`] follows.
    pub fn post(&mut self, now: u128) -> (send: bool)
        ensures
            (final(self).state, send) == old(self).state.told(now),
            final(self).state == (RefreshState { queued: true, last_event: now }),
            send == !old(self).state.queued,
    {
        self.state.record_event(now)
    }

    /// What to do when the timer fires at `now`.
    pub fn timer_action(&mut self, now: u128) -> (action: RefreshTimerAction)
        ensures
            action == old(self).state.action(now, 150_000_000),
            final(self).state == (RefreshState {
                queued: old(self).state.queued && action != RefreshTimerAction::Refresh,
                ..old(self).state
            }),
    {
        self.state.timer_action(now, REFRESH_DEBOUNCE_MS as u128 * 1_000_000)
    }

    /// Forgets a refresh that is under way.
    pub fn cancel(&mut self)
        ensures
            final(self).state == (RefreshState { queued: false, ..old(self).state }),
    {
        self.state.queued = false;
    }
}

/// The state after changes at `times`, one by one, with the number of messages that were sent.
pub open spec fn after_events(state: RefreshState, times: Seq<u128>) -> (RefreshState, nat)
    decreases times.len(),
{
    if times.len() == 0 {
        (state, 0)
    } else {
        let (before, sent) = after_events(state, times.drop_last());
        let (after, sends) = before.told(times.last());
        (
            after,
            sent + if sends {
                1nat
            } else {
                0nat
            },
        )
    }
}

/// However many changes come before the timer fires, one message is sent for them all; and the
/// folder is read again only once it has been quiet for the whole delay behind the last of them.
pub proof fn a_storm_of_events_sends_one_message(
    state: RefreshState,
    times: Seq<u128>,
    now: u128,
    delay: u128,
)
    requires
        times.len() > 0,
    ensures
        after_events(state, times).1 == (if state.queued {
            0nat
        } else {
            1nat
        }),
        after_events(state, times).0 == (RefreshState { queued: true, last_event: times.last() }),
        after_events(state, times).0.action(now, delay) == RefreshTimerAction::Refresh <==> now
            >= times.last() + delay || delay == 0,
    decreases times.len(),
{
    if times.len() > 1 {
        a_storm_of_events_sends_one_message(state, times.drop_last(), now, delay);
    } else {
        assert(after_events(state, times.drop_last()) == (state, 0nat));
    }
}

/// A timer that has to wait is set for what is left of the quiet time, in whole milliseconds, and for one
/// at least; so when it fires no more than a millisecond is left.
pub proof fn a_wait_is_what_is_left(state: RefreshState, now: u128, delay: u128)
    requires
        state.queued,
        now >= state.last_event,
    ensures
        state.action(now, delay) matches RefreshTimerAction::Wait(ms) ==> {
            let left = state.last_event + delay - now;
            &&& left > 0 && ms >= 1
            &&& ms == 1 || ms * 1_000_000 <= left
            &&& ms == u32::MAX || left < (ms + 1) * 1_000_000
        },
        state.action(now, delay) is Wait <==> now - state.last_event < delay,
        state.action(now, delay) is Refresh <==> now - state.last_event >= delay,
{
}

/// One fence.
pub struct Fence {
    pub cfg: FenceCfg,
    /// The handle of its window.
    pub hwnd: isize,
    /// The DPI of its window.
    pub dpi: u32,
    pub model: FenceModel,
    /// The row at the top of the grid, in millionths of a row; at rest the first row of the page.
    pub top_row: i128,
    /// Whether a page is being turned.
    pub animating: bool,
    /// When the turning began, in microseconds.
    pub anim_started: u64,
    /// Where the turning began, in millionths of a row.
    pub anim_from: i128,
    /// How many measured page turns are still to come.
    pub perf_anim_remaining: u32,
    pub interaction: FenceInteraction,
    pub refresh_signal: RefreshSignal,
    /// Whether its window is there.
    pub valid: bool,
}

impl Fence {
    /// A fence with nothing in it, for the window `hwnd` of DPI `dpi`.
    pub fn new(cfg: FenceCfg, hwnd: isize, dpi: u32) -> (f: Fence)
        ensures
            f.cfg == cfg,
            f.hwnd == hwnd,
            f.dpi == dpi,
            f.model.entries@.len() == 0,
            f.model.page == 0,
            f.model.selected is None,
            f.top_row == 0,
            !f.animating,
            f.anim_started == 0,
            f.anim_from == 0,
            f.perf_anim_remaining == 0,
            f.interaction == FenceInteraction::idle(),
            f.refresh_signal.state == (RefreshState { queued: false, last_event: 0 }),
            f.valid,
    {
        Fence {
            cfg,
            hwnd,
            dpi,
            model: FenceModel::default(),
            top_row: 0,
            animating: false,
            anim_started: 0,
            anim_from: 0,
            perf_anim_remaining: 0,
            interaction: FenceInteraction::default(),
            refresh_signal: RefreshSignal::default(),
            valid: true,
        }
    }
}

} // verus!
