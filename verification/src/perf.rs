//! What is recorded of performance, where that is asked for: the stages of drags and drops, refreshes,
//! pictures and page turns. Times are in nanoseconds. The lines wait in [`Perf::lines`] to be written.

use crate::text::{
    ascii_lowercase, bool_name, decimal, owned, parse_u32, push_bool, push_decimal, push_signed,
    same_text, signed_decimal, to_ascii_lowercase, trim, trimmed, unsigned, views,
};
use std::collections::HashMap;
use vstd::prelude::*;
use vstd::string::*;

verus! {

broadcast use vstd::std_specs::hash::group_hash_axioms;

/// `a + b`, held at the top.
pub open spec fn sum_of(a: int, b: int) -> int {
    if a + b > u128::MAX {
        u128::MAX as int
    } else {
        a + b
    }
}

fn sum(a: u128, b: u128) -> (c: u128)
    ensures
        c == sum_of(a as int, b as int),
{
    if a > u128::MAX - b {
        u128::MAX
    } else {
        a + b
    }
}

fn sum64(a: u64, b: u64) -> (c: u64)
    ensures
        c == (if a + b > u64::MAX {
            u64::MAX as int
        } else {
            a + b
        }),
{
    if a > u64::MAX - b {
        u64::MAX
    } else {
        a + b
    }
}

/// How long ago `then` was at `now`.
pub open spec fn since(then: int, now: int) -> int {
    if now > then {
        now - then
    } else {
        0
    }
}

fn elapsed_since(then: u128, now: u128) -> (d: u128)
    ensures
        d == since(then as int, now as int),
{
    if now > then {
        now - then
    } else {
        0
    }
}

/// Whole microseconds.
pub fn micros(duration: u128) -> (us: u128)
    ensures
        us == duration as int / 1000,
{
    duration / 1000
}

/// What is recorded.
pub struct Perf {
    pub enabled: bool,
    /// Whether desktop icons stay where they are while performance is recorded.
    pub safe_desktop: bool,
    pub next_drop_id: u32,
    /// When the message of each drop was sent.
    pub posted: HashMap<u32, u128>,
    /// The page turns under way, by fence.
    pub animations: HashMap<u32, AnimationSession>,
    /// The lines to be written.
    pub lines: Vec<String>,
}

/// Whether a setting of the environment means yes: `1`, `true`, `yes` or `on`.
pub open spec fn means_yes(value: Option<Seq<char>>) -> bool {
    value is Some && {
        let v = ascii_lowercase(trimmed(value->0));
        v == "1"@ || v == "true"@ || v == "yes"@ || v == "on"@
    }
}

/// See [`means_yes`].
pub fn env_flag(value: &Option<String>) -> (yes: bool)
    ensures
        yes == means_yes(crate::config::opt_view(*value)),
{
    match value {
        Some(value) => {
            let bare = trim(value.as_str());
            let v = to_ascii_lowercase(bare.as_str());
            same_text(v.as_str(), "1") || same_text(v.as_str(), "true") || same_text(
                v.as_str(),
                "yes",
            ) || same_text(v.as_str(), "on")
        },
        None => false,
    }
}

/// The number that a drag or drop gets where `next` is the next one: never 0.
pub open spec fn drop_number(next: u32) -> u32 {
    if next == 0 {
        1
    } else {
        next
    }
}

/// The number behind `id`; behind the last comes 0.
pub open spec fn number_after(id: u32) -> u32 {
    if id == u32::MAX {
        0
    } else {
        (id + 1) as u32
    }
}

/// The number of the `n`-th drag or drop from where `next` is the next one.
pub open spec fn nth_drop_number(next: u32, n: nat) -> u32
    decreases n,
{
    if n == 0 {
        drop_number(next)
    } else {
        drop_number(number_after(nth_drop_number(next, (n - 1) as nat)))
    }
}

proof fn numbers_count_up(next: u32, n: nat)
    ensures
        nth_drop_number(next, n) == 1 + (drop_number(next) - 1 + n) % (u32::MAX as int),
    decreases n,
{
    if n > 0 {
        let m = u32::MAX as int;
        let k = drop_number(next) - 1 + n - 1;
        numbers_count_up(next, (n - 1) as nat);
        vstd::arithmetic::div_mod::lemma_fundamental_div_mod(k, m);
        let (q, r) = (k / m, k % m);
        if r == m - 1 {
            assert(k + 1 == (q + 1) * m + 0) by (nonlinear_arith)
                requires
                    k == m * q + r,
                    r == m - 1,
            ;
            vstd::arithmetic::div_mod::lemma_fundamental_div_mod_converse(k + 1, m, q + 1, 0);
        } else {
            assert(k + 1 == q * m + (r + 1)) by (nonlinear_arith)
                requires
                    k == m * q + r,
            ;
            vstd::arithmetic::div_mod::lemma_fundamental_div_mod_converse(k + 1, m, q, r + 1);
        }
    }
}

/// Each drag or drop has a number of its own, which is not 0: two of them share one only where all
/// the other numbers were given in between.
pub proof fn every_drop_has_its_own_number(next: u32, i: nat, j: nat)
    requires
        i < j,
        j - i < u32::MAX,
    ensures
        nth_drop_number(next, i) != 0,
        nth_drop_number(next, i) != nth_drop_number(next, j),
{
    numbers_count_up(next, i);
    numbers_count_up(next, j);
    let m = u32::MAX as int;
    let (a, b) = (drop_number(next) - 1 + i, drop_number(next) - 1 + j);
    vstd::arithmetic::div_mod::lemma_fundamental_div_mod(a, m);
    vstd::arithmetic::div_mod::lemma_fundamental_div_mod(b, m);
    if a % m == b % m {
        assert(false) by (nonlinear_arith)
            requires
                0 < b - a < m,
                b - a == m * (b / m) - m * (a / m),
                m > 0,
        ;
    }
}

impl Perf {
    /// Whether two records differ at most in their lines, of which `now` has `line` more.
    pub open spec fn with_line(self, now: Perf, line: Seq<char>) -> bool {
        &&& views(now.lines@) == views(self.lines@).push(line)
        &&& now.enabled == self.enabled
        &&& now.safe_desktop == self.safe_desktop
        &&& now.next_drop_id == self.next_drop_id
        &&& now.posted == self.posted
        &&& now.animations == self.animations
    }

    /// Nothing recorded, under the settings of the environment.
    pub fn new(perf: &Option<String>, safe_desktop: &Option<String>) -> (p: Perf)
        ensures
            p.enabled == means_yes(crate::config::opt_view(*perf)),
            p.safe_desktop == means_yes(crate::config::opt_view(*safe_desktop)),
            p.next_drop_id == 1,
            p.posted@ == Map::<u32, u128>::empty(),
            p.animations@ == Map::<u32, AnimationSession>::empty(),
            p.lines@.len() == 0,
    {
        Perf {
            enabled: env_flag(perf),
            safe_desktop: env_flag(safe_desktop),
            next_drop_id: 1,
            posted: HashMap::new(),
            animations: HashMap::new(),
            lines: Vec::new(),
        }
    }

    fn emit(&mut self, line: String)
        ensures
            old(self).with_line(*final(self), line@),
    {
        let ghost before = views(self.lines@);
        let ghost text = line@;
        self.lines.push(line);
        assert(views(self.lines@) =~= before.push(text));
    }

    /// Takes the number of the next drag or drop, which is never 0.
    pub fn take_drop_id(&mut self) -> (id: u32)
        ensures
            id == drop_number(old(self).next_drop_id),
            final(self).next_drop_id == number_after(id),
            final(self).enabled == old(self).enabled,
            final(self).safe_desktop == old(self).safe_desktop,
            final(self).posted == old(self).posted,
            final(self).animations == old(self).animations,
            final(self).lines == old(self).lines,
    {
        let id: u32 = if self.next_drop_id == 0 {
            1
        } else {
            self.next_drop_id
        };
        self.next_drop_id = if id == u32::MAX {
            0
        } else {
            id + 1
        };
        id
    }
}

/// Whether performance is recorded.
pub fn enabled(p: &Perf) -> (yes: bool)
    ensures
        yes == p.enabled,
{
    p.enabled
}

/// Whether desktop icons stay where they are: only while performance is recorded.
pub fn safe_desktop(p: &Perf) -> (yes: bool)
    ensures
        yes == (p.enabled && p.safe_desktop),
{
    p.enabled && p.safe_desktop
}

/// The fence whose page turns are measured at the start, if the environment names one.
pub fn animation_fence_id(p: &Perf, value: &Option<String>) -> (id: Option<u32>)
    ensures
        match id {
            Some(id) => p.enabled && value is Some && unsigned(value->0@) == Some(id as int),
            None => !p.enabled || value is None || unsigned(value->0@) is None,
        },
{
    if !p.enabled {
        return None;
    }
    match value {
        Some(value) => parse_u32(value.as_str()),
        None => None,
    }
}

/// How many page turns are measured: what the environment says, from 1 to 10; 1 where it says
/// nothing.
pub open spec fn repeats_of(enabled: bool, value: Option<Seq<char>>) -> int {
    let n = if enabled && value is Some && unsigned(value->0) is Some {
        unsigned(value->0)->0
    } else {
        1
    };
    if n < 1 {
        1
    } else if n > 10 {
        10
    } else {
        n
    }
}

/// See [`repeats_of`].
pub fn animation_repeats(p: &Perf, value: &Option<String>) -> (n: u32)
    ensures
        n == repeats_of(p.enabled, crate::config::opt_view(*value)),
{
    if !p.enabled {
        return 1;
    }
    let n: u32 = match value {
        Some(value) => match parse_u32(value.as_str()) {
            Some(n) => n,
            None => 1,
        },
        None => 1,
    };
    if n < 1 {
        1
    } else if n > 10 {
        10
    } else {
        n
    }
}

/// One drag or drop, whose stages belong together. One that is not recorded has the number 0 and no
/// beginning.
#[derive(Clone, Copy, Debug)]
pub struct DropTrace {
    pub id: u32,
    pub started: Option<u128>,
}

/// The line at the beginning of a drag or drop.
pub open spec fn begin_line(id: int, direction: Seq<char>, items: int, us: int) -> Seq<char> {
    "[perf][drop] op="@ + decimal(id as nat) + " event=begin direction="@ + direction
        + " items_hint="@ + decimal(items as nat) + " since_origin_us="@ + decimal(us as nat)
}

/// The line at the end of a stage.
pub open spec fn stage_line(
    id: int,
    stage: Seq<char>,
    us: int,
    since_us: int,
    details: Seq<char>,
) -> Seq<char> {
    "[perf][drop] op="@ + decimal(id as nat) + " event=stage stage="@ + stage + " elapsed_us="@
        + decimal(us as nat) + " since_begin_us="@ + decimal(since_us as nat) + " "@ + details
}

/// The line of an event.
pub open spec fn event_line(id: int, event: Seq<char>, since_us: int, details: Seq<char>) -> Seq<
    char,
> {
    "[perf][drop] op="@ + decimal(id as nat) + " event="@ + event + " since_begin_us="@ + decimal(
        since_us as nat,
    ) + " "@ + details
}

/// The line at the end of a drag or drop.
pub open spec fn finish_line(id: int, outcome: Seq<char>, us: int, details: Seq<char>) -> Seq<char> {
    "[perf][drop] op="@ + decimal(id as nat) + " event=finish outcome="@ + outcome + " total_us="@
        + decimal(us as nat) + " "@ + details
}

impl DropTrace {
    /// Begins a drag or drop at `now` and records that.
    pub fn begin(p: &mut Perf, direction: &str, items: usize, now: u128) -> (trace: DropTrace)
        ensures
            !old(p).enabled ==> *final(p) == *old(p) && trace == (DropTrace {
                id: 0,
                started: None,
            }),
            old(p).enabled ==> {
                &&& trace.started == Some(now)
                &&& trace.id == drop_number(old(p).next_drop_id)
                &&& final(p).next_drop_id == number_after(trace.id)
                &&& views(final(p).lines@) == views(old(p).lines@).push(
                    begin_line(trace.id as int, direction@, items as int, 0),
                )
                &&& final(p).enabled
                &&& final(p).safe_desktop == old(p).safe_desktop
                &&& final(p).posted == old(p).posted
                &&& final(p).animations == old(p).animations
            },
    {
        let trace = Self::start(p, now);
        trace.announce(p, direction, items, now);
        trace
    }

    /// Begins a drag or drop at `now` without a line.
    pub fn start(p: &mut Perf, now: u128) -> (trace: DropTrace)
        ensures
            !old(p).enabled ==> *final(p) == *old(p) && trace == (DropTrace {
                id: 0,
                started: None,
            }),
            old(p).enabled ==> {
                &&& trace.started == Some(now)
                &&& trace.id == drop_number(old(p).next_drop_id)
                &&& final(p).next_drop_id == number_after(trace.id)
                &&& final(p).enabled
                &&& final(p).safe_desktop == old(p).safe_desktop
                &&& final(p).lines == old(p).lines
                &&& final(p).posted == old(p).posted
                &&& final(p).animations == old(p).animations
            },
    {
        if !p.enabled {
            return DropTrace { id: 0, started: None };
        }
        let id: u32 = p.take_drop_id();
        DropTrace { id, started: Some(now) }
    }

    /// Records the beginning.
    pub fn announce(self, p: &mut Perf, direction: &str, items: usize, now: u128)
        ensures
            self.started is None ==> *final(p) == *old(p),
            self.started matches Some(started) ==> old(p).with_line(
                *final(p),
                begin_line(
                    self.id as int,
                    direction@,
                    items as int,
                    since(started as int, now as int) / 1000,
                ),
            ),
    {
        match self.started {
            Some(started) => {
                let mut line = owned("[perf][drop] op=");
                push_decimal(&mut line, self.id as u128);
                line.append(" event=begin direction=");
                line.append(direction);
                line.append(" items_hint=");
                push_decimal(&mut line, items as u128);
                line.append(" since_origin_us=");
                push_decimal(&mut line, micros(elapsed_since(started, now)));
                p.emit(line);
            },
            None => {},
        }
    }

    /// Its number, 0 where it is not recorded.
    pub fn id(self) -> (id: u32)
        ensures
            id == self.id,
    {
        self.id
    }

    /// The beginning of a stage, where it is recorded.
    pub fn stage_start(self, now: u128) -> (at: Option<u128>)
        ensures
            at == (if self.started is Some {
                Some(now)
            } else {
                None
            }),
    {
        match self.started {
            Some(_) => Some(now),
            None => None,
        }
    }

    /// How long ago it began.
    pub fn elapsed(self, now: u128) -> (d: Option<u128>)
        ensures
            match d {
                Some(d) => self.started is Some && d == since(self.started->0 as int, now as int),
                None => self.started is None,
            },
    {
        match self.started {
            Some(started) => Some(elapsed_since(started, now)),
            None => None,
        }
    }

    /// Records the end of a stage that began at `stage_started`, where it did; `details` is asked for
    /// only then.
    pub fn finish_stage<F: FnOnce() -> String>(
        self,
        p: &mut Perf,
        stage: &str,
        stage_started: Option<u128>,
        now: u128,
        details: F,
    )
        requires
            details.requires(()),
        ensures
            stage_started is None || self.started is None ==> *final(p) == *old(p),
            stage_started is Some && self.started is Some ==> exists|d: String| #[trigger]
                details.ensures((), d) && old(p).with_line(
                    *final(p),
                    stage_line(
                        self.id as int,
                        stage@,
                        since(stage_started->0 as int, now as int) / 1000,
                        since(self.started->0 as int, now as int) / 1000,
                        d@,
                    ),
                ),
    {
        match stage_started {
            Some(began) => {
                self.record_stage(p, stage, elapsed_since(began, now), now, details);
            },
            None => {},
        }
    }

    /// Records a stage that took `elapsed`; `details` is asked for only where it is recorded.
    pub fn record_stage<F: FnOnce() -> String>(
        self,
        p: &mut Perf,
        stage: &str,
        elapsed: u128,
        now: u128,
        details: F,
    )
        requires
            details.requires(()),
        ensures
            self.started is None ==> *final(p) == *old(p),
            self.started matches Some(started) ==> exists|d: String| #[trigger]
                details.ensures((), d) && old(p).with_line(
                    *final(p),
                    stage_line(
                        self.id as int,
                        stage@,
                        elapsed as int / 1000,
                        since(started as int, now as int) / 1000,
                        d@,
                    ),
                ),
    {
        match self.started {
            Some(started) => {
                let mut line = owned("[perf][drop] op=");
                push_decimal(&mut line, self.id as u128);
                line.append(" event=stage stage=");
                line.append(stage);
                line.append(" elapsed_us=");
                push_decimal(&mut line, micros(elapsed));
                line.append(" since_begin_us=");
                push_decimal(&mut line, micros(elapsed_since(started, now)));
                line.append(" ");
                let d = details();
                line.append(d.as_str());
                p.emit(line);
            },
            None => {},
        }
    }

    /// Records an event; `details` is asked for only where it is recorded.
    pub fn event<F: FnOnce() -> String>(self, p: &mut Perf, event: &str, now: u128, details: F)
        requires
            details.requires(()),
        ensures
            self.started is None ==> *final(p) == *old(p),
            self.started matches Some(started) ==> exists|d: String| #[trigger]
                details.ensures((), d) && old(p).with_line(
                    *final(p),
                    event_line(
                        self.id as int,
                        event@,
                        since(started as int, now as int) / 1000,
                        d@,
                    ),
                ),
    {
        match self.started {
            Some(started) => {
                let mut line = owned("[perf][drop] op=");
                push_decimal(&mut line, self.id as u128);
                line.append(" event=");
                line.append(event);
                line.append(" since_begin_us=");
                push_decimal(&mut line, micros(elapsed_since(started, now)));
                line.append(" ");
                let d = details();
                line.append(d.as_str());
                p.emit(line);
            },
            None => {},
        }
    }

    /// Records the end; `details` is asked for only where it is recorded.
    pub fn finish<F: FnOnce() -> String>(self, p: &mut Perf, outcome: &str, now: u128, details: F)
        requires
            details.requires(()),
        ensures
            self.started is None ==> *final(p) == *old(p),
            self.started matches Some(started) ==> exists|d: String| #[trigger]
                details.ensures((), d) && old(p).with_line(
                    *final(p),
                    finish_line(
                        self.id as int,
                        outcome@,
                        since(started as int, now as int) / 1000,
                        d@,
                    ),
                ),
    {
        match self.started {
            Some(started) => {
                let mut line = owned("[perf][drop] op=");
                push_decimal(&mut line, self.id as u128);
                line.append(" event=finish outcome=");
                line.append(outcome);
                line.append(" total_us=");
                push_decimal(&mut line, micros(elapsed_since(started, now)));
                line.append(" ");
                let d = details();
                line.append(d.as_str());
                p.emit(line);
            },
            None => {},
        }
    }
}

/// The beginning of a stage that a posted message ends, where it is recorded.
pub fn drop_stage_start(p: &Perf, operation_id: u32, now: u128) -> (at: Option<u128>)
    ensures
        at == (if operation_id != 0 && p.enabled {
            Some(now)
        } else {
            None
        }),
{
    if operation_id != 0 && p.enabled {
        Some(now)
    } else {
        None
    }
}

/// Records a stage that a posted message ended, of a drag or drop known by its number only.
pub fn record_drop_stage<F: FnOnce() -> String>(
    p: &mut Perf,
    operation_id: u32,
    stage: &str,
    elapsed: u128,
    details: F,
)
    requires
        details.requires(()),
    ensures
        operation_id == 0 || !old(p).enabled ==> *final(p) == *old(p),
        operation_id != 0 && old(p).enabled ==> exists|d: String| #[trigger]
            details.ensures((), d) && old(p).with_line(
                *final(p),
                "[perf][drop] op="@ + decimal(operation_id as nat) + " event=stage stage="@
                    + stage@ + " elapsed_us="@ + decimal((elapsed as int / 1000) as nat) + " "@
                    + d@,
            ),
{
    if operation_id == 0 || !p.enabled {
        return ;
    }
    let mut line = owned("[perf][drop] op=");
    push_decimal(&mut line, operation_id as u128);
    line.append(" event=stage stage=");
    line.append(stage);
    line.append(" elapsed_us=");
    push_decimal(&mut line, micros(elapsed));
    line.append(" ");
    let d = details();
    line.append(d.as_str());
    p.emit(line);
}

/// Records an event of a drag or drop known by its number only.
pub fn record_drop_event<F: FnOnce() -> String>(
    p: &mut Perf,
    operation_id: u32,
    event: &str,
    details: F,
)
    requires
        details.requires(()),
    ensures
        operation_id == 0 || !old(p).enabled ==> *final(p) == *old(p),
        operation_id != 0 && old(p).enabled ==> exists|d: String| #[trigger]
            details.ensures((), d) && old(p).with_line(
                *final(p),
                "[perf][drop] op="@ + decimal(operation_id as nat) + " event="@ + event@ + " "@
                    + d@,
            ),
{
    if operation_id == 0 || !p.enabled {
        return ;
    }
    let mut line = owned("[perf][drop] op=");
    push_decimal(&mut line, operation_id as u128);
    line.append(" event=");
    line.append(event);
    line.append(" ");
    let d = details();
    line.append(d.as_str());
    p.emit(line);
}

/// Whether two records differ at most in when the messages of drops were sent.
pub open spec fn same_but_posted(a: Perf, b: Perf) -> bool {
    &&& a.enabled == b.enabled
    &&& a.safe_desktop == b.safe_desktop
    &&& a.next_drop_id == b.next_drop_id
    &&& a.animations == b.animations
    &&& a.lines == b.lines
}

/// Remembers that the message of a drop was sent at `now`.
pub fn mark_drop_posted(p: &mut Perf, operation_id: u32, now: u128)
    ensures
        same_but_posted(*old(p), *final(p)),
        final(p).posted@ == marked_posted(old(p).posted@, old(p).enabled, operation_id, now),
        final(p).posted@ == if operation_id != 0 && old(p).enabled {
            old(p).posted@.insert(operation_id, now)
        } else {
            old(p).posted@
        },
{
    if operation_id == 0 || !p.enabled {
        return ;
    }
    p.posted.insert(operation_id, now);
}

/// Forgets that the message of a drop was sent.
pub fn cancel_drop_posted(p: &mut Perf, operation_id: u32)
    ensures
        same_but_posted(*old(p), *final(p)),
        final(p).posted@ == if operation_id != 0 && old(p).enabled {
            old(p).posted@.remove(operation_id)
        } else {
            old(p).posted@
        },
{
    if operation_id == 0 || !p.enabled {
        return ;
    }
    p.posted.remove(&operation_id);
}

/// How long ago the message of a drop was sent, and forgets that.
pub fn take_drop_post_delay(p: &mut Perf, operation_id: u32, now: u128) -> (delay: Option<u128>)
    ensures
        same_but_posted(*old(p), *final(p)),
        final(p).posted@ == if operation_id != 0 && old(p).enabled {
            old(p).posted@.remove(operation_id)
        } else {
            old(p).posted@
        },
        final(p).posted@ == delay_taken(old(p).posted@, old(p).enabled, operation_id, now).1,
        match delay {
            Some(d) => delay_taken(old(p).posted@, old(p).enabled, operation_id, now).0 == Some(
                d as int,
            ),
            None => delay_taken(old(p).posted@, old(p).enabled, operation_id, now).0 is None,
        },
        match delay {
            Some(d) => operation_id != 0 && old(p).enabled && old(p).posted@.contains_key(
                operation_id,
            ) && d == since(old(p).posted@[operation_id] as int, now as int),
            None => operation_id == 0 || !old(p).enabled || !old(p).posted@.contains_key(
                operation_id,
            ),
        },
{
    if operation_id == 0 || !p.enabled {
        return None;
    }
    match p.posted.remove(&operation_id) {
        Some(posted) => Some(elapsed_since(posted, now)),
        None => None,
    }
}

/// A drop's message is timed once: what was marked comes back with its age, and then no more; drops without
/// a number are not timed.
pub proof fn a_delay_is_taken_once(posted: Map<u32, u128>, id: u32, at: u128, now: u128, other: u32)
    requires
        at <= now,
        id != 0,
        other != id,
    ensures
        ({
            let marked = marked_posted(posted, true, id, at);
            let (delay, left) = delay_taken(marked, true, id, now);
            &&& delay == Some(now - at)
            &&& delay_taken(left, true, id, now).0 is None
            &&& marked.contains_key(other) == posted.contains_key(other)
            &&& left.contains_key(other) == posted.contains_key(other)
            &&& marked_posted(posted, true, 0, at) == posted && marked_posted(
                posted,
                false,
                id,
                at,
            ) == posted
        }),
{
}

/// The messages that were sent, with that of drop `id` at `now`; where performance is recorded.
pub open spec fn marked_posted(posted: Map<u32, u128>, enabled: bool, id: u32, now: u128) -> Map<
    u32,
    u128,
> {
    if id != 0 && enabled {
        posted.insert(id, now)
    } else {
        posted
    }
}

/// How long ago the message of drop `id` was sent, where that is known, and the others.
pub open spec fn delay_taken(posted: Map<u32, u128>, enabled: bool, id: u32, now: u128) -> (
    Option<int>,
    Map<u32, u128>,
) {
    if id != 0 && enabled {
        (
            if posted.contains_key(id) {
                Some(since(posted[id] as int, now as int))
            } else {
                None
            },
            posted.remove(id),
        )
    } else {
        (None, posted)
    }
}

/// What was measured of one picture.
#[derive(Clone, Copy, Debug, PartialEq, Eq, Structural)]
pub struct RenderSample {
    pub width: i32,
    pub height: i32,
    pub entries: usize,
    pub ensure_cache: u128,
    pub clear: u128,
    pub gdi_plus: u128,
    pub icon_hits: u64,
    pub icon_misses: u64,
    pub icon_hit_time: u128,
    pub icon_miss_time: u128,
    pub label_count: u64,
    pub label_time: u128,
    pub gdi_icons: u128,
    pub premultiply: u128,
    pub update_layered_window: u128,
    pub total: u128,
}

/// A sample in which nothing was measured.
pub open spec fn empty_sample() -> RenderSample {
    RenderSample {
        width: 0,
        height: 0,
        entries: 0,
        ensure_cache: 0,
        clear: 0,
        gdi_plus: 0,
        icon_hits: 0,
        icon_misses: 0,
        icon_hit_time: 0,
        icon_miss_time: 0,
        label_count: 0,
        label_time: 0,
        gdi_icons: 0,
        premultiply: 0,
        update_layered_window: 0,
        total: 0,
    }
}

impl Default for RenderSample {
    fn default() -> (s: Self)
        ensures
            s == empty_sample(),
    {
        RenderSample {
            width: 0,
            height: 0,
            entries: 0,
            ensure_cache: 0,
            clear: 0,
            gdi_plus: 0,
            icon_hits: 0,
            icon_misses: 0,
            icon_hit_time: 0,
            icon_miss_time: 0,
            label_count: 0,
            label_time: 0,
            gdi_icons: 0,
            premultiply: 0,
            update_layered_window: 0,
            total: 0,
        }
    }
}

/// One page turn: when it began, its pictures, and what they took.
pub struct AnimationSession {
    pub started: u128,
    pub last_frame: Option<u128>,
    pub frame_times: Vec<u128>,
    pub frame_intervals: Vec<u128>,
    pub stage_totals: RenderSample,
}

/// `total` with `s` added: the size and the entries are those of `s`, the times and counts add up.
pub open spec fn sample_added(total: RenderSample, s: RenderSample) -> RenderSample {
    RenderSample {
        width: s.width,
        height: s.height,
        entries: s.entries,
        ensure_cache: sum_of(total.ensure_cache as int, s.ensure_cache as int) as u128,
        clear: sum_of(total.clear as int, s.clear as int) as u128,
        gdi_plus: sum_of(total.gdi_plus as int, s.gdi_plus as int) as u128,
        icon_hits: count_of(total.icon_hits, s.icon_hits),
        icon_misses: count_of(total.icon_misses, s.icon_misses),
        icon_hit_time: sum_of(total.icon_hit_time as int, s.icon_hit_time as int) as u128,
        icon_miss_time: sum_of(total.icon_miss_time as int, s.icon_miss_time as int) as u128,
        label_count: count_of(total.label_count, s.label_count),
        label_time: sum_of(total.label_time as int, s.label_time as int) as u128,
        gdi_icons: sum_of(total.gdi_icons as int, s.gdi_icons as int) as u128,
        premultiply: sum_of(total.premultiply as int, s.premultiply as int) as u128,
        update_layered_window: sum_of(
            total.update_layered_window as int,
            s.update_layered_window as int,
        ) as u128,
        total: sum_of(total.total as int, s.total as int) as u128,
    }
}

/// `a + b`, held at the top.
pub open spec fn count_of(a: u64, b: u64) -> u64 {
    (if a + b > u64::MAX {
        u64::MAX as int
    } else {
        a + b
    }) as u64
}

/// See [`sample_added`].
pub fn add_render_sample(total: &mut RenderSample, sample: RenderSample)
    ensures
        *final(total) == sample_added(*old(total), sample),
{
    total.width = sample.width;
    total.height = sample.height;
    total.entries = sample.entries;
    total.ensure_cache = sum(total.ensure_cache, sample.ensure_cache);
    total.clear = sum(total.clear, sample.clear);
    total.gdi_plus = sum(total.gdi_plus, sample.gdi_plus);
    total.icon_hits = sum64(total.icon_hits, sample.icon_hits);
    total.icon_misses = sum64(total.icon_misses, sample.icon_misses);
    total.icon_hit_time = sum(total.icon_hit_time, sample.icon_hit_time);
    total.icon_miss_time = sum(total.icon_miss_time, sample.icon_miss_time);
    total.label_count = sum64(total.label_count, sample.label_count);
    total.label_time = sum(total.label_time, sample.label_time);
    total.gdi_icons = sum(total.gdi_icons, sample.gdi_icons);
    total.premultiply = sum(total.premultiply, sample.premultiply);
    total.update_layered_window = sum(total.update_layered_window, sample.update_layered_window);
    total.total = sum(total.total, sample.total);
}

/// What drawing itself took: without the time in which icons were looked up.
pub open spec fn draw_time(s: RenderSample) -> int {
    let lookup = sum_of(s.icon_hit_time as int, s.icon_miss_time as int);
    let plus = if s.gdi_plus > lookup {
        s.gdi_plus - lookup
    } else {
        0
    };
    sum_of(sum_of(sum_of(s.clear as int, plus), s.gdi_icons as int), s.premultiply as int)
}

/// See [`draw_time`].
pub fn cpu_draw_time(sample: RenderSample) -> (d: u128)
    ensures
        d == draw_time(sample),
{
    let lookup: u128 = sum(sample.icon_hit_time, sample.icon_miss_time);
    let plus: u128 = if sample.gdi_plus > lookup {
        sample.gdi_plus - lookup
    } else {
        0
    };
    sum(sum(sum(sample.clear, plus), sample.gdi_icons), sample.premultiply)
}

/// The sum of `values`, held at the top.
pub open spec fn total_of(values: Seq<u128>) -> int
    decreases values.len(),
{
    if values.len() == 0 {
        0
    } else {
        sum_of(total_of(values.drop_last()), values.last() as int)
    }
}

fn total(values: &[u128]) -> (t: u128)
    ensures
        t == total_of(values@),
{
    let mut t: u128 = 0;
    for i in 0..values.len()
        invariant
            t == total_of(values@.take(i as int)),
    {
        assert(values@.take(i + 1).drop_last() =~= values@.take(i as int));
        t = sum(t, values[i]);
    }
    assert(values@.take(values@.len() as int) =~= values@);
    t
}

/// The mean of `values`, 0 where there are none.
pub open spec fn mean(values: Seq<u128>) -> int {
    if values.len() == 0 {
        0
    } else {
        total_of(values) / values.len() as int
    }
}

/// The mean times the number of values is their sum, but for what is left over of a division; and it is
/// not below the least nor above the greatest of them.
pub proof fn the_mean_is_between(values: Seq<u128>, low: u128, high: u128)
    requires
        values.len() > 0,
        forall|i: int| 0 <= i < values.len() ==> low <= #[trigger] values[i] <= high,
        high * values.len() <= u128::MAX,
    ensures
        mean(values) * values.len() <= total_of(values) < (mean(values) + 1) * values.len(),
        low <= mean(values) <= high,
{
    sum_is_bounded(values, low, high);
    let (t, n, m) = (total_of(values), values.len() as int, mean(values));
    assert(m * n <= t && t < (m + 1) * n) by (nonlinear_arith)
        requires
            m == t / n,
            n > 0,
    ;
    assert(low <= m <= high) by (nonlinear_arith)
        requires
            m * n <= t < (m + 1) * n,
            low * n <= t <= high * n,
            n > 0,
    ;
}

proof fn sum_is_bounded(values: Seq<u128>, low: u128, high: u128)
    requires
        forall|i: int| 0 <= i < values.len() ==> low <= #[trigger] values[i] <= high,
        high * values.len() <= u128::MAX,
    ensures
        low * values.len() <= total_of(values) <= high * values.len(),
    decreases values.len(),
{
    if values.len() > 0 {
        let t = values.drop_last();
        let n = t.len() as int;
        assert forall|i: int| 0 <= i < t.len() implies low <= #[trigger] t[i] <= high by {
            assert(t[i] == values[i]);
        }
        assert(high * n <= high * (n + 1) && low * (n + 1) == low * n + low && high * (n + 1) == high
            * n + high) by (nonlinear_arith)
            requires
                high >= 0,
        ;
        sum_is_bounded(t, low, high);
        assert(low <= values[values.len() - 1] <= high);
    } else {
        assert(low * 0 == 0 && high * 0 == 0) by (nonlinear_arith);
    }
}

/// See [`mean`].
pub fn average(values: &[u128]) -> (m: u128)
    ensures
        m == mean(values@),
{
    if values.len() == 0 {
        0
    } else {
        total(values) / (values.len() as u128)
    }
}

/// Whether each value is at most the next.
pub open spec fn ascending(s: Seq<u128>) -> bool {
    forall|i: int, j: int| 0 <= i < j < s.len() ==> s[i] <= s[j]
}

/// Whether `v` is the value of rank `k` among `values`: the one at `k` when they are put in order.
pub open spec fn has_rank(values: Seq<u128>, k: int, v: u128) -> bool {
    exists|s: Seq<u128>| #[trigger]
        ascending(s) && s.to_multiset() == values.to_multiset() && 0 <= k < s.len() && s[k] == v
}

proof fn insert_multiset(s: Seq<u128>, k: int, x: u128)
    requires
        0 <= k <= s.len(),
    ensures
        s.insert(k, x).to_multiset() == s.to_multiset().insert(x),
{
    broadcast use vstd::seq_lib::group_to_multiset_ensures;

    let t = s.insert(k, x);
    assert(t.remove(k) =~= s);
    assert(t[k] == x);
    assert(t.contains(x));
    assert(t.remove(k).to_multiset() =~= t.to_multiset().remove(x));
    assert(t.to_multiset().remove(x).insert(x) =~= t.to_multiset());
}

fn sorted(values: &[u128]) -> (out: Vec<u128>)
    ensures
        ascending(out@),
        out@.to_multiset() == values@.to_multiset(),
        out@.len() == values@.len(),
{
    let mut out: Vec<u128> = Vec::new();
    assert(values@.take(0) =~= Seq::empty());
    assert(out@ =~= values@.take(0));
    for i in 0..values.len()
        invariant
            ascending(out@),
            out@.len() == i,
            out@.to_multiset() == values@.take(i as int).to_multiset(),
    {
        let x: u128 = values[i];
        let mut k: usize = out.len();
        while k > 0 && out[k - 1] > x
            invariant
                k <= out@.len(),
                ascending(out@),
                forall|j: int| k <= j < out@.len() ==> out@[j] > x,
            decreases k,
        {
            k -= 1;
        }
        proof {
            broadcast use vstd::seq_lib::group_to_multiset_ensures;

            insert_multiset(out@, k as int, x);
            assert(values@.take(i + 1) =~= values@.take(i as int).push(x));
        }
        let ghost before = out@;
        out.insert(k, x);
        assert(ascending(out@)) by {
            assert forall|a: int, b: int| 0 <= a < b < out@.len() implies out@[a] <= out@[b] by {
                if b < k {
                } else if b == k {
                    assert(out@[a] == before[a]);
                    assert(before[a] <= before[k - 1]);
                } else if a == k {
                    assert(out@[b] == before[b - 1]);
                } else if a < k {
                    assert(out@[b] == before[b - 1]);
                } else {
                    assert(out@[a] == before[a - 1] && out@[b] == before[b - 1]);
                }
            }
        }
    }
    assert(values@.take(values@.len() as int) =~= values@);
    out
}

/// The rank at `hundredths` among `n` values: rounded up.
pub open spec fn rank_of(n: int, hundredths: int) -> int {
    ((n - 1) * hundredths + 99) / 100
}

/// The rank is the least one behind which no more than the given share of the values lies; it is that of
/// the least value for nothing, and of the greatest for all.
pub proof fn the_rank_is_the_nearest_above(n: int, hundredths: int)
    requires
        n > 0,
        0 <= hundredths <= 100,
    ensures
        100 * (rank_of(n, hundredths) - 1) < (n - 1) * hundredths <= 100 * rank_of(n, hundredths),
        0 <= rank_of(n, hundredths) < n,
        hundredths == 0 ==> rank_of(n, hundredths) == 0,
        hundredths == 100 ==> rank_of(n, hundredths) == n - 1,
{
    let p = (n - 1) * hundredths;
    assert(0 <= p <= (n - 1) * 100) by (nonlinear_arith)
        requires
            n > 0,
            0 <= hundredths <= 100,
            p == (n - 1) * hundredths,
    ;
    if hundredths == 0 {
        assert(p == 0) by (nonlinear_arith)
            requires
                hundredths == 0,
                p == (n - 1) * hundredths,
        ;
    }
}

/// The value at the nearest rank above `hundredths`, 0 where there are none.
pub fn percentile(values: &[u128], hundredths: usize) -> (v: u128)
    requires
        values@.len() > 1 ==> hundredths <= 100,
    ensures
        values@.len() == 0 ==> v == 0,
        values@.len() > 0 ==> has_rank(
            values@,
            rank_of(values@.len() as int, hundredths as int),
            v,
        ),
{
    if values.len() == 0 {
        return 0;
    }
    let in_order = sorted(values);
    if values.len() == 1 {
        assert(0 * (hundredths as int) == 0) by (nonlinear_arith);
        assert(rank_of(1, hundredths as int) == 0);
        assert(ascending(in_order@));
        return in_order[0];
    }
    let n: u128 = values.len() as u128;
    proof {
        let (a, b) = (n as int - 1, hundredths as int);
        assert(0 <= a * b <= a * 100) by (nonlinear_arith)
            requires
                0 <= a,
                0 <= b <= 100,
        ;
    }
    let index: u128 = ((n - 1) * (hundredths as u128) + 99) / 100;
    assert(ascending(in_order@));
    in_order[index as usize]
}

/// The value of a rank is one value: there is one way to put values in order.
pub proof fn a_rank_has_one_value(values: Seq<u128>, k: int, v: u128, w: u128)
    requires
        has_rank(values, k, v),
        has_rank(values, k, w),
    ensures
        v == w,
{
    let s = choose|s: Seq<u128>| #[trigger]
        ascending(s) && s.to_multiset() == values.to_multiset() && 0 <= k < s.len() && s[k] == v;
    let t = choose|t: Seq<u128>| #[trigger]
        ascending(t) && t.to_multiset() == values.to_multiset() && 0 <= k < t.len() && t[k] == w;
    let leq = |a: u128, b: u128| a <= b;
    assert(vstd::relations::sorted_by(s, leq));
    assert(vstd::relations::sorted_by(t, leq));
    vstd::seq_lib::lemma_sorted_unique(s, t, leq);
}

/// Whole microseconds for each of `count`, 0 where there are none.
pub open spec fn average_us(total: int, count: int) -> int {
    if count == 0 {
        0
    } else {
        total / 1000 / count
    }
}

/// See [`average_us`].
pub fn average_for_count(total: u128, count: u64) -> (us: u128)
    ensures
        us == average_us(total as int, count as int),
{
    if count == 0 {
        0
    } else {
        total / 1000 / (count as u128)
    }
}

impl AnimationSession {
    /// A page turn that began at `now`, without a picture.
    pub fn new(now: u128) -> (s: AnimationSession)
        ensures
            s.started == now,
            s.last_frame is None,
            s.frame_times@.len() == 0,
            s.frame_intervals@.len() == 0,
            s.stage_totals == empty_sample(),
    {
        AnimationSession {
            started: now,
            last_frame: None,
            frame_times: Vec::new(),
            frame_intervals: Vec::new(),
            stage_totals: RenderSample::default(),
        }
    }

    /// The page turn after a picture at `now`.
    pub open spec fn pushed(self, next: AnimationSession, sample: RenderSample, now: u128) -> bool {
        &&& next.started == self.started
        &&& next.last_frame == Some(now)
        &&& next.frame_times@ == self.frame_times@.push(sample.total)
        &&& next.frame_intervals@ == (match self.last_frame {
            Some(last) => self.frame_intervals@.push(since(last as int, now as int) as u128),
            None => self.frame_intervals@,
        })
        &&& next.stage_totals == sample_added(self.stage_totals, sample)
    }

    /// Takes in a picture that was finished at `now`.
    pub fn push(&mut self, sample: RenderSample, now: u128)
        ensures
            old(self).pushed(*final(self), sample, now),
    {
        match self.last_frame {
            Some(last) => {
                self.frame_intervals.push(elapsed_since(last, now));
            },
            None => {},
        }
        self.last_frame = Some(now);
        self.frame_times.push(sample.total);
        add_render_sample(&mut self.stage_totals, sample);
    }
}

/// Whether two records differ at most in the page turns under way.
pub open spec fn same_but_animations(a: Perf, b: Perf) -> bool {
    &&& a.enabled == b.enabled
    &&& a.safe_desktop == b.safe_desktop
    &&& a.next_drop_id == b.next_drop_id
    &&& a.posted == b.posted
}

/// A page turn of fence `fence_id` begins.
pub fn begin_animation(p: &mut Perf, fence_id: u32, now: u128)
    ensures
        same_but_animations(*old(p), *final(p)),
        final(p).lines == old(p).lines,
        !old(p).enabled ==> final(p).animations == old(p).animations,
        old(p).enabled ==> {
            &&& final(p).animations@.contains_key(fence_id)
            &&& final(p).animations@ == old(p).animations@.insert(
                fence_id,
                final(p).animations@[fence_id],
            )
            &&& final(p).animations@[fence_id].started == now
            &&& final(p).animations@[fence_id].last_frame is None
            &&& final(p).animations@[fence_id].frame_times@.len() == 0
            &&& final(p).animations@[fence_id].frame_intervals@.len() == 0
            &&& final(p).animations@[fence_id].stage_totals == empty_sample()
        },
{
    if !p.enabled {
        return ;
    }
    p.animations.insert(fence_id, AnimationSession::new(now));
}

/// The line of a refresh.
pub open spec fn refresh_line(
    fence_id: int,
    dir: Seq<char>,
    entries: int,
    read: int,
    sort: int,
    total: int,
    ok: bool,
) -> Seq<char> {
    "[perf][refresh] fence="@ + decimal(fence_id as nat) + " entries="@ + decimal(entries as nat)
        + " read_us="@ + decimal((read / 1000) as nat) + " sort_us="@ + decimal(
        (sort / 1000) as nat,
    ) + " total_us="@ + decimal((total / 1000) as nat) + " ok="@ + bool_name(ok) + " dir="@ + dir
}

/// Records a refresh.
pub fn record_refresh(
    p: &mut Perf,
    fence_id: u32,
    dir: &str,
    entries: usize,
    read: u128,
    sort: u128,
    total: u128,
    succeeded: bool,
)
    ensures
        !old(p).enabled ==> *final(p) == *old(p),
        old(p).enabled ==> old(p).with_line(
            *final(p),
            refresh_line(
                fence_id as int,
                dir@,
                entries as int,
                read as int,
                sort as int,
                total as int,
                succeeded,
            ),
        ),
{
    if !p.enabled {
        return ;
    }
    let mut line = owned("[perf][refresh] fence=");
    push_decimal(&mut line, fence_id as u128);
    line.append(" entries=");
    push_decimal(&mut line, entries as u128);
    line.append(" read_us=");
    push_decimal(&mut line, micros(read));
    line.append(" sort_us=");
    push_decimal(&mut line, micros(sort));
    line.append(" total_us=");
    push_decimal(&mut line, micros(total));
    line.append(" ok=");
    push_bool(&mut line, succeeded);
    line.append(" dir=");
    line.append(dir);
    p.emit(line);
}

/// The line of one picture.
pub open spec fn render_line(kind: Seq<char>, fence_id: int, s: RenderSample) -> Seq<char> {
    "[perf]["@ + kind + "] fence="@ + decimal(fence_id as nat) + " size="@ + signed_decimal(
        s.width as int,
    ) + "x"@ + signed_decimal(s.height as int) + " entries="@ + decimal(s.entries as nat)
        + " total_us="@ + us(s.total as int) + " cpu_draw_us="@ + us(draw_time(s))
        + " gdi_plus_wall_us="@ + us(s.gdi_plus as int) + " labels="@ + decimal(
        s.label_count as nat,
    ) + " label_us="@ + us(s.label_time as int) + " label_avg_us="@ + decimal(
        average_us(s.label_time as int, s.label_count as int) as nat,
    ) + " gdi_icons_us="@ + us(s.gdi_icons as int) + " icon_hits="@ + decimal(s.icon_hits as nat)
        + " icon_misses="@ + decimal(s.icon_misses as nat) + " icon_hit_us="@ + us(
        s.icon_hit_time as int,
    ) + " icon_miss_us="@ + us(s.icon_miss_time as int) + " clear_us="@ + us(s.clear as int)
        + " premultiply_us="@ + us(s.premultiply as int) + " ulw_us="@ + us(
        s.update_layered_window as int,
    ) + " cache_us="@ + us(s.ensure_cache as int)
}

/// Whole microseconds, written down.
pub open spec fn us(ns: int) -> Seq<char> {
    decimal((ns / 1000) as nat)
}

fn push_us(line: &mut String, label: &str, ns: u128)
    ensures
        final(line)@ == old(line)@ + label@ + us(ns as int),
{
    line.append(label);
    push_decimal(line, micros(ns));
}

fn push_count(line: &mut String, label: &str, n: u128)
    ensures
        final(line)@ == old(line)@ + label@ + decimal(n as nat),
{
    line.append(label);
    push_decimal(line, n);
}

fn render_text(kind: &str, fence_id: u32, s: RenderSample) -> (line: String)
    ensures
        line@ == render_line(kind@, fence_id as int, s),
{
    let mut line = owned("[perf][");
    line.append(kind);
    push_count(&mut line, "] fence=", fence_id as u128);
    line.append(" size=");
    push_signed(&mut line, s.width);
    line.append("x");
    push_signed(&mut line, s.height);
    push_count(&mut line, " entries=", s.entries as u128);
    push_us(&mut line, " total_us=", s.total);
    push_us(&mut line, " cpu_draw_us=", cpu_draw_time(s));
    push_us(&mut line, " gdi_plus_wall_us=", s.gdi_plus);
    push_count(&mut line, " labels=", s.label_count as u128);
    push_us(&mut line, " label_us=", s.label_time);
    push_count(&mut line, " label_avg_us=", average_for_count(s.label_time, s.label_count));
    push_us(&mut line, " gdi_icons_us=", s.gdi_icons);
    push_count(&mut line, " icon_hits=", s.icon_hits as u128);
    push_count(&mut line, " icon_misses=", s.icon_misses as u128);
    push_us(&mut line, " icon_hit_us=", s.icon_hit_time);
    push_us(&mut line, " icon_miss_us=", s.icon_miss_time);
    push_us(&mut line, " clear_us=", s.clear);
    push_us(&mut line, " premultiply_us=", s.premultiply);
    push_us(&mut line, " ulw_us=", s.update_layered_window);
    push_us(&mut line, " cache_us=", s.ensure_cache);
    line
}

/// How long a picture may take before it is late.
pub const FRAME_BUDGET: u128 = 16_000_000;

/// How many of `times` are late.
pub open spec fn late(times: Seq<u128>) -> int
    decreases times.len(),
{
    if times.len() == 0 {
        0
    } else {
        late(times.drop_last()) + if times.last() > FRAME_BUDGET {
            1int
        } else {
            0
        }
    }
}

proof fn late_bounds(times: Seq<u128>)
    ensures
        0 <= late(times) <= times.len(),
    decreases times.len(),
{
    if times.len() > 0 {
        late_bounds(times.drop_last());
    }
}

fn count_late(times: &[u128]) -> (n: u128)
    ensures
        n == late(times@),
{
    let mut n: u128 = 0;
    for i in 0..times.len()
        invariant
            n == late(times@.take(i as int)),
            n <= i,
    {
        assert(times@.take(i + 1).drop_last() =~= times@.take(i as int));
        if times[i] > FRAME_BUDGET {
            n += 1;
        }
    }
    assert(times@.take(times@.len() as int) =~= times@);
    n
}

/// The largest of `times`, 0 where there are none.
pub open spec fn largest(times: Seq<u128>) -> int
    decreases times.len(),
{
    if times.len() == 0 {
        0
    } else {
        let before = largest(times.drop_last());
        if times.last() > before {
            times.last() as int
        } else {
            before
        }
    }
}

fn maximum(times: &[u128]) -> (m: u128)
    ensures
        m == largest(times@),
{
    let mut m: u128 = 0;
    for i in 0..times.len()
        invariant
            m == largest(times@.take(i as int)),
    {
        assert(times@.take(i + 1).drop_last() =~= times@.take(i as int));
        if times[i] > m {
            m = times[i];
        }
    }
    assert(times@.take(times@.len() as int) =~= times@);
    m
}

/// The largest is as large as each of them, and one of them; and as many are late as took longer than 16
/// milliseconds.
pub proof fn the_largest_is_one_of_them(times: Seq<u128>, i: int)
    requires
        0 <= i < times.len(),
    ensures
        times[i] <= largest(times),
        exists|k: int| 0 <= k < times.len() && #[trigger] times[k] == largest(times),
        late(times.push(16_000_001)) == late(times) + 1,
        late(times.push(16_000_000)) == late(times),
        late(Seq::empty()) == 0,
    decreases times.len(),
{
    let t = times.drop_last();
    let n = times.len() - 1;
    assert(times.push(16_000_001).drop_last() =~= times);
    assert(times.push(16_000_000).drop_last() =~= times);
    if t.len() > 0 {
        the_largest_is_one_of_them(t, if i < n {
            i
        } else {
            0
        });
        let k = choose|k: int| 0 <= k < t.len() && #[trigger] t[k] == largest(t);
        assert(times[k] == largest(t));
        if i < n {
            assert(t[i] == times[i]);
        }
    } else {
        assert(largest(t) == 0);
    }
    assert(times[n] == times.last());
}

/// Whether `v` is the value at the 95th hundredth of `times`, 0 where there are none.
pub open spec fn is_p95(times: Seq<u128>, v: u128) -> bool {
    if times.len() == 0 {
        v == 0
    } else {
        has_rank(times, rank_of(times.len() as int, 95), v)
    }
}

/// The line of a page turn of `fence_id` that ends at `now`, with the values at the 95th hundredth.
pub open spec fn animation_line(
    fence_id: int,
    s: AnimationSession,
    now: int,
    frame_p95: int,
    interval_p95: int,
) -> Seq<char> {
    let frames = s.frame_times@.len() as int;
    let t = s.stage_totals;
    "[perf][animation] fence="@ + decimal(fence_id as nat) + " frames="@ + decimal(frames as nat)
        + " elapsed_ms="@ + decimal((since(s.started as int, now) / 1_000_000) as nat)
        + " frame_avg_us="@ + us(total_of(s.frame_times@) / frames) + " frame_p95_us="@ + us(
        frame_p95,
    ) + " frame_max_us="@ + us(largest(s.frame_times@)) + " over_16ms="@ + decimal(
        late(s.frame_times@) as nat,
    ) + " interval_avg_us="@ + us(mean(s.frame_intervals@)) + " interval_p95_us="@ + us(
        interval_p95,
    ) + " interval_max_us="@ + us(largest(s.frame_intervals@)) + " cpu_draw_avg_us="@ + us(
        draw_time(t) / frames,
    ) + " gdi_plus_wall_avg_us="@ + us(t.gdi_plus as int / frames) + " labels_total="@ + decimal(
        t.label_count as nat,
    ) + " label_avg_frame_us="@ + us(t.label_time as int / frames) + " label_avg_item_us="@
        + decimal(average_us(t.label_time as int, t.label_count as int) as nat)
        + " gdi_icons_avg_us="@ + us(t.gdi_icons as int / frames) + " icon_hits_total="@ + decimal(
        t.icon_hits as nat,
    ) + " icon_miss_total="@ + decimal(t.icon_misses as nat) + " icon_miss_avg_us="@ + decimal(
        average_us(t.icon_miss_time as int, t.icon_misses as int) as nat,
    ) + " premultiply_avg_us="@ + us(t.premultiply as int / frames) + " ulw_avg_us="@ + us(
        t.update_layered_window as int / frames,
    )
}

/// Whether `line` is the line of a page turn.
pub open spec fn is_animation_line(
    line: Seq<char>,
    fence_id: int,
    s: AnimationSession,
    now: int,
) -> bool {
    exists|f: u128, i: u128|
        #![trigger is_p95(s.frame_times@, f), is_p95(s.frame_intervals@, i)]
        is_p95(s.frame_times@, f) && is_p95(s.frame_intervals@, i) && line == animation_line(
            fence_id,
            s,
            now,
            f as int,
            i as int,
        )
}

fn animation_text(fence_id: u32, s: &AnimationSession, now: u128) -> (line: String)
    requires
        s.frame_times@.len() > 0,
    ensures
        is_animation_line(line@, fence_id as int, *s, now as int),
{
    let frames: u128 = s.frame_times.len() as u128;
    let t = s.stage_totals;
    let frame_p95: u128 = percentile(s.frame_times.as_slice(), 95);
    let interval_p95: u128 = percentile(s.frame_intervals.as_slice(), 95);
    proof {
        late_bounds(s.frame_times@);
    }
    let mut line = owned("[perf][animation] fence=");
    push_decimal(&mut line, fence_id as u128);
    push_count(&mut line, " frames=", frames);
    push_count(&mut line, " elapsed_ms=", elapsed_since(s.started, now) / 1_000_000);
    push_us(&mut line, " frame_avg_us=", total(s.frame_times.as_slice()) / frames);
    push_us(&mut line, " frame_p95_us=", frame_p95);
    push_us(&mut line, " frame_max_us=", maximum(s.frame_times.as_slice()));
    push_count(&mut line, " over_16ms=", count_late(s.frame_times.as_slice()));
    push_us(&mut line, " interval_avg_us=", average(s.frame_intervals.as_slice()));
    push_us(&mut line, " interval_p95_us=", interval_p95);
    push_us(&mut line, " interval_max_us=", maximum(s.frame_intervals.as_slice()));
    push_us(&mut line, " cpu_draw_avg_us=", cpu_draw_time(t) / frames);
    push_us(&mut line, " gdi_plus_wall_avg_us=", t.gdi_plus / frames);
    push_count(&mut line, " labels_total=", t.label_count as u128);
    push_us(&mut line, " label_avg_frame_us=", t.label_time / frames);
    push_count(&mut line, " label_avg_item_us=", average_for_count(t.label_time, t.label_count));
    push_us(&mut line, " gdi_icons_avg_us=", t.gdi_icons / frames);
    push_count(&mut line, " icon_hits_total=", t.icon_hits as u128);
    push_count(&mut line, " icon_miss_total=", t.icon_misses as u128);
    push_count(
        &mut line,
        " icon_miss_avg_us=",
        average_for_count(t.icon_miss_time, t.icon_misses),
    );
    push_us(&mut line, " premultiply_avg_us=", t.premultiply / frames);
    push_us(&mut line, " ulw_avg_us=", t.update_layered_window / frames);
    proof {
        assert(is_p95(s.frame_times@, frame_p95));
        assert(is_p95(s.frame_intervals@, interval_p95));
        assert(line@ == animation_line(
            fence_id as int,
            *s,
            now as int,
            frame_p95 as int,
            interval_p95 as int,
        ));
    }
    line
}

/// Records a picture of fence `fence_id`, finished at `now`. One outside a page turn gets its own line.
/// Those of a page turn are gathered, and get one line together at its end.
pub fn record_render(p: &mut Perf, fence_id: u32, animating: bool, sample: RenderSample, now: u128)
    ensures
        !old(p).enabled ==> *final(p) == *old(p),
        old(p).enabled ==> {
            let turning = old(p).animations@.contains_key(fence_id);
            &&& same_but_animations(*old(p), *final(p))
            &&& !turning ==> final(p).animations@ == old(p).animations@ && views(final(p).lines@)
                == views(old(p).lines@).push(render_line("render"@, fence_id as int, sample))
            &&& turning && animating ==> {
                &&& final(p).lines == old(p).lines
                &&& final(p).animations@.contains_key(fence_id)
                &&& final(p).animations@ == old(p).animations@.insert(
                    fence_id,
                    final(p).animations@[fence_id],
                )
                &&& old(p).animations@[fence_id].pushed(
                    final(p).animations@[fence_id],
                    sample,
                    now,
                )
            }
            &&& turning && !animating ==> {
                &&& final(p).animations@ == old(p).animations@.remove(fence_id)
                &&& final(p).lines@.len() == old(p).lines@.len() + 1
                &&& views(final(p).lines@) == views(old(p).lines@).push(
                    views(final(p).lines@).last(),
                )
                &&& exists|s: AnimationSession| #[trigger]
                    old(p).animations@[fence_id].pushed(s, sample, now) && is_animation_line(
                        views(final(p).lines@).last(),
                        fence_id as int,
                        s,
                        now as int,
                    )
            }
        },
{
    if !p.enabled {
        return ;
    }
    let ghost before = p.animations@;
    match p.animations.remove(&fence_id) {
        Some(session) => {
            let mut session = session;
            session.push(sample, now);
            if animating {
                p.animations.insert(fence_id, session);
                assert(p.animations@ =~= before.insert(fence_id, p.animations@[fence_id]));
            } else {
                assert(session.frame_times@.len() > 0);
                let line = animation_text(fence_id, &session, now);
                let ghost text = line@;
                p.emit(line);
                proof {
                    assert(views(p.lines@).last() == text);
                    assert(old(p).animations@[fence_id].pushed(session, sample, now));
                }
            }
        },
        None => {
            assert(before.remove(fence_id) =~= before);
            let line = render_text("render", fence_id, sample);
            p.emit(line);
        },
    }
}

/// The line at the start of a process with the number `pid`.
pub fn init(p: &mut Perf, pid: u32)
    ensures
        !old(p).enabled ==> *final(p) == *old(p),
        old(p).enabled ==> old(p).with_line(
            *final(p),
            "[perf][session] pid="@ + decimal(pid as nat) + " profiling=enabled"@,
        ),
{
    if p.enabled {
        let mut line = owned("[perf][session] pid=");
        push_decimal(&mut line, pid as u128);
        line.append(" profiling=enabled");
        p.emit(line);
    }
}

/// Takes the lines that wait to be written, in order.
pub fn take_lines(p: &mut Perf) -> (lines: Vec<String>)
    ensures
        lines == old(p).lines,
        final(p).lines@.len() == 0,
        same_but_animations(*old(p), *final(p)),
        final(p).animations == old(p).animations,
{
    let mut lines: Vec<String> = Vec::new();
    std::mem::swap(&mut lines, &mut p.lines);
    lines
}

} // verus!
