//! What a directory watcher does and reports, and the plan of an exact, never replacing move.

use crate::text::{owned, views};
use crate::utf16::{decode, decoded, decoding_undoes_encoding, encoded};
use crate::winpath::{file_name, file_name_of, join, joined};
use vstd::prelude::*;

verus! {

/// `FILE_ACTION_ADDED`.
pub const FILE_ACTION_ADDED: u32 = 1;

/// `FILE_ACTION_REMOVED`.
pub const FILE_ACTION_REMOVED: u32 = 2;

/// `FILE_ACTION_MODIFIED`.
pub const FILE_ACTION_MODIFIED: u32 = 3;

/// `FILE_ACTION_RENAMED_OLD_NAME`.
pub const FILE_ACTION_RENAMED_OLD_NAME: u32 = 4;

/// `FILE_ACTION_RENAMED_NEW_NAME`.
pub const FILE_ACTION_RENAMED_NEW_NAME: u32 = 5;

/// The length of a notification record before its name: the links and the name's own length. A last
/// record carries no padding behind its name, so nothing longer may be asked of it.
pub const HEADER_LEN: usize = 12;

/// The little-endian number in two bytes at `at`.
pub open spec fn le16(b: Seq<u8>, at: int) -> int {
    b[at] + 256 * b[at + 1]
}

/// The little-endian number in four bytes at `at`.
pub open spec fn le32(b: Seq<u8>, at: int) -> int {
    b[at] + 256 * b[at + 1] + 65536 * b[at + 2] + 16777216 * b[at + 3]
}

/// The `n` code units that begin at `at`.
pub open spec fn units_at(b: Seq<u8>, at: int, n: int) -> Seq<u16> {
    Seq::new(n as nat, |i: int| le16(b, at + 2 * i) as u16)
}

/// Whether a record with this action reports a name.
pub open spec fn is_reported(action: int) -> bool {
    FILE_ACTION_ADDED <= action <= FILE_ACTION_RENAMED_NEW_NAME
}

/// The names that the records from `off` up to `end` report, in order. A record that does not fit
/// ends the list, and so does one that links to nothing behind it.
pub open spec fn notify_names(b: Seq<u8>, end: int, off: int) -> Seq<Seq<char>>
    decreases end - off,
{
    let next = le32(b, off);
    let name_len = le32(b, off + 8);
    let name_at = off + HEADER_LEN;
    if name_at > end || name_len % 2 != 0 || name_at + name_len > end {
        Seq::empty()
    } else {
        let here = if is_reported(le32(b, off + 4)) {
            seq![decoded(units_at(b, name_at, name_len / 2))]
        } else {
            Seq::empty()
        };
        if next <= 0 || off + next > end {
            here
        } else {
            here + notify_names(b, end, off + next)
        }
    }
}

fn read_le32(b: &[u8], at: usize) -> (n: u32)
    requires
        at + 4 <= b@.len(),
    ensures
        n == le32(b@, at as int),
{
    b[at] as u32 + 256 * (b[at + 1] as u32) + 65536 * (b[at + 2] as u32) + 16777216 * (b[at
        + 3] as u32)
}

fn read_units(b: &[u8], at: usize, n: usize) -> (out: Vec<u16>)
    requires
        at + 2 * n <= b@.len(),
    ensures
        out@ == units_at(b@, at as int, n as int),
{
    let mut out: Vec<u16> = Vec::new();
    let len: usize = b.len();
    let mut pos: usize = at;
    for i in 0..n
        invariant
            at + 2 * n <= len == b@.len(),
            pos == at + 2 * i,
            out@ == units_at(b@, at as int, i as int),
    {
        out.push(b[pos] as u16 + 256 * (b[pos + 1] as u16));
        pos += 2;
    }
    out
}

/// The names in a buffer that `ReadDirectoryChangesW` filled with `returned` bytes of
/// `FILE_NOTIFY_INFORMATION` records.
pub fn parse_notify_names(buf: &[u8], returned: usize) -> (names: Vec<String>)
    ensures
        views(names@) == notify_names(
            buf@,
            if returned < buf@.len() {
                returned as int
            } else {
                buf@.len() as int
            },
            0,
        ),
{
    let end: usize = if returned < buf.len() {
        returned
    } else {
        buf.len()
    };
    let mut names: Vec<String> = Vec::new();
    let mut off: usize = 0;
    assert(views(names@) =~= Seq::<Seq<char>>::empty());
    loop
        invariant_except_break
            views(names@) + notify_names(buf@, end as int, off as int) == notify_names(
                buf@,
                end as int,
                0,
            ),
        invariant
            off <= end <= buf@.len() <= usize::MAX,
        ensures
            views(names@) == notify_names(buf@, end as int, 0),
        decreases end - off,
    {
        let ghost whole = notify_names(buf@, end as int, 0);
        let ghost before = views(names@);
        assert(before + Seq::<Seq<char>>::empty() =~= before);
        if end - off < HEADER_LEN {
            break;
        }
        let next: usize = read_le32(buf, off) as usize;
        let action: u32 = read_le32(buf, off + 4);
        let name_len: usize = read_le32(buf, off + 8) as usize;
        if name_len % 2 != 0 || name_len > end - off - HEADER_LEN {
            break;
        }
        let ghost here = if is_reported(action as int) {
            seq![decoded(units_at(buf@, off + HEADER_LEN, name_len as int / 2))]
        } else {
            Seq::empty()
        };
        if action == FILE_ACTION_ADDED || action == FILE_ACTION_REMOVED || action
            == FILE_ACTION_MODIFIED || action == FILE_ACTION_RENAMED_OLD_NAME || action
            == FILE_ACTION_RENAMED_NEW_NAME {
            let units = read_units(buf, off + HEADER_LEN, name_len / 2);
            names.push(decode(units.as_slice()));
        }
        assert(views(names@) =~= before + here);
        if next == 0 || next > end - off {
            break;
        }
        assert(before + (here + notify_names(buf@, end as int, off + next)) =~= views(names@)
            + notify_names(buf@, end as int, off + next));
        off += next;
    }
    names
}

/// The little-endian bytes of `n`.
pub open spec fn le32_bytes(n: int) -> Seq<u8> {
    seq![
        (n % 256) as u8,
        (n / 256 % 256) as u8,
        (n / 65536 % 256) as u8,
        (n / 16777216 % 256) as u8,
    ]
}

/// Numbers lie in memory with their lowest byte first, and read back.
pub proof fn numbers_lie_with_the_lowest_byte_first(n: int, before: Seq<u8>, behind: Seq<u8>)
    requires
        0 <= n < 0x1_0000_0000,
    ensures
        le32(before + le32_bytes(n) + behind, before.len() as int) == n,
        le32_bytes(n).len() == 4,
        le32_bytes(n)[0] == n % 256,
        le32_bytes(n)[3] == n / 0x100_0000,
        n < 0x1_0000 ==> le16(before + le32_bytes(n) + behind, before.len() as int) == n,
{
    let b = before + le32_bytes(n) + behind;
    let at = before.len() as int;
    assert(b[at] == le32_bytes(n)[0]);
    assert(b[at + 1] == le32_bytes(n)[1]);
    assert(b[at + 2] == le32_bytes(n)[2]);
    assert(b[at + 3] == le32_bytes(n)[3]);
}

/// A notification record: how far the next one is (0 for the last), what happened, and to which
/// name.
#[verifier::opaque]
pub open spec fn notify_record(next: int, action: int, name: Seq<char>) -> Seq<u8> {
    let units = encoded(name);
    le32_bytes(next) + le32_bytes(action) + le32_bytes((2 * units.len()) as int) + Seq::new(
        2 * units.len(),
        |i: int|
            if i % 2 == 0 {
                (units[i / 2] % 256) as u8
            } else {
                (units[i / 2] / 256) as u8
            },
    )
}

proof fn record_fields(b: Seq<u8>, next: int, action: int, name: Seq<char>, rest: Seq<u8>)
    requires
        b == notify_record(next, action, name) + rest,
        0 <= next < 0x1_0000_0000,
        0 <= action < 0x1_0000_0000,
        2 * encoded(name).len() < 0x1_0000_0000,
    ensures
        notify_record(next, action, name).len() == HEADER_LEN + 2 * encoded(name).len(),
        le32(b, 0) == next,
        le32(b, 4) == action,
        le32(b, 8) == 2 * encoded(name).len(),
        units_at(b, 12, encoded(name).len() as int) == encoded(name),
{
    reveal(notify_record);
    let units = encoded(name);
    let size = 2 * units.len() as int;
    le32_round_trip(next);
    le32_round_trip(action);
    le32_round_trip(size);
    assert(b[0] == le32_bytes(next)[0] && b[1] == le32_bytes(next)[1] && b[2] == le32_bytes(next)[2]
        && b[3] == le32_bytes(next)[3]);
    assert(b[4] == le32_bytes(action)[0] && b[5] == le32_bytes(action)[1] && b[6] == le32_bytes(
        action,
    )[2] && b[7] == le32_bytes(action)[3]);
    assert(b[8] == le32_bytes(size)[0] && b[9] == le32_bytes(size)[1] && b[10] == le32_bytes(
        size,
    )[2] && b[11] == le32_bytes(size)[3]);
    assert forall|i: int| 0 <= i < units.len() implies units_at(b, 12, units.len() as int)[i]
        == units[i] by {
        assert(b[12 + 2 * i] == (units[i] % 256) as u8);
        assert(b[12 + 2 * i + 1] == (units[i] / 256) as u8);
    }
    assert(units_at(b, 12, units.len() as int) =~= units);
}

proof fn le32_round_trip(n: int)
    requires
        0 <= n < 0x1_0000_0000,
    ensures
        le32(le32_bytes(n), 0) == n,
{
}

proof fn names_behind_a_prefix(a: Seq<u8>, b: Seq<u8>, end: int, off: int)
    requires
        0 <= off,
        0 <= end <= b.len(),
    ensures
        notify_names(a + b, a.len() + end, a.len() + off) == notify_names(b, end, off),
    decreases end - off,
{
    let w = a + b;
    let k = a.len() as int;
    if off + HEADER_LEN <= end {
        assert(le32(w, k + off) == le32(b, off));
        assert(le32(w, k + off + 4) == le32(b, off + 4));
        assert(le32(w, k + off + 8) == le32(b, off + 8));
        let name_len = le32(b, off + 8);
        if name_len % 2 == 0 && off + HEADER_LEN + name_len <= end {
            assert(units_at(w, k + off + HEADER_LEN, name_len / 2) =~= units_at(
                b,
                off + HEADER_LEN,
                name_len / 2,
            ));
            let next = le32(b, off);
            if 0 < next && off + next <= end {
                names_behind_a_prefix(a, b, end, off + next);
            }
        }
    }
}

/// A lone record reports exactly its name, with no padding asked for behind it.
pub proof fn a_last_record_reports_its_name(action: int, name: Seq<char>)
    requires
        is_reported(action),
        2 * encoded(name).len() < 0x1_0000_0000,
    ensures
        notify_names(
            notify_record(0, action, name),
            notify_record(0, action, name).len() as int,
            0,
        ) == seq![name],
{
    let b = notify_record(0, action, name);
    let n = encoded(name).len();
    assert(b =~= b + Seq::<u8>::empty());
    record_fields(b, 0, action, name, Seq::empty());
    decoding_undoes_encoding(name);
    assert((2 * n) as int / 2 == n);
    assert(notify_names(b, b.len() as int, 0) == seq![decoded(units_at(b, 12, n as int))]);
}

/// A record linked to what follows it reports its name, then come the names of what follows.
pub proof fn a_linked_record_reports_its_name_first(
    action: int,
    name: Seq<char>,
    rest: Seq<u8>,
)
    requires
        is_reported(action),
        HEADER_LEN + 2 * encoded(name).len() < 0x1_0000_0000,
    ensures
        ({
            let size = HEADER_LEN + 2 * encoded(name).len();
            let b = notify_record(size, action, name) + rest;
            notify_names(b, b.len() as int, 0) == seq![name] + notify_names(
                rest,
                rest.len() as int,
                0,
            )
        }),
{
    let size = HEADER_LEN + 2 * encoded(name).len();
    let record = notify_record(size, action, name);
    let b = record + rest;
    record_fields(b, size, action, name, rest);
    decoding_undoes_encoding(name);
    names_behind_a_prefix(record, rest, rest.len() as int, 0);
}

/// What a watching thread came across since it was last told what to do.
#[derive(Clone, Copy, Debug, PartialEq, Eq)]
pub enum WatchEvent {
    /// The thread began.
    Begun,
    /// The folder was opened.
    Opened,
    /// The folder could not be opened.
    Missing,
    /// Reading the folder gave this many bytes of records.
    News(usize),
    /// Reading the folder failed.
    Broken,
    /// The names were reported.
    Reported,
    /// The folder was closed.
    Closed,
    /// The pause is over.
    Waited,
}

/// What a watching thread is to do next.
#[derive(Debug, PartialEq, Eq)]
pub enum WatchAction {
    Open,
    Read,
    Report(Vec<String>),
    Close,
    /// Wait [`WATCH_PAUSE_MS`], or until a stop is asked for.
    Pause,
    End,
}

/// A [`WatchAction`] with the names as texts.
pub enum WatchPlan {
    Open,
    Read,
    Report(Seq<Seq<char>>),
    Close,
    Pause,
    End,
}

impl View for WatchAction {
    type V = WatchPlan;

    open spec fn view(&self) -> WatchPlan {
        match self {
            WatchAction::Open => WatchPlan::Open,
            WatchAction::Read => WatchPlan::Read,
            WatchAction::Report(names) => WatchPlan::Report(views(names@)),
            WatchAction::Close => WatchPlan::Close,
            WatchAction::Pause => WatchPlan::Pause,
            WatchAction::End => WatchPlan::End,
        }
    }
}

/// How long a folder that cannot be watched is left alone, in milliseconds.
pub const WATCH_PAUSE_MS: u64 = 3000;

/// A watch over one folder: whether the folder is open.
#[derive(Clone, Copy, Debug, PartialEq, Eq)]
pub struct FolderWatch {
    pub open: bool,
}

/// Goes on with an open folder, or opens it first.
pub open spec fn carried_on(open: bool) -> WatchPlan {
    if open {
        WatchPlan::Read
    } else {
        WatchPlan::Open
    }
}

/// What is done about `e`, and whether the folder is open then. A stop closes the folder and ends
/// the watch; a folder that gives nothing is closed, and opened anew after a pause.
pub open spec fn watch_plan(
    open: bool,
    stopped: bool,
    e: WatchEvent,
    buf: Seq<u8>,
) -> (WatchPlan, bool) {
    let open = open || e is Opened;
    let given_up = (
        if open {
            WatchPlan::Close
        } else {
            WatchPlan::Pause
        },
        false,
    );
    if stopped {
        (
            if open {
                WatchPlan::Close
            } else {
                WatchPlan::End
            },
            false,
        )
    } else {
        match e {
            WatchEvent::Begun | WatchEvent::Opened | WatchEvent::Reported | WatchEvent::Waited => (
                carried_on(open),
                open,
            ),
            WatchEvent::Missing | WatchEvent::Closed => (WatchPlan::Pause, open),
            WatchEvent::Broken => given_up,
            WatchEvent::News(n) => {
                let names = notify_names(
                    buf,
                    if n < buf.len() {
                        n as int
                    } else {
                        buf.len() as int
                    },
                    0,
                );
                if n == 0 {
                    given_up
                } else if names.len() == 0 {
                    (carried_on(open), open)
                } else {
                    (WatchPlan::Report(names), open)
                }
            },
        }
    }
}

impl FolderWatch {
    pub fn new() -> (w: FolderWatch)
        ensures
            !w.open,
    {
        FolderWatch { open: false }
    }

    fn carry_on(&self) -> (action: WatchAction)
        ensures
            action@ == carried_on(self.open),
    {
        if self.open {
            WatchAction::Read
        } else {
            WatchAction::Open
        }
    }

    fn give_up(&mut self, otherwise: WatchAction) -> (action: WatchAction)
        ensures
            !final(self).open,
            action == (if old(self).open {
                WatchAction::Close
            } else {
                otherwise
            }),
    {
        let was_open = self.open;
        self.open = false;
        if was_open {
            WatchAction::Close
        } else {
            otherwise
        }
    }

    /// What the thread does about `event`; `stopped` says whether a stop was asked for, and `buf` is
    /// what the folder was last read into. See [`watch_plan`].
    pub fn step(&mut self, stopped: bool, event: WatchEvent, buf: &[u8]) -> (action: WatchAction)
        ensures
            (action@, final(self).open) == watch_plan(old(self).open, stopped, event, buf@),
    {
        if let WatchEvent::Opened = event {
            self.open = true;
        }
        if stopped {
            return self.give_up(WatchAction::End);
        }
        match event {
            WatchEvent::Begun | WatchEvent::Opened | WatchEvent::Reported | WatchEvent::Waited => {
                self.carry_on()
            },
            WatchEvent::Missing | WatchEvent::Closed => WatchAction::Pause,
            WatchEvent::Broken => self.give_up(WatchAction::Pause),
            WatchEvent::News(n) => {
                if n == 0 {
                    return self.give_up(WatchAction::Pause);
                }
                let names = parse_notify_names(buf, n);
                if names.len() == 0 {
                    self.carry_on()
                } else {
                    WatchAction::Report(names)
                }
            },
        }
    }
}

/// Once a stop is asked for, a watch reports nothing any more: it closes the folder if that is
/// open, and then it ends.
pub proof fn a_stopped_watch_reports_nothing(
    open: bool,
    e: WatchEvent,
    next: WatchEvent,
    buf: Seq<u8>,
)
    ensures
        ({
            let (plan, after) = watch_plan(open, true, e, buf);
            &&& !after
            &&& plan == if open || e is Opened {
                WatchPlan::Close
            } else {
                WatchPlan::End
            }
            &&& next !is Opened ==> watch_plan(after, true, next, buf).0 is End
        }),
{
}

/// One turn of a watch: whether a stop was asked for, what happened, and what was read.
pub type WatchTurn = (bool, WatchEvent, Seq<u8>);

/// Whether the folder is open after the first `n` turns.
pub open spec fn open_after(turns: Seq<WatchTurn>, n: int) -> bool
    decreases n,
{
    n > 0 && watch_plan(
        open_after(turns, n - 1),
        turns[n - 1].0,
        turns[n - 1].1,
        turns[n - 1].2,
    ).1
}

/// What the watch did in turn `i`.
pub open spec fn done_in(turns: Seq<WatchTurn>, i: int) -> WatchPlan {
    watch_plan(open_after(turns, i), turns[i].0, turns[i].1, turns[i].2).0
}

/// How often the folder was opened in the first `n` turns.
pub open spec fn times_opened(turns: Seq<WatchTurn>, n: int) -> nat
    decreases n,
{
    if n <= 0 {
        0
    } else {
        times_opened(turns, n - 1) + if turns[n - 1].1 is Opened {
            1nat
        } else {
            0nat
        }
    }
}

/// How often it was closed.
pub open spec fn times_closed(turns: Seq<WatchTurn>, n: int) -> nat
    decreases n,
{
    if n <= 0 {
        0
    } else {
        times_closed(turns, n - 1) + if done_in(turns, n - 1) is Close {
            1nat
        } else {
            0nat
        }
    }
}

/// A folder is read only while it is open, and closed as often as it was opened, but for the once
/// that it is still open; where a watch has ended, it is closed.
pub proof fn a_watched_folder_is_closed_as_often_as_opened(turns: Seq<WatchTurn>, n: int)
    requires
        0 <= n <= turns.len(),
        forall|i: int|
            0 <= i < n && (#[trigger] turns[i]).1 is Opened ==> !open_after(turns, i),
    ensures
        times_opened(turns, n) == times_closed(turns, n) + if open_after(turns, n) {
            1nat
        } else {
            0nat
        },
        n > 0 && done_in(turns, n - 1) is Read ==> open_after(turns, n),
        n > 0 && done_in(turns, n - 1) is End ==> times_opened(turns, n) == times_closed(turns, n),
    decreases n,
{
    if n > 0 {
        assert(turns[n - 1] == turns[n - 1]);
        a_watched_folder_is_closed_as_often_as_opened(turns, n - 1);
    }
}

/// The name under which `src` lands in `dest_dir`, for a move that neither replaces nor copies: it
/// is refused where the directory is not there or `src` has no name.
pub fn move_to_dir_atomic_no_replace(src: &str, dest_dir: &str, dest_is_dir: bool) -> (dest: Result<
    String,
    String,
>)
    ensures
        match dest {
            Ok(dest) => dest_is_dir && file_name(src@) is Some && dest@ == join(
                dest_dir@,
                file_name(src@)->0,
            ),
            Err(e) => if !dest_is_dir {
                e@ == "desktop directory is unavailable"@
            } else {
                file_name(src@) is None && e@ == "no file name"@
            },
        },
{
    if !dest_is_dir {
        return Err(owned("desktop directory is unavailable"));
    }
    match file_name_of(src) {
        Some(name) => Ok(joined(dest_dir, name.as_str())),
        None => Err(owned("no file name")),
    }
}

/// The system error code behind an `HRESULT`: the low half where the high half marks a Win32 error,
/// else all of it.
pub open spec fn os_error_of(hresult: u32) -> int {
    if hresult / 0x1_0000 == 0x8007 {
        (hresult % 0x1_0000) as int
    } else if hresult <= i32::MAX {
        hresult as int
    } else {
        hresult - 0x1_0000_0000
    }
}

/// An error code of the system comes back out of the `HRESULT` that is made of it; any other is itself, as
/// a signed number.
pub proof fn a_system_error_comes_back(code: int, other: u32)
    requires
        0 <= code < 0x1_0000,
        !(0x8007_0000 <= other <= 0x8007_ffff),
    ensures
        os_error_of((0x8007_0000 + code) as u32) == code,
        i32::MIN <= os_error_of(other) <= i32::MAX,
        (os_error_of(other) - other) % 0x1_0000_0000 == 0,
{
}

/// See [`os_error_of`].
pub fn os_error(hresult: u32) -> (raw: i32)
    ensures
        raw == os_error_of(hresult),
{
    if hresult / 0x1_0000 == 0x8007 {
        (hresult % 0x1_0000) as i32
    } else if hresult <= 0x7fff_ffff {
        hresult as i32
    } else {
        -((0xffff_ffff - hresult) as i32) - 1
    }
}

} // verus!
