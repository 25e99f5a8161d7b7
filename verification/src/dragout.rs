//! Dragging a file out of a fence onto the desktop by a move of our own: when that is safe, and how
//! such a drag ends.

use crate::geometry::Point;
use crate::text::{
    ascii_lowercase, ascii_uppercase, eq_ignore_ascii_case, only_letters_have_a_case, views,
};
use crate::transfer::drag_source::{copy_or_move, DROPEFFECT_MOVE, MK_SHIFT};
use crate::transfer::formats::{
    asks_contents, build_hdrop, contents_format, contents_of, hdrop_block, hdrop_format,
    is_contents_format, Format, CF_HDROP,
};
use vstd::prelude::*;

pub use crate::transfer::formats::FileFormatEnum;

verus! {

/// What a drag came to. A reported effect of none means that the target moved the file itself; where
/// the shell reports nothing, or neither a copy nor a move, the drag's own effect counts.
pub open spec fn effect_of(ole_effect: u32, shell_reported: Option<u32>) -> u32 {
    match shell_reported {
        Some(bits) => if bits == 0 {
            DROPEFFECT_MOVE
        } else if copy_or_move(bits) != 0 {
            copy_or_move(bits)
        } else {
            copy_or_move(ole_effect)
        },
        None => copy_or_move(ole_effect),
    }
}

/// A reported copy (1) or move (2) is what was done, whatever else the numbers hold; nothing reported
/// leaves what the drag itself came to, and a report of none is a move by the target.
pub proof fn what_the_shell_reports_is_what_was_done(done: u32, rest: u32, own: u32, other: u32)
    requires
        done < 4,
        rest <= 0x3fff_ffff,
        own < 4,
        other <= 0x3fff_ffff,
    ensures
        ({
            let ole = (own + 4 * other) as u32;
            let reported = (done + 4 * rest) as u32;
            &&& effect_of(ole, None) == own
            &&& effect_of(ole, Some(0)) == 2
            &&& done > 0 ==> effect_of(ole, Some(reported)) == done
            &&& done == 0 && rest > 0 ==> effect_of(ole, Some(reported)) == own
        }),
{
}

/// See [`effect_of`].
pub fn final_drop_effect(ole_effect: u32, shell_reported: Option<u32>) -> (effect: u32)
    ensures
        effect == effect_of(ole_effect, shell_reported),
        effect <= 3,
{
    match shell_reported {
        Some(bits) => if bits == 0 {
            DROPEFFECT_MOVE
        } else if bits % 4 != 0 {
            bits % 4
        } else {
            ole_effect % 4
        },
        None => ole_effect % 4,
    }
}

/// What a drag is taken to have done: a move wherever we take the file to the desktop ourselves.
pub fn drag_result_effect(taken_over: bool, ole_effect: u32, shell_reported: Option<u32>) -> (effect:
    u32)
    ensures
        effect == (if taken_over {
            DROPEFFECT_MOVE
        } else {
            effect_of(ole_effect, shell_reported)
        }),
{
    if taken_over {
        DROPEFFECT_MOVE
    } else {
        final_drop_effect(ole_effect, shell_reported)
    }
}

/// What dropping a file on the desktop does by default.
#[derive(Clone, Copy, Debug, PartialEq, Eq, Structural)]
pub enum DesktopTransferMode {
    Copy,
    Move,
}

/// Whether two volumes are known and the same, whatever the case of their names.
pub open spec fn on_same_volume(a: Option<Seq<char>>, b: Option<Seq<char>>) -> bool {
    a is Some && b is Some && ascii_lowercase(a->0) == ascii_lowercase(b->0)
}

/// A volume is the same as itself written in capitals, and as no other that is longer or shorter; one that is
/// not known is the same as none.
pub proof fn a_volume_is_told_by_its_name(a: Seq<char>, b: Seq<char>, c: Option<Seq<char>>)
    ensures
        on_same_volume(Some(a), Some(a)),
        on_same_volume(Some(a), Some(ascii_uppercase(a))),
        a.len() != b.len() ==> !on_same_volume(Some(a), Some(b)),
        !on_same_volume(None, c) && !on_same_volume(c, None),
{
    let (x, y) = (ascii_lowercase(a), ascii_lowercase(ascii_uppercase(a)));
    assert forall|i: int| 0 <= i < a.len() implies #[trigger] x[i] == y[i] by {
        only_letters_have_a_case(a[i]);
    }
    assert(x =~= y);
    if ascii_lowercase(a) == ascii_lowercase(b) {
        assert(ascii_lowercase(a).len() == a.len());
        assert(ascii_lowercase(b).len() == b.len());
    }
}

/// The characters of an optional text.
pub open spec fn text_view(s: Option<&str>) -> Option<Seq<char>> {
    match s {
        Some(s) => Some(s@),
        None => None,
    }
}

/// What dropping a file from one volume on a desktop on another does by default: a move within one
/// volume, else a copy.
pub fn desktop_mode_for_volume_names(source_volume: Option<&str>, desktop_volume: Option<&str>) -> (
    mode: DesktopTransferMode)
    ensures
        mode == (if on_same_volume(text_view(source_volume), text_view(desktop_volume)) {
            DesktopTransferMode::Move
        } else {
            DesktopTransferMode::Copy
        }),
{
    match (source_volume, desktop_volume) {
        (Some(source), Some(desktop)) => if eq_ignore_ascii_case(source, desktop) {
            DesktopTransferMode::Move
        } else {
            DesktopTransferMode::Copy
        },
        _ => DesktopTransferMode::Copy,
    }
}

/// What dropping a file on the desktop does by default; a copy where the desktop is not known.
pub fn default_desktop_mode(
    desktop_known: bool,
    source_volume: Option<&str>,
    desktop_volume: Option<&str>,
) -> (mode: DesktopTransferMode)
    ensures
        mode == (if desktop_known && on_same_volume(
            text_view(source_volume),
            text_view(desktop_volume),
        ) {
            DesktopTransferMode::Move
        } else {
            DesktopTransferMode::Copy
        }),
{
    if desktop_known {
        desktop_mode_for_volume_names(source_volume, desktop_volume)
    } else {
        DesktopTransferMode::Copy
    }
}

/// Whether a drag may end in a move of our own: one item, whose name is new on the desktop, that
/// would be moved by default, and that is no link.
pub fn desktop_fast_path_gate(
    item_count: usize,
    desktop_name_absent: bool,
    desktop_default: DesktopTransferMode,
    source_safe: bool,
) -> (allowed: bool)
    ensures
        allowed == (item_count == 1 && desktop_name_absent && desktop_default
            == DesktopTransferMode::Move && source_safe),
{
    item_count == 1 && desktop_name_absent && desktop_default == DesktopTransferMode::Move
        && source_safe
}

/// Whether the keys leave a drop a plain move: none, or Shift alone. Anything else is Explorer's to
/// understand.
pub fn direct_move_modifiers_allowed(key_state: u32) -> (yes: bool)
    ensures
        yes == (key_state == 0 || key_state == MK_SHIFT),
{
    key_state == 0 || key_state == MK_SHIFT
}

/// The format at `pos` of a direction: files to get, what was done (format `performed`) to set.
pub open spec fn offered(direction: u32, pos: u32, performed: u16) -> Option<Format> {
    if direction == 1 && pos == 0 {
        Some(contents_of(CF_HDROP))
    } else if direction == 2 && pos == 0 {
        Some(contents_of(performed))
    } else {
        None
    }
}

/// See [`offered`].
pub fn format_at(direction: u32, pos: u32, performed: u16) -> (f: Option<Format>)
    ensures
        f == offered(direction, pos, performed),
{
    match (direction, pos) {
        (1, 0) => Some(hdrop_format()),
        (2, 0) => Some(contents_format(performed)),
        _ => None,
    }
}

/// How many formats a direction has.
pub fn format_count(direction: u32) -> (n: u32)
    ensures
        n == (if direction == 1 || direction == 2 {
            1int
        } else {
            0
        }),
        forall|pos: u32, performed: u16|
            pos < n <==> #[trigger] offered(direction, pos, performed) is Some,
{
    match direction {
        1 => 1,
        2 => 1,
        _ => 0,
    }
}

/// Whether the drag gives `f`: a list of files, and nothing by which it would choose the effect
/// itself.
pub fn is_supported_get_format(f: &Format) -> (yes: bool)
    ensures
        yes == (asks_contents(*f) && f.cf == CF_HDROP),
{
    is_contents_format(f) && f.cf == CF_HDROP
}

/// The formats of a direction, where it has any.
pub fn enum_formats(direction: u32, performed: u16) -> (e: Option<FileFormatEnum>)
    ensures
        match e {
            Some(e) => {
                &&& direction == 1 || direction == 2
                &&& e.wf()
                &&& e.pos == 0
                &&& e.formats@.len() == 1
                &&& Some(e.formats@[0]) == offered(direction, 0, performed)
            },
            None => direction != 1 && direction != 2,
        },
{
    match format_at(direction, 0, performed) {
        Some(f) => {
            let mut list: Vec<Format> = Vec::new();
            list.push(f);
            Some(FileFormatEnum::new(list))
        },
        None => None,
    }
}

/// What the drag of `paths` gives for `f`: their list, where that is asked for.
pub fn get_data(f: &Format, paths: &Vec<String>) -> (block: Option<Vec<u8>>)
    ensures
        match block {
            Some(block) => asks_contents(*f) && f.cf == CF_HDROP && block@ == hdrop_block(
                views(paths@),
                0,
                0,
                false,
            ),
            None => !(asks_contents(*f) && f.cf == CF_HDROP),
        },
{
    if is_supported_get_format(f) {
        Some(build_hdrop(paths, Point { x: 0, y: 0 }, false))
    } else {
        None
    }
}

/// Whether the drag takes `f` back.
pub fn is_supported_set_format(f: &Format, performed: u16) -> (yes: bool)
    ensures
        yes == (asks_contents(*f) && f.cf == performed),
{
    is_contents_format(f) && f.cf == performed
}

/// How a drag goes on.
#[derive(Clone, Copy, Debug, PartialEq, Eq, Structural)]
pub enum DragStep {
    Continue,
    Cancel,
    Drop,
    /// End the drag without Explorer, and move the file ourselves.
    TakeOver,
}

/// How a drag goes on: Escape cancels it, letting go of the left button drops; where a move of our
/// own is allowed and the pointer is over an empty place of the desktop, that takes its place.
pub open spec fn drag_step(
    escape: bool,
    keys: u32,
    fast_path_allowed: bool,
    empty_desktop: bool,
) -> DragStep {
    if escape {
        DragStep::Cancel
    } else if keys % 2 == 1 {
        DragStep::Continue
    } else if fast_path_allowed && empty_desktop && (keys == 0 || keys == MK_SHIFT) {
        DragStep::TakeOver
    } else {
        DragStep::Drop
    }
}

/// See [`drag_step`].
pub fn query_continue_drag(
    escape: bool,
    keys: u32,
    fast_path_allowed: bool,
    empty_desktop: bool,
) -> (step: DragStep)
    ensures
        step == drag_step(escape, keys, fast_path_allowed, empty_desktop),
{
    if escape {
        DragStep::Cancel
    } else if keys % 2 == 1 {
        DragStep::Continue
    } else if fast_path_allowed && empty_desktop && direct_move_modifiers_allowed(keys) {
        DragStep::TakeOver
    } else {
        DragStep::Drop
    }
}

} // verus!
