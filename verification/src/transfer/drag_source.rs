//! Dragging a file out of a fence by way of Explorer: what is offered, and how the drag ends.

use super::formats::{
    asks_contents, contents_format, contents_of, hdrop_block, hdrop_format, is_contents_format,
    offsets_block, Format, CF_HDROP,
};
use crate::geometry::Point;
use crate::text::{owned, views};
use vstd::prelude::*;

pub use super::formats::{build_hdrop, build_shell_offsets, FileFormatEnum};

verus! {

/// `DROPEFFECT_NONE`.
pub const DROPEFFECT_NONE: u32 = 0;

/// `DROPEFFECT_COPY`.
pub const DROPEFFECT_COPY: u32 = 1;

/// `DROPEFFECT_MOVE`.
pub const DROPEFFECT_MOVE: u32 = 2;

/// `MK_LBUTTON`.
pub const MK_LBUTTON: u32 = 1;

/// `MK_SHIFT`.
pub const MK_SHIFT: u32 = 4;

/// `MK_CONTROL`.
pub const MK_CONTROL: u32 = 8;

/// Whether `effect` is a copy, a move or both, and nothing else of it.
pub open spec fn copy_or_move(effect: u32) -> u32 {
    effect % 4
}

/// What a drag came to: what the shell reports, if that is a copy or a move; else what the drag
/// returned.
pub fn final_drop_effect(ole_effect: u32, shell_reported: u32) -> (effect: u32)
    ensures
        effect == (if copy_or_move(shell_reported) != 0 {
            copy_or_move(shell_reported)
        } else {
            copy_or_move(ole_effect)
        }),
        effect <= 3,
{
    if shell_reported % 4 != 0 {
        shell_reported % 4
    } else {
        ole_effect % 4
    }
}

/// The name of an effect in the log.
pub open spec fn effect_text(effect: u32) -> Seq<char> {
    if effect % 2 == 1 {
        "copy"@
    } else if effect / 2 % 2 == 1 {
        "move"@
    } else {
        "none"@
    }
}

/// See [`effect_text`].
pub fn effect_name(effect: u32) -> (name: String)
    ensures
        name@ == effect_text(effect),
{
    if effect % 2 == 1 {
        owned("copy")
    } else if effect / 2 % 2 == 1 {
        owned("move")
    } else {
        owned("none")
    }
}

/// Whether the keys leave a drop on the desktop a plain move: none, or Shift alone.
pub fn desktop_move_fast_path_modifiers_allowed(keys: u32) -> (yes: bool)
    ensures
        yes == (keys == 0 || keys == MK_SHIFT),
{
    keys == 0 || keys == MK_SHIFT
}

/// The numbers that the system gave the shell's own formats.
#[derive(Clone, Copy, Debug, PartialEq, Eq, Structural)]
pub struct ShellFormats {
    /// What was done with the files.
    pub performed: u16,
    /// Where the files lie.
    pub offsets: u16,
}

/// The format at `pos` of a direction: files and their places to get, what was done to set.
pub open spec fn offered(direction: u32, pos: u32, formats: ShellFormats) -> Option<Format> {
    if direction == 1 && pos == 0 {
        Some(contents_of(CF_HDROP))
    } else if direction == 1 && pos == 1 {
        Some(contents_of(formats.offsets))
    } else if direction == 2 && pos == 0 {
        Some(contents_of(formats.performed))
    } else {
        None
    }
}

/// See [`offered`].
pub fn format_at(direction: u32, pos: u32, formats: ShellFormats) -> (f: Option<Format>)
    ensures
        f == offered(direction, pos, formats),
{
    match (direction, pos) {
        (1, 0) => Some(hdrop_format()),
        (1, 1) => Some(contents_format(formats.offsets)),
        (2, 0) => Some(contents_format(formats.performed)),
        _ => None,
    }
}

/// How many formats a direction has.
pub fn format_count(direction: u32) -> (n: u32)
    ensures
        n == (if direction == 1 {
            2
        } else if direction == 2 {
            1
        } else {
            0int
        }),
        forall|pos: u32, formats: ShellFormats|
            pos < n <==> #[trigger] offered(direction, pos, formats) is Some,
{
    match direction {
        1 => 2,
        2 => 1,
        _ => 0,
    }
}

/// The formats of a direction, where it has any.
pub fn enum_formats(direction: u32, formats: ShellFormats) -> (e: Option<FileFormatEnum>)
    ensures
        match e {
            Some(e) => {
                &&& direction == 1 || direction == 2
                &&& e.wf()
                &&& e.pos == 0
                &&& e.formats@.len() == (if direction == 1 {
                    2int
                } else {
                    1
                })
                &&& forall|i: int|
                    0 <= i < e.formats@.len() ==> Some(#[trigger] e.formats@[i]) == offered(
                        direction,
                        i as u32,
                        formats,
                    )
            },
            None => direction != 1 && direction != 2,
        },
{
    let n: u32 = format_count(direction);
    if n == 0 {
        return None;
    }
    let mut list: Vec<Format> = Vec::new();
    for i in 0..n
        invariant
            n == (if direction == 1 {
                2
            } else if direction == 2 {
                1
            } else {
                0int
            }),
            list@.len() == i,
            forall|j: int|
                0 <= j < i ==> Some(#[trigger] list@[j]) == offered(direction, j as u32, formats),
    {
        if let Some(f) = format_at(direction, i, formats) {
            list.push(f);
        }
    }
    Some(FileFormatEnum::new(list))
}

/// Whether the drag gives `f`.
pub fn is_supported_get_format(f: &Format, formats: ShellFormats) -> (yes: bool)
    ensures
        yes == (asks_contents(*f) && (f.cf == CF_HDROP || f.cf == formats.offsets)),
{
    is_contents_format(f) && (f.cf == CF_HDROP || f.cf == formats.offsets)
}

/// Whether the drag takes `f` back.
pub fn is_supported_set_format(f: &Format, formats: ShellFormats) -> (yes: bool)
    ensures
        yes == (asks_contents(*f) && f.cf == formats.performed),
{
    is_contents_format(f) && f.cf == formats.performed
}

/// What a drag gives for a format.
pub enum Given {
    /// The drag does not give that.
    Unsupported,
    /// There are no files to give it for.
    Nothing,
    /// The list of files.
    Files(Vec<u8>),
    /// Where the files lie.
    Offsets(Vec<u8>),
}

/// The point that goes with `f`: the list of files carries where they were dropped, once they were,
/// and everything else where the drag began.
pub fn data_point(f: &Format, release: Option<Point>, origin: Point) -> (p: Point)
    ensures
        p == (if f.cf == CF_HDROP && release is Some {
            release->0
        } else {
            origin
        }),
{
    match release {
        Some(at) => if f.cf == CF_HDROP {
            at
        } else {
            origin
        },
        None => origin,
    }
}

/// What the drag of `paths` gives for `f`, with the point that goes with it; see [`data_point`].
pub fn get_data(f: &Format, formats: ShellFormats, paths: &Vec<String>, point: Point) -> (given: Given)
    ensures
        match given {
            Given::Unsupported => !(asks_contents(*f) && (f.cf == CF_HDROP || f.cf
                == formats.offsets)),
            Given::Files(block) => asks_contents(*f) && f.cf == CF_HDROP && block@ == hdrop_block(
                views(paths@),
                point.x as int,
                point.y as int,
                true,
            ),
            Given::Offsets(block) => asks_contents(*f) && f.cf == formats.offsets && f.cf
                != CF_HDROP && paths@.len() > 0 && block@ == offsets_block(
                paths@.len() as int,
                point.x as int,
                point.y as int,
            ),
            Given::Nothing => asks_contents(*f) && f.cf == formats.offsets && f.cf != CF_HDROP
                && paths@.len() == 0,
        },
{
    if !is_supported_get_format(f, formats) {
        return Given::Unsupported;
    }
    if f.cf == CF_HDROP {
        return Given::Files(build_hdrop(paths, point, true));
    }
    match build_shell_offsets(paths.len(), point) {
        Some(block) => Given::Offsets(block),
        None => Given::Nothing,
    }
}

/// Each format that is offered is one that the drag gives or takes.
pub proof fn what_is_offered_is_supported(direction: u32, pos: u32, formats: ShellFormats)
    requires
        offered(direction, pos, formats) is Some,
    ensures
        ({
            let f = offered(direction, pos, formats)->0;
            &&& asks_contents(f)
            &&& direction == 1 ==> f.cf == CF_HDROP || f.cf == formats.offsets
            &&& direction == 2 ==> f.cf == formats.performed
        }),
{
}

/// How a drag goes on.
#[derive(Clone, Copy, Debug, PartialEq, Eq, Structural)]
pub enum DragStep {
    Continue,
    Cancel,
    Drop,
    /// Drop on an empty place of the desktop: the source's view waits for its folder to tell of the
    /// change, and the desktop is kept from painting.
    DropOnDesktop,
}

/// What is known when a drag is asked how it goes on.
#[derive(Clone, Copy, Debug, PartialEq, Eq, Structural)]
pub struct DragFacts {
    pub escape: bool,
    /// The keys and buttons that are down.
    pub keys: u32,
    /// Whether the place of the pointer is known.
    pub point_known: bool,
    /// Whether a plain move to the desktop may be shown at once.
    pub fast_path_allowed: bool,
    /// Whether the target is an empty place of the desktop.
    pub empty_desktop: bool,
}

/// How a drag goes on: Escape cancels it, letting go of the left button drops.
pub open spec fn drag_step(f: DragFacts) -> DragStep {
    if f.escape {
        DragStep::Cancel
    } else if f.keys % 2 == 1 {
        DragStep::Continue
    } else if f.point_known && f.fast_path_allowed && (f.keys == 0 || f.keys == MK_SHIFT)
        && f.empty_desktop {
        DragStep::DropOnDesktop
    } else {
        DragStep::Drop
    }
}

/// A drag goes on as long as the left button is down and Escape is not, and is never dropped then; it is
/// shown on the desktop at once only where it is a plain move to an empty place there.
pub proof fn a_drag_ends_with_the_button_or_escape(f: DragFacts, left: u32, other: u32)
    requires
        left <= 1,
        other <= 0x7fff_ffff,
        f.keys == left + 2 * other,
    ensures
        drag_step(f) == DragStep::Cancel <==> f.escape,
        drag_step(f) == DragStep::Continue <==> !f.escape && left == 1,
        drag_step(f) == DragStep::DropOnDesktop ==> left == 0 && (other == 0 || other == 2)
            && f.empty_desktop && f.point_known && f.fast_path_allowed,
        !f.escape && left == 0 && f.empty_desktop && f.point_known && f.fast_path_allowed && (other
            == 0 || other == 2) ==> drag_step(f) == DragStep::DropOnDesktop,
{
}

/// See [`drag_step`].
pub fn query_continue_drag(f: DragFacts) -> (step: DragStep)
    ensures
        step == drag_step(f),
{
    if f.escape {
        DragStep::Cancel
    } else if f.keys % 2 == 1 {
        DragStep::Continue
    } else if f.point_known && f.fast_path_allowed && desktop_move_fast_path_modifiers_allowed(
        f.keys,
    ) && f.empty_desktop {
        DragStep::DropOnDesktop
    } else {
        DragStep::Drop
    }
}

} // verus!
