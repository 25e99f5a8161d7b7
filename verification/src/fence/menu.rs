//! The menu of a fence: its lines, what each asks for, and the dialog that asks for a new name.

use super::grid::{held, hold_inside};
use crate::config::saturated;
use crate::geometry::Area;
use crate::text::{owned, push_decimal, trim, trimmed, decimal};
use crate::utils::{at_dpi, pixels};
use vstd::prelude::*;
use vstd::string::*;

verus! {

/// One line of a menu.
pub struct MenuItem {
    pub id: u32,
    pub label: String,
    pub checked: bool,
}

/// The command that deletes the fence, or ends the taking of downloads where it is their box.
pub const CMD_DELETE: u32 = 1001;

/// The command that asks for a new name.
pub const CMD_RENAME: u32 = 1005;

/// The command that hides the download box.
pub const CMD_HIDE_DOWNLOAD: u32 = 1010;

/// The command that opens the fence's folder.
pub const CMD_OPEN: u32 = 1011;

/// The opacities that can be picked, each with its command, in millionths.
pub open spec fn opacity_presets() -> Seq<(u32, u32)> {
    seq![(1002u32, 1_000_000u32), (1003, 700_000), (1004, 450_000), (1012, 300_000)]
}

/// The icon sizes that can be picked, each with its command.
pub open spec fn icon_presets() -> Seq<(u32, u32)> {
    seq![(1006u32, 24u32), (1007, 32), (1008, 48), (1009, 64)]
}

/// The title sizes that can be picked, each with its command.
pub open spec fn title_presets() -> Seq<(u32, u32)> {
    seq![(1013u32, 12u32), (1014, 14), (1015, 16), (1016, 18), (1017, 20), (1018, 24)]
}

fn opacity_table() -> (table: Vec<(u32, u32)>)
    ensures
        table@ == opacity_presets(),
{
    let table: Vec<(u32, u32)> = vec![
        (1002, 1_000_000),
        (1003, 700_000),
        (1004, 450_000),
        (1012, 300_000),
    ];
    assert(table@ =~= opacity_presets());
    table
}

fn icon_table() -> (table: Vec<(u32, u32)>)
    ensures
        table@ == icon_presets(),
{
    let table: Vec<(u32, u32)> = vec![(1006, 24), (1007, 32), (1008, 48), (1009, 64)];
    assert(table@ =~= icon_presets());
    table
}

fn title_table() -> (table: Vec<(u32, u32)>)
    ensures
        table@ == title_presets(),
{
    let table: Vec<(u32, u32)> = vec![
        (1013, 12),
        (1014, 14),
        (1015, 16),
        (1016, 18),
        (1017, 20),
        (1018, 24),
    ];
    assert(table@ =~= title_presets());
    table
}

/// How far apart two opacities are.
pub open spec fn apart(a: int, b: int) -> int {
    if a > b {
        a - b
    } else {
        b - a
    }
}

/// Whether preset `k` is the one that `opacity` is shown as: the nearest, the first of two that are
/// equally near.
pub open spec fn is_nearest_preset(opacity: int, k: int) -> bool {
    let t = opacity_presets();
    &&& 0 <= k < t.len()
    &&& forall|j: int|
        0 <= j < t.len() ==> apart(opacity, t[k].1 as int) <= apart(
            opacity,
            (#[trigger] t[j]).1 as int,
        )
    &&& forall|j: int|
        0 <= j < k ==> apart(opacity, t[k].1 as int) < apart(
            opacity,
            (#[trigger] t[j]).1 as int,
        )
}

/// The preset that `opacity` is shown as; see [`is_nearest_preset`].
pub fn nearest_preset(opacity: u32) -> (k: usize)
    ensures
        is_nearest_preset(opacity as int, k as int),
{
    let table = opacity_table();
    let mut best: usize = 0;
    for i in 1..table.len()
        invariant
            table@ == opacity_presets(),
            best < i,
            best < table@.len(),
            forall|j: int|
                0 <= j < i ==> apart(opacity as int, table@[best as int].1 as int) <= apart(
                    opacity as int,
                    (#[trigger] table@[j]).1 as int,
                ),
            forall|j: int|
                0 <= j < best ==> apart(opacity as int, table@[best as int].1 as int) < apart(
                    opacity as int,
                    (#[trigger] table@[j]).1 as int,
                ),
    {
        let a: u32 = if opacity > table[i].1 {
            opacity - table[i].1
        } else {
            table[i].1 - opacity
        };
        let b: u32 = if opacity > table[best].1 {
            opacity - table[best].1
        } else {
            table[best].1 - opacity
        };
        if a < b {
            best = i;
        }
    }
    best
}

/// The lines by which an opacity is picked: the percentages, the nearest one checked.
pub fn opacity_items(opacity: u32) -> (items: Vec<MenuItem>)
    ensures
        items@.len() == 4,
        forall|i: int|
            0 <= i < 4 ==> (#[trigger] items@[i]).id == opacity_presets()[i].0 && items@[i].checked
                == is_nearest_preset(opacity as int, i) && items@[i].label@ == decimal(
                (opacity_presets()[i].1 / 10_000) as nat,
            ) + "%"@,
{
    let table = opacity_table();
    let best: usize = nearest_preset(opacity);
    let mut items: Vec<MenuItem> = Vec::new();
    for i in 0..table.len()
        invariant
            table@ == opacity_presets(),
            is_nearest_preset(opacity as int, best as int),
            items@.len() == i,
            forall|j: int|
                0 <= j < i ==> (#[trigger] items@[j]).id == opacity_presets()[j].0
                    && items@[j].checked == is_nearest_preset(opacity as int, j)
                    && items@[j].label@ == decimal((opacity_presets()[j].1 / 10_000) as nat)
                    + "%"@,
    {
        let mut label = String::new();
        push_decimal(&mut label, (table[i].1 / 10_000) as u128);
        assert(label@ =~= decimal((table@[i as int].1 / 10_000) as nat));
        label.append("%");
        proof {
            let t = opacity_presets();
            assert(t[i as int] == t[i as int]);
            assert(t[best as int] == t[best as int]);
            assert(is_nearest_preset(opacity as int, i as int) ==> i == best);
        }
        items.push(MenuItem { id: table[i].0, label, checked: i == best });
    }
    items
}

/// Whether `items` are the lines of the sizes in `table`, with `current` checked.
pub open spec fn are_size_items(items: Seq<MenuItem>, table: Seq<(u32, u32)>, current: u32) -> bool {
    &&& items.len() == table.len()
    &&& forall|i: int|
        0 <= i < table.len() ==> (#[trigger] items[i]).id == table[i].0 && items[i].checked == (
        current == table[i].1) && items[i].label@ == decimal(table[i].1 as nat) + " px"@
}

fn size_items(table: &Vec<(u32, u32)>, current: u32) -> (items: Vec<MenuItem>)
    ensures
        are_size_items(items@, table@, current),
{
    let mut items: Vec<MenuItem> = Vec::new();
    for i in 0..table.len()
        invariant
            items@.len() == i,
            forall|j: int|
                0 <= j < i ==> (#[trigger] items@[j]).id == table@[j].0 && items@[j].checked == (
                current == table@[j].1) && items@[j].label@ == decimal(table@[j].1 as nat)
                    + " px"@,
    {
        let mut label = String::new();
        push_decimal(&mut label, table[i].1 as u128);
        assert(label@ =~= decimal(table@[i as int].1 as nat));
        label.append(" px");
        items.push(MenuItem { id: table[i].0, label, checked: current == table[i].1 });
    }
    items
}

/// The lines by which the icon size of all fences is picked.
pub fn icon_items(icon: u32) -> (items: Vec<MenuItem>)
    ensures
        are_size_items(items@, icon_presets(), icon),
{
    let table = icon_table();
    size_items(&table, icon)
}

/// The lines by which the title size of all fences is picked.
pub fn title_items(size: u32) -> (items: Vec<MenuItem>)
    ensures
        are_size_items(items@, title_presets(), size),
{
    let table = title_table();
    size_items(&table, size)
}

/// The command of each line.
pub open spec fn ids(items: Seq<MenuItem>) -> Seq<u32> {
    items.map_values(|item: MenuItem| item.id)
}

/// The label of each line.
pub open spec fn labels(items: Seq<MenuItem>) -> Seq<Seq<char>> {
    items.map_values(|item: MenuItem| item.label@)
}

/// The first lines of a fence's menu: delete it (or end the taking of downloads, where it is their
/// box, and hide that), open its folder, rename it.
pub fn head_items(is_download: bool) -> (items: Vec<MenuItem>)
    ensures
        ids(items@) == if is_download {
            seq![CMD_DELETE, CMD_HIDE_DOWNLOAD, CMD_OPEN, CMD_RENAME]
        } else {
            seq![CMD_DELETE, CMD_OPEN, CMD_RENAME]
        },
        labels(items@) == if is_download {
            seq!["关闭下载接管"@, "隐藏下载收纳箱"@, "打开收纳箱"@, "重命名..."@]
        } else {
            seq!["删除此栅栏"@, "打开收纳箱"@, "重命名..."@]
        },
        forall|i: int| 0 <= i < items@.len() ==> !(#[trigger] items@[i]).checked,
{
    let mut items: Vec<MenuItem> = Vec::new();
    if is_download {
        items.push(MenuItem { id: CMD_DELETE, label: owned("关闭下载接管"), checked: false });
        items.push(
            MenuItem { id: CMD_HIDE_DOWNLOAD, label: owned("隐藏下载收纳箱"), checked: false },
        );
    } else {
        items.push(MenuItem { id: CMD_DELETE, label: owned("删除此栅栏"), checked: false });
    }
    items.push(MenuItem { id: CMD_OPEN, label: owned("打开收纳箱"), checked: false });
    items.push(MenuItem { id: CMD_RENAME, label: owned("重命名..."), checked: false });
    assert(ids(items@) =~= if is_download {
        seq![CMD_DELETE, CMD_HIDE_DOWNLOAD, CMD_OPEN, CMD_RENAME]
    } else {
        seq![CMD_DELETE, CMD_OPEN, CMD_RENAME]
    });
    assert(labels(items@) =~= if is_download {
        seq!["关闭下载接管"@, "隐藏下载收纳箱"@, "打开收纳箱"@, "重命名..."@]
    } else {
        seq!["删除此栅栏"@, "打开收纳箱"@, "重命名..."@]
    });
    items
}

/// What a command of a fence's menu asks for.
#[derive(Clone, Copy, Debug, PartialEq, Eq, Structural)]
pub enum FenceCommand {
    /// Delete the fence, or end the taking of downloads where it is their box.
    Delete,
    Rename,
    HideDownloadBox,
    OpenFolder,
    /// In millionths, for this fence.
    Opacity(u32),
    /// For all fences, which then settle on the new grid.
    IconSize(u32),
    /// For all fences, which then settle on the new grid.
    TitleSize(u32),
    Nothing,
}

/// What the command `cmd` asks for.
pub open spec fn command(cmd: u32) -> FenceCommand {
    if cmd == CMD_DELETE {
        FenceCommand::Delete
    } else if cmd == CMD_RENAME {
        FenceCommand::Rename
    } else if cmd == CMD_HIDE_DOWNLOAD {
        FenceCommand::HideDownloadBox
    } else if cmd == CMD_OPEN {
        FenceCommand::OpenFolder
    } else if exists|i: int|
        0 <= i < opacity_presets().len() && (#[trigger] opacity_presets()[i]).0 == cmd {
        FenceCommand::Opacity(value_of(opacity_presets(), cmd))
    } else if exists|i: int|
        0 <= i < icon_presets().len() && (#[trigger] icon_presets()[i]).0 == cmd {
        FenceCommand::IconSize(value_of(icon_presets(), cmd))
    } else if exists|i: int|
        0 <= i < title_presets().len() && (#[trigger] title_presets()[i]).0 == cmd {
        FenceCommand::TitleSize(value_of(title_presets(), cmd))
    } else {
        FenceCommand::Nothing
    }
}

/// The value beside `cmd` in `table`.
pub open spec fn value_of(table: Seq<(u32, u32)>, cmd: u32) -> u32
    decreases table.len(),
{
    if table.len() == 0 {
        0
    } else if table[0].0 == cmd {
        table[0].1
    } else {
        value_of(table.skip(1), cmd)
    }
}

fn look_up(table: &Vec<(u32, u32)>, cmd: u32) -> (value: Option<u32>)
    ensures
        match value {
            Some(v) => (exists|i: int| 0 <= i < table@.len() && (#[trigger] table@[i]).0 == cmd)
                && v == value_of(table@, cmd),
            None => forall|i: int| 0 <= i < table@.len() ==> (#[trigger] table@[i]).0 != cmd,
        },
{
    assert(table@.skip(0) =~= table@);
    for i in 0..table.len()
        invariant
            forall|j: int| 0 <= j < i ==> (#[trigger] table@[j]).0 != cmd,
            value_of(table@.skip(i as int), cmd) == value_of(table@, cmd),
    {
        assert(table@.skip(i as int)[0] == table@[i as int]);
        if table[i].0 == cmd {
            return Some(table[i].1);
        }
        assert(table@.skip(i as int).skip(1) =~= table@.skip(i + 1));
    }
    None
}

/// See [`command`].
pub fn fence_command(cmd: u32) -> (asked: FenceCommand)
    ensures
        asked == command(cmd),
{
    if cmd == CMD_DELETE {
        return FenceCommand::Delete;
    }
    if cmd == CMD_RENAME {
        return FenceCommand::Rename;
    }
    if cmd == CMD_HIDE_DOWNLOAD {
        return FenceCommand::HideDownloadBox;
    }
    if cmd == CMD_OPEN {
        return FenceCommand::OpenFolder;
    }
    let opacities = opacity_table();
    if let Some(v) = look_up(&opacities, cmd) {
        return FenceCommand::Opacity(v);
    }
    let icons = icon_table();
    if let Some(v) = look_up(&icons, cmd) {
        return FenceCommand::IconSize(v);
    }
    let titles = title_table();
    if let Some(v) = look_up(&titles, cmd) {
        return FenceCommand::TitleSize(v);
    }
    FenceCommand::Nothing
}

/// Picking a line sets what the line shows: each command stands for the value beside it, and an
/// opacity that was picked is the one that is checked afterwards.
pub proof fn a_line_sets_what_it_shows(k: int)
    ensures
        0 <= k < opacity_presets().len() ==> command(opacity_presets()[k].0)
            == FenceCommand::Opacity(opacity_presets()[k].1) && is_nearest_preset(
            opacity_presets()[k].1 as int,
            k,
        ),
        0 <= k < icon_presets().len() ==> command(icon_presets()[k].0) == FenceCommand::IconSize(
            icon_presets()[k].1,
        ),
        0 <= k < title_presets().len() ==> command(title_presets()[k].0)
            == FenceCommand::TitleSize(title_presets()[k].1),
{
    reveal_with_fuel(value_of, 7);
}

/// The opacity that is checked is as near as any that can be picked, and with equal distances the more
/// opaque one.
pub proof fn the_nearest_opacity_is_checked(opacity: int, k: int, j: int)
    requires
        is_nearest_preset(opacity, k),
        0 <= j < opacity_presets().len(),
    ensures
        ({
            let (d, e) = (
                opacity - opacity_presets()[k].1 as int,
                opacity - opacity_presets()[j].1 as int,
            );
            d * d <= e * e && (d * d == e * e ==> opacity_presets()[k].1
                >= opacity_presets()[j].1)
        }),
{
    let t = opacity_presets();
    let (d, e) = (opacity - t[k].1 as int, opacity - t[j].1 as int);
    assert(apart(opacity, t[k].1 as int) <= apart(opacity, t[j].1 as int));
    let (u, v) = (apart(opacity, t[k].1 as int), apart(opacity, t[j].1 as int));
    assert(d * d == u * u && e * e == v * v && u * u <= v * v && (u < v ==> u * u < v * v))
        by (nonlinear_arith)
        requires
            0 <= u <= v,
            u == d || u == -d,
            v == e || v == -e,
    ;
    if j < k {
        assert(apart(opacity, t[k].1 as int) < apart(opacity, t[j].1 as int));
    } else {
        assert(t[k].1 >= t[j].1);
    }
}

/// The name to take from what was typed: without the space around it, and only if something is left.
pub fn new_title(typed: &str) -> (title: Option<String>)
    ensures
        match title {
            Some(title) => title@ == trimmed(typed@) && title@.len() > 0,
            None => trimmed(typed@).len() == 0,
        },
{
    let name = trim(typed);
    if name.as_str().is_empty() {
        None
    } else {
        Some(name)
    }
}

/// The dialog that asks for a name: the size of its inside and the places of its parts, in pixels.
#[derive(Clone, Copy, Debug, PartialEq, Eq, Structural)]
pub struct PromptLayout {
    pub pad: i32,
    pub width: i32,
    pub height: i32,
    pub edit_h: i32,
    pub button_w: i32,
    pub button_h: i32,
    pub button_gap: i32,
    pub button_y: i32,
    pub font: i32,
}

/// `v` logical pixels at `dpi` (96 at least).
pub open spec fn px(v: int, dpi: int) -> int {
    at_dpi(
        v,
        if dpi < 96 {
            96
        } else {
            dpi
        },
    )
}

fn to_px(v: u32, dpi: u32) -> (out: i32)
    requires
        v <= 0x1_0000,
    ensures
        out == px(v as int, dpi as int),
        out >= 0,
{
    if dpi < 96 {
        pixels(v, 96)
    } else {
        pixels(v, dpi)
    }
}

fn sum(a: i32, b: i32) -> (out: i32)
    requires
        a >= 0,
        b >= 0,
    ensures
        out == saturated(a + b),
        out >= 0,
{
    if a > i32::MAX - b {
        i32::MAX
    } else {
        a + b
    }
}

/// The dialog at `dpi`: a field above two buttons, with room around them. No length is beyond the
/// largest number.
pub fn prompt_layout(dpi: u32) -> (l: PromptLayout)
    ensures
        l.pad == px(18, dpi as int),
        l.width == px(360, dpi as int),
        l.edit_h == px(30, dpi as int),
        l.button_w == px(88, dpi as int),
        l.button_h == px(32, dpi as int),
        l.button_gap == px(12, dpi as int),
        l.button_y == saturated(l.pad + l.edit_h + px(22, dpi as int)),
        l.height == saturated(l.button_y + l.button_h + l.pad),
        l.font == px(15, dpi as int),
{
    let pad: i32 = to_px(18, dpi);
    let edit_h: i32 = to_px(30, dpi);
    let button_h: i32 = to_px(32, dpi);
    let button_y: i32 = sum(sum(pad, edit_h), to_px(22, dpi));
    PromptLayout {
        pad,
        width: to_px(360, dpi),
        height: sum(sum(button_y, button_h), pad),
        edit_h,
        button_w: to_px(88, dpi),
        button_h,
        button_gap: to_px(12, dpi),
        button_y,
        font: to_px(15, dpi),
    }
}

/// `WM_CLOSE`.
pub const WM_CLOSE: u32 = 0x0010;

/// `WM_COMMAND`.
pub const WM_COMMAND: u32 = 0x0111;

/// The button that takes the text of the dialog; the key Enter is the same.
pub const PROMPT_OK: usize = 1;

/// The button that leaves the dialog; the key Escape is the same.
pub const PROMPT_CANCEL: usize = 2;

/// What a message says to the dialog.
#[derive(Clone, Copy, Debug, PartialEq, Eq)]
pub enum PromptEvent {
    /// The text is taken, and the dialog goes.
    Accept,
    /// The dialog goes.
    Cancel,
    /// Nothing is to be done.
    Ignore,
    /// The system answers.
    Other,
}

/// What the message `msg` says to the dialog; a command is in the low half of its parameter.
pub fn prompt_event(msg: u32, wparam: usize) -> (event: PromptEvent)
    ensures
        event == (if msg == WM_COMMAND {
            if wparam % 0x1_0000 == PROMPT_OK {
                PromptEvent::Accept
            } else if wparam % 0x1_0000 == PROMPT_CANCEL {
                PromptEvent::Cancel
            } else {
                PromptEvent::Ignore
            }
        } else if msg == WM_CLOSE {
            PromptEvent::Cancel
        } else {
            PromptEvent::Other
        }),
{
    if msg == WM_COMMAND {
        let id: usize = wparam % 0x1_0000;
        if id == PROMPT_OK {
            PromptEvent::Accept
        } else if id == PROMPT_CANCEL {
            PromptEvent::Cancel
        } else {
            PromptEvent::Ignore
        }
    } else if msg == WM_CLOSE {
        PromptEvent::Cancel
    } else {
        PromptEvent::Other
    }
}

/// Where a dialog of size `w` and `h` stands over the window `parent`: in its middle and a third
/// down, within the work area.
pub fn prompt_place(parent: &Area, w: i32, h: i32, work: &Area) -> (at: (i32, i32))
    requires
        0 <= w <= work.right - work.left,
        0 <= h <= work.bottom - work.top,
        parent.left <= parent.right,
        parent.top <= parent.bottom,
    ensures
        at.0 == held(
            crate::config::saturated(
                parent.left + super::grid::trunc_div(parent.right - parent.left - w, 2),
            ),
            work.left as int,
            work.right - w,
        ),
        at.1 == held(
            crate::config::saturated(
                parent.top + super::grid::trunc_div(parent.bottom - parent.top - h, 3),
            ),
            work.top as int,
            work.bottom - h,
        ),
        work.left <= at.0 && at.0 + w <= work.right,
        work.top <= at.1 && at.1 + h <= work.bottom,
        work.left < at.0 && at.0 + w < work.right ==> -1 <= 2 * at.0 + w - (parent.left
            + parent.right) <= 1,
        work.top < at.1 && at.1 + h < work.bottom ==> -2 <= 3 * at.1 + h - (2 * parent.top
            + parent.bottom) <= 2,
{
    let dx: i64 = parent.right as i64 - parent.left as i64 - w as i64;
    let dy: i64 = parent.bottom as i64 - parent.top as i64 - h as i64;
    let half: i64 = if dx >= 0 {
        dx / 2
    } else {
        -((-dx) / 2)
    };
    let third: i64 = if dy >= 0 {
        dy / 3
    } else {
        -((-dy) / 3)
    };
    let x: i64 = parent.left as i64 + half;
    let y: i64 = parent.top as i64 + third;
    let x: i32 = if x < i32::MIN as i64 {
        i32::MIN
    } else if x > i32::MAX as i64 {
        i32::MAX
    } else {
        x as i32
    };
    let y: i32 = if y < i32::MIN as i64 {
        i32::MIN
    } else if y > i32::MAX as i64 {
        i32::MAX
    } else {
        y as i32
    };
    (hold_inside(x, w, work.left, work.right), hold_inside(y, h, work.top, work.bottom))
}

} // verus!
