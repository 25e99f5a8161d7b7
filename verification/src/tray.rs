//! The icon in the notification area: how it looks, its menu, and what its clicks and commands do.

use crate::config::opt_view;
use crate::text::owned;
use vstd::prelude::*;
use vstd::string::*;

verus! {

/// The message that the icon sends.
pub const WM_APP_TRAY: u32 = 0x800A;

pub const TRAY_ID: u32 = 1;

pub const MENU_NEW_PORTAL: u32 = 2001;

pub const MENU_NEW_BOX: u32 = 2002;

pub const MENU_TOGGLE_VIS: u32 = 2003;

pub const MENU_ZEN: u32 = 2004;

pub const MENU_GHOST: u32 = 2005;

pub const MENU_SWEEP: u32 = 2006;

pub const MENU_AUTOSTART: u32 = 2007;

pub const MENU_CONFIG_DIR: u32 = 2008;

pub const MENU_EXIT: u32 = 2009;

pub const MENU_RELOAD: u32 = 2010;

pub const MENU_DOWNLOAD_ENABLED: u32 = 2011;

pub const MENU_DOWNLOAD_VISIBLE: u32 = 2012;

pub const MENU_DESKTOP_AVOID: u32 = 2013;

pub const MENU_DESKTOP_ROLLBACK: u32 = 2014;

pub const MENU_ZEN_HOTKEY: u32 = 2015;

/// The colour of the icon's bars: white, a little transparent.
pub const BAR_COLOUR: u32 = 0xE8FF_FFFF;

/// The bar in which row `r` lies, by its first row; each is four rows high.
pub open spec fn bar_of(r: int) -> Option<int> {
    if 2 <= r <= 5 {
        Some(2)
    } else if 7 <= r <= 10 {
        Some(7)
    } else if 12 <= r <= 15 {
        Some(12)
    } else {
        None
    }
}

/// Whether the icon is drawn at row `r` and column `c`: on one of three bars, which lack their
/// corners.
pub open spec fn is_drawn(r: int, c: int) -> bool {
    match bar_of(r) {
        Some(top) => 2 <= c < 14 && !((r == top || r == top + 3) && (c == 2 || c == 13)),
        None => false,
    }
}

/// The icon shows three bars of the same shape, five rows apart, each the same from left and right, with
/// room around them.
pub proof fn the_icon_shows_three_bars(r: int, c: int)
    ensures
        is_drawn(r, c) == is_drawn(r, 15 - c),
        2 <= r <= 10 ==> is_drawn(r, c) == is_drawn(r + 5, c),
        2 <= r <= 5 ==> is_drawn(r, c) == is_drawn(7 - r, c),
        3 <= r <= 4 ==> (is_drawn(r, c) <==> 2 <= c < 14),
        r == 2 ==> (is_drawn(r, c) <==> 3 <= c < 13),
        r < 2 || r == 6 || r == 11 || r > 15 ==> !is_drawn(r, c),
{
}

/// The icon, 16 rows of 16 pixels.
pub fn make_tray_icon() -> (pixels: Vec<u32>)
    ensures
        pixels@ == Seq::new(
            256,
            |i: int|
                if is_drawn(i / 16, i % 16) {
                    BAR_COLOUR
                } else {
                    0
                },
        ),
{
    let mut pixels: Vec<u32> = Vec::new();
    for i in 0u32..256
        invariant
            pixels@.len() == i,
            forall|j: int|
                0 <= j < i ==> #[trigger] pixels@[j] == (if is_drawn(j / 16, j % 16) {
                    BAR_COLOUR
                } else {
                    0
                }),
    {
        let r: u32 = i / 16;
        let c: u32 = i % 16;
        let first: u32 = if r >= 12 {
            12
        } else if r >= 7 {
            7
        } else {
            2
        };
        let on_bar: bool = first <= r && r <= first + 3 && 2 <= c && c < 14;
        let corner: bool = (r == first || r == first + 3) && (c == 2 || c == 13);
        if on_bar && !corner {
            pixels.push(BAR_COLOUR);
        } else {
            pixels.push(0);
        }
    }
    pixels
}

/// A line of the menu.
pub struct TrayItem {
    /// 0 for a line that cannot be picked.
    pub id: u32,
    /// Empty for a separating line.
    pub label: String,
    pub checked: bool,
    pub grayed: bool,
    pub separator: bool,
}

/// A line of the menu, over plain values.
pub struct TrayLine {
    pub id: u32,
    pub label: Seq<char>,
    pub checked: bool,
    pub grayed: bool,
    pub separator: bool,
}

impl View for TrayItem {
    type V = TrayLine;

    open spec fn view(&self) -> TrayLine {
        TrayLine {
            id: self.id,
            label: self.label@,
            checked: self.checked,
            grayed: self.grayed,
            separator: self.separator,
        }
    }
}

/// The switches that the menu shows.
#[derive(Clone, Copy, Debug, PartialEq, Eq, Structural)]
pub struct TraySwitches {
    pub zen: bool,
    pub ghost_mode: bool,
    pub autostart: bool,
    pub download_enabled: bool,
    pub download_visible: bool,
    pub desktop_avoid: bool,
}

pub open spec fn line(id: u32, label: Seq<char>, checked: bool, grayed: bool) -> TrayLine {
    TrayLine { id, label, checked, grayed, separator: false }
}

pub open spec fn gap() -> TrayLine {
    TrayLine { id: 0, label: ""@, checked: false, grayed: false, separator: true }
}

/// The label of the line for Zen mode: with its hotkey behind a tab, where it has one.
pub open spec fn zen_label(hotkey: Option<Seq<char>>) -> Seq<char> {
    match hotkey {
        Some(hotkey) => "Zen 模式\t"@ + hotkey,
        None => "Zen 模式"@,
    }
}

/// The menu.
pub open spec fn tray_lines(s: TraySwitches, hotkey: Option<Seq<char>>) -> Seq<TrayLine> {
    seq![
        line(MENU_NEW_PORTAL, "新建文件夹栅栏…"@, false, false),
        line(MENU_NEW_BOX, "新建收纳栅栏"@, false, false),
        gap(),
        line(MENU_TOGGLE_VIS, "隐藏/显示全部栅栏"@, false, false),
        line(MENU_ZEN, zen_label(hotkey), s.zen, false),
        line(MENU_ZEN_HOTKEY, "设置 Zen 快捷键…"@, false, false),
        line(MENU_GHOST, "Ghost 模式(悬停显现)"@, s.ghost_mode, false),
        line(MENU_SWEEP, "立即整理桌面"@, false, false),
        gap(),
        line(MENU_DOWNLOAD_ENABLED, "下载接管"@, s.download_enabled, false),
        line(
            MENU_DOWNLOAD_VISIBLE,
            "显示下载收纳箱"@,
            s.download_visible,
            !s.download_enabled,
        ),
        line(MENU_DESKTOP_AVOID, "桌面图标避让"@, s.desktop_avoid, false),
        line(MENU_DESKTOP_ROLLBACK, "撤销并关闭避让"@, false, false),
        line(0, "搬移后 1 分钟内可撤销"@, false, true),
        gap(),
        line(MENU_AUTOSTART, "开机自启"@, s.autostart, false),
        line(MENU_RELOAD, "重新加载配置"@, false, false),
        line(MENU_CONFIG_DIR, "打开配置目录"@, false, false),
        gap(),
        line(MENU_EXIT, "退出"@, false, false),
    ]
}

fn item(id: u32, label: &str, checked: bool, grayed: bool) -> (out: TrayItem)
    ensures
        out@ == line(id, label@, checked, grayed),
{
    TrayItem { id, label: owned(label), checked, grayed, separator: false }
}

fn separator() -> (out: TrayItem)
    ensures
        out@ == gap(),
{
    TrayItem { id: 0, label: owned(""), checked: false, grayed: false, separator: true }
}

/// See [`tray_lines`].
pub fn tray_menu(s: TraySwitches, zen_hotkey: &Option<String>) -> (items: Vec<TrayItem>)
    ensures
        items@.map_values(|i: TrayItem| i@) == tray_lines(s, opt_view(*zen_hotkey)),
{
    let zen = match zen_hotkey {
        Some(hotkey) => {
            let mut label = owned("Zen 模式\t");
            label.append(hotkey.as_str());
            label
        },
        None => owned("Zen 模式"),
    };
    let items = vec![
        item(MENU_NEW_PORTAL, "新建文件夹栅栏…", false, false),
        item(MENU_NEW_BOX, "新建收纳栅栏", false, false),
        separator(),
        item(MENU_TOGGLE_VIS, "隐藏/显示全部栅栏", false, false),
        item(MENU_ZEN, zen.as_str(), s.zen, false),
        item(MENU_ZEN_HOTKEY, "设置 Zen 快捷键…", false, false),
        item(MENU_GHOST, "Ghost 模式(悬停显现)", s.ghost_mode, false),
        item(MENU_SWEEP, "立即整理桌面", false, false),
        separator(),
        item(MENU_DOWNLOAD_ENABLED, "下载接管", s.download_enabled, false),
        item(
            MENU_DOWNLOAD_VISIBLE,
            "显示下载收纳箱",
            s.download_visible,
            !s.download_enabled,
        ),
        item(MENU_DESKTOP_AVOID, "桌面图标避让", s.desktop_avoid, false),
        item(MENU_DESKTOP_ROLLBACK, "撤销并关闭避让", false, false),
        item(0, "搬移后 1 分钟内可撤销", false, true),
        separator(),
        item(MENU_AUTOSTART, "开机自启", s.autostart, false),
        item(MENU_RELOAD, "重新加载配置", false, false),
        item(MENU_CONFIG_DIR, "打开配置目录", false, false),
        separator(),
        item(MENU_EXIT, "退出", false, false),
    ];
    assert(items@.map_values(|i: TrayItem| i@) =~= tray_lines(s, opt_view(*zen_hotkey)));
    items
}

/// A click on the icon.
#[derive(Clone, Copy, Debug, PartialEq, Eq, Structural)]
pub enum TrayClick {
    ShowMenu,
    ToggleZen,
    Nothing,
}

/// What a message of the icon (the low word of `lparam`) asks for: the right button and the menu key
/// open the menu, a double click switches Zen mode.
pub open spec fn click_of(lparam: int) -> TrayClick {
    let message = lparam % 0x1_0000;
    if message == 0x0205 || message == 0x007B {
        TrayClick::ShowMenu
    } else if message == 0x0203 {
        TrayClick::ToggleZen
    } else {
        TrayClick::Nothing
    }
}

/// See [`click_of`].
pub fn tray_click(lparam: u32) -> (click: TrayClick)
    ensures
        click == click_of(lparam as int),
{
    let message: u32 = lparam % 0x1_0000;
    if message == 0x0205 || message == 0x007B {
        TrayClick::ShowMenu
    } else if message == 0x0203 {
        TrayClick::ToggleZen
    } else {
        TrayClick::Nothing
    }
}

/// A command of the menu.
#[derive(Clone, Copy, Debug, PartialEq, Eq, Structural)]
pub enum TrayCommand {
    NewPortal,
    NewBox,
    /// Both the line for all fences and the one for Zen mode.
    ToggleZen,
    SetZenHotkey,
    ToggleGhost,
    Sweep,
    ToggleDownloads,
    ToggleDownloadBox,
    ToggleAvoidance,
    RollBackAvoidance,
    ToggleAutostart,
    Reload,
    OpenConfigDir,
    Exit,
    Nothing,
}

/// The command that a picked line stands for.
pub open spec fn tray_command_of(id: u32) -> TrayCommand {
    if id == MENU_NEW_PORTAL {
        TrayCommand::NewPortal
    } else if id == MENU_NEW_BOX {
        TrayCommand::NewBox
    } else if id == MENU_TOGGLE_VIS || id == MENU_ZEN {
        TrayCommand::ToggleZen
    } else if id == MENU_GHOST {
        TrayCommand::ToggleGhost
    } else if id == MENU_SWEEP {
        TrayCommand::Sweep
    } else if id == MENU_AUTOSTART {
        TrayCommand::ToggleAutostart
    } else if id == MENU_CONFIG_DIR {
        TrayCommand::OpenConfigDir
    } else if id == MENU_EXIT {
        TrayCommand::Exit
    } else if id == MENU_RELOAD {
        TrayCommand::Reload
    } else if id == MENU_DOWNLOAD_ENABLED {
        TrayCommand::ToggleDownloads
    } else if id == MENU_DOWNLOAD_VISIBLE {
        TrayCommand::ToggleDownloadBox
    } else if id == MENU_DESKTOP_AVOID {
        TrayCommand::ToggleAvoidance
    } else if id == MENU_DESKTOP_ROLLBACK {
        TrayCommand::RollBackAvoidance
    } else if id == MENU_ZEN_HOTKEY {
        TrayCommand::SetZenHotkey
    } else {
        TrayCommand::Nothing
    }
}

/// See [`tray_command_of`].
pub fn tray_command(id: u32) -> (command: TrayCommand)
    ensures
        command == tray_command_of(id),
{
    match id {
        2001 => TrayCommand::NewPortal,
        2002 => TrayCommand::NewBox,
        2003 | 2004 => TrayCommand::ToggleZen,
        2005 => TrayCommand::ToggleGhost,
        2006 => TrayCommand::Sweep,
        2007 => TrayCommand::ToggleAutostart,
        2008 => TrayCommand::OpenConfigDir,
        2009 => TrayCommand::Exit,
        2010 => TrayCommand::Reload,
        2011 => TrayCommand::ToggleDownloads,
        2012 => TrayCommand::ToggleDownloadBox,
        2013 => TrayCommand::ToggleAvoidance,
        2014 => TrayCommand::RollBackAvoidance,
        2015 => TrayCommand::SetZenHotkey,
        _ => TrayCommand::Nothing,
    }
}

/// Each line of the menu that can be picked stands for a command, and no other line does.
pub proof fn every_line_does_something(s: TraySwitches, hotkey: Option<Seq<char>>, i: int)
    requires
        0 <= i < tray_lines(s, hotkey).len(),
    ensures
        ({
            let l = tray_lines(s, hotkey)[i];
            (l.id != 0) == (tray_command_of(l.id) != TrayCommand::Nothing)
        }),
{
}

/// A line that switches something is checked while that is on, and no other line is; the box for downloads
/// can be switched only while downloads are taken.
pub proof fn each_line_shows_its_switch(s: TraySwitches, hotkey: Option<Seq<char>>, i: int)
    requires
        0 <= i < tray_lines(s, hotkey).len(),
    ensures
        ({
            let l = tray_lines(s, hotkey)[i];
            let does = tray_command_of(l.id);
            &&& does == TrayCommand::ToggleGhost ==> l.checked == s.ghost_mode
            &&& does == TrayCommand::ToggleAutostart ==> l.checked == s.autostart
            &&& does == TrayCommand::ToggleDownloads ==> l.checked == s.download_enabled
            &&& does == TrayCommand::ToggleDownloadBox ==> l.checked == s.download_visible
            &&& does == TrayCommand::ToggleAvoidance ==> l.checked == s.desktop_avoid
            &&& does == TrayCommand::ToggleZen && l.label != "隐藏/显示全部栅栏"@ ==> l.checked
                == s.zen
            &&& l.checked ==> does == TrayCommand::ToggleGhost || does
                == TrayCommand::ToggleAutostart || does == TrayCommand::ToggleDownloads || does
                == TrayCommand::ToggleDownloadBox || does == TrayCommand::ToggleAvoidance || does
                == TrayCommand::ToggleZen
            &&& l.grayed <==> (does == TrayCommand::ToggleDownloadBox && !s.download_enabled)
                || (!l.separator && l.id == 0)
        }),
{
}

/// Each command but the switching of Zen mode has one line, with the label of what it does; Zen mode has
/// two.
pub proof fn each_label_names_its_command(s: TraySwitches, hotkey: Option<Seq<char>>, i: int)
    requires
        0 <= i < tray_lines(s, hotkey).len(),
    ensures
        ({
            let l = tray_lines(s, hotkey)[i];
            match tray_command_of(l.id) {
                TrayCommand::NewPortal => l.label == "新建文件夹栅栏…"@,
                TrayCommand::NewBox => l.label == "新建收纳栅栏"@,
                TrayCommand::ToggleZen => l.label == "隐藏/显示全部栅栏"@ || l.label == zen_label(
                    hotkey,
                ),
                TrayCommand::SetZenHotkey => l.label == "设置 Zen 快捷键…"@,
                TrayCommand::ToggleGhost => l.label == "Ghost 模式(悬停显现)"@,
                TrayCommand::Sweep => l.label == "立即整理桌面"@,
                TrayCommand::ToggleDownloads => l.label == "下载接管"@,
                TrayCommand::ToggleDownloadBox => l.label == "显示下载收纳箱"@,
                TrayCommand::ToggleAvoidance => l.label == "桌面图标避让"@,
                TrayCommand::RollBackAvoidance => l.label == "撤销并关闭避让"@,
                TrayCommand::ToggleAutostart => l.label == "开机自启"@,
                TrayCommand::Reload => l.label == "重新加载配置"@,
                TrayCommand::OpenConfigDir => l.label == "打开配置目录"@,
                TrayCommand::Exit => l.label == "退出"@,
                TrayCommand::Nothing => l.separator || l.label == "搬移后 1 分钟内可撤销"@,
            }
        }),
{
}

} // verus!
