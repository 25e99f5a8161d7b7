//! The settings: what is kept of each fence, where files live, and how old settings are brought up
//! to date.

use crate::text::owned;
use crate::winpath::{
    a_joined_name_comes_last, file_name, file_name_of, is_plain, is_same_place, is_verbatim, join, joined,
    names, parent, parent_of, place, same_place, takes_names,
};
use vstd::prelude::*;
use vstd::string::*;

verus! {

/// What a fence is for.
#[derive(Clone, Copy, Debug, PartialEq, Eq, Structural)]
pub enum FenceKind {
    /// Settings from before kinds were kept; loading gives such a fence its kind at once.
    Legacy,
    /// A box: what is dropped in is moved into it.
    Collection,
    /// A view of a folder.
    Portal,
    /// The box that takes new downloads.
    Download,
}

impl Default for FenceKind {
    fn default() -> (kind: Self)
        ensures
            kind == FenceKind::Collection,
    {
        FenceKind::Collection
    }
}

/// The kind of a fence whose settings name none.
pub fn legacy_fence_kind() -> (kind: FenceKind)
    ensures
        kind == FenceKind::Legacy,
{
    FenceKind::Legacy
}

/// What is kept of one fence.
#[derive(Clone, Debug)]
pub struct FenceCfg {
    pub id: u32,
    pub title: String,
    pub kind: FenceKind,
    /// None: what is dropped in goes to the vault.
    pub folder: Option<String>,
    pub x: i32,
    pub y: i32,
    pub w: i32,
    pub h: i32,
    /// The window's DPI when this rectangle was kept, 0 where it was not recorded.
    pub dpi: u32,
    /// Whether the place was ever set. None: settings from before this was kept, whose x and y are
    /// trusted even at (0, 0).
    pub pos_set: Option<bool>,
    /// In millionths.
    pub opacity: u32,
    /// The icon size that older settings kept with each fence.
    pub icon: u32,
}

impl FenceCfg {
    /// The same settings.
    pub fn copied(&self) -> (c: FenceCfg)
        ensures
            c == *self,
    {
        FenceCfg {
            id: self.id,
            title: self.title.clone(),
            kind: self.kind,
            folder: match &self.folder {
                Some(dir) => Some(dir.clone()),
                None => None,
            },
            x: self.x,
            y: self.y,
            w: self.w,
            h: self.h,
            dpi: self.dpi,
            pos_set: self.pos_set,
            opacity: self.opacity,
            icon: self.icon,
        }
    }
}

/// The opacity of a new fence, in millionths.
pub fn default_opacity() -> (opacity: u32)
    ensures
        opacity == 700_000,
{
    700_000
}

/// The icon size of a new fence, in logical pixels.
pub fn default_icon() -> (icon: u32)
    ensures
        icon == 32,
{
    32
}

/// The size of titles where none is set, in logical pixels.
pub fn default_title_font_size() -> (size: u32)
    ensures
        size == 12,
{
    12
}

/// The hotkey of Zen mode that older settings lack.
pub fn default_zen_hotkey() -> (hotkey: Option<String>)
    ensures
        hotkey is Some,
        hotkey->0@ == "Ctrl+Alt+Z"@,
{
    Some(owned("Ctrl+Alt+Z"))
}

/// The hotkey of Zen mode that a first start begins with.
pub fn first_zen_hotkey() -> (hotkey: Option<String>)
    ensures
        hotkey is Some,
        hotkey->0@ == "Ctrl+Shift+Z"@,
{
    Some(owned("Ctrl+Shift+Z"))
}

/// What a switch that older settings lack stands at.
pub fn default_true() -> (on: bool)
    ensures
        on,
{
    true
}

/// The nearest size that titles can have.
pub fn normalize_title_font_size(value: u32) -> (size: u32)
    ensures
        value < 10 ==> size == 10,
        10 <= value <= 32 ==> size == value,
        value > 32 ==> size == 32,
{
    if value < 10 {
        10
    } else if value > 32 {
        32
    } else {
        value
    }
}

impl Default for FenceCfg {
    fn default() -> (cfg: Self)
        ensures
            cfg.id == 0,
            cfg.title@ == "栅栏"@,
            cfg.kind == FenceKind::Collection,
            cfg.folder is None,
            cfg.x == 0,
            cfg.y == 0,
            cfg.w == 260,
            cfg.h == 340,
            cfg.dpi == 96,
            cfg.opacity == 700_000,
            cfg.icon == 32,
            cfg.pos_set is None,
    {
        FenceCfg {
            id: 0,
            title: owned("栅栏"),
            kind: FenceKind::Collection,
            folder: None,
            x: 0,
            y: 0,
            w: 260,
            h: 340,
            dpi: 96,
            opacity: default_opacity(),
            icon: default_icon(),
            pos_set: None,
        }
    }
}

/// A rule of the desktop sweep.
#[derive(Clone, Debug)]
pub struct SweepRule {
    /// Small letters, with the dot, such as ".jpg".
    pub ext: String,
    pub dest: String,
}

/// All settings.
#[derive(Clone, Debug)]
pub struct Config {
    pub fences: Vec<FenceCfg>,
    pub sweep_rules: Vec<SweepRule>,
    pub ghost_mode: bool,
    pub autostart: bool,
    pub vault_dir: Option<String>,
    /// The fence that takes new downloads.
    pub download_box_id: Option<u32>,
    pub download_enabled: bool,
    /// Whether the download box shows while downloads are taken.
    pub download_box_visible: bool,
    /// In logical pixels, for all fences.
    pub icon: u32,
    /// In logical pixels, for all fences.
    pub title_font_size: u32,
    /// None or blank: no hotkey.
    pub zen_hotkey: Option<String>,
    /// Whether desktop icons make room for fences.
    pub desktop_avoid: bool,
    /// 0 and 1: physical pixels, no DPI kept. 2: logical pixels. 3: physical pixels, each fence
    /// with its DPI.
    pub version: u32,
}

impl Default for Config {
    fn default() -> (c: Self)
        ensures
            is_default_config(c),
    {
        Config {
            fences: Vec::new(),
            sweep_rules: Vec::new(),
            ghost_mode: false,
            autostart: false,
            vault_dir: None,
            download_box_id: None,
            download_enabled: true,
            download_box_visible: true,
            icon: default_icon(),
            title_font_size: default_title_font_size(),
            zen_hotkey: first_zen_hotkey(),
            desktop_avoid: false,
            version: 3,
        }
    }
}

/// Whether `c` is what a first start begins with.
pub open spec fn is_default_config(c: Config) -> bool {
    &&& c.fences@.len() == 0
    &&& c.sweep_rules@.len() == 0
    &&& !c.ghost_mode
    &&& !c.autostart
    &&& c.vault_dir is None
    &&& c.download_box_id is None
    &&& c.download_enabled
    &&& c.download_box_visible
    &&& c.icon == 32
    &&& c.title_font_size == 12
    &&& c.zen_hotkey is Some
    &&& c.zen_hotkey->0@ == "Ctrl+Shift+Z"@
    &&& !c.desktop_avoid
    &&& c.version == 3
}

/// `n / d` rounded to the nearest whole number, halves away from zero.
pub open spec fn round_div(n: int, d: int) -> int {
    if n >= 0 {
        (2 * n + d) / (2 * d)
    } else {
        -((d - 2 * n) / (2 * d))
    }
}

/// Rounding gives the whole number nearest to the quotient: none, `k` say, is nearer, and of two that
/// are as near it is the one further from zero.
pub proof fn rounding_gives_the_nearest(n: int, d: int, k: int)
    requires
        d > 0,
    ensures
        ({
            let q = round_div(n, d);
            let (e, g) = (q * d - n, k * d - n);
            &&& -d <= 2 * e <= d
            &&& e * e <= g * g
            &&& e * e == g * g && k != q ==> q * q > k * k
        }),
{
    let q = round_div(n, d);
    let m = if n >= 0 {
        n
    } else {
        -n
    };
    let r = (2 * m + d) / (2 * d);
    assert(2 * d * r <= 2 * m + d && 2 * m + d < 2 * d * r + 2 * d) by (nonlinear_arith)
        requires
            r == (2 * m + d) / (2 * d),
            d > 0,
            m >= 0,
    ;
    assert(2 * d * r == 2 * (r * d)) by (nonlinear_arith);
    assert(r >= 0) by (nonlinear_arith)
        requires
            2 * m + d < 2 * d * r + 2 * d,
            m >= 0,
            d > 0,
    ;
    assert(q * d == (if n >= 0 {
        r * d
    } else {
        -(r * d)
    })) by (nonlinear_arith)
        requires
            q == (if n >= 0 {
                r
            } else {
                -r
            }),
    ;
    let (e, g) = (q * d - n, k * d - n);
    if k > q {
        assert(k * d >= q * d + d) by (nonlinear_arith)
            requires
                k >= q + 1,
                d > 0,
        ;
    } else if k < q {
        assert(k * d <= q * d - d) by (nonlinear_arith)
            requires
                k <= q - 1,
                d > 0,
        ;
    }
    let (u, v) = (if e < 0 {
        -e
    } else {
        e
    }, if g < 0 {
        -g
    } else {
        g
    });
    assert(u <= v);
    assert(e * e == u * u && g * g == v * v && u * u <= v * v && (u < v ==> u * u < v * v))
        by (nonlinear_arith)
        requires
            0 <= u <= v,
            u == e || u == -e,
            v == g || v == -g,
    ;
    if u == v && k != q {
        halves_go_outwards(n, d, q, k);
    }
}

proof fn halves_go_outwards(n: int, d: int, q: int, k: int)
    requires
        d > 0,
        k != q,
        -d <= 2 * (q * d - n) <= d,
        k * d - n == q * d - n || k * d - n == n - q * d,
        n >= 0 ==> 2 * (q * d) > 2 * n - d,
        n < 0 ==> 2 * (q * d) < 2 * n + d,
        n >= 0 ==> q >= 0,
        n < 0 ==> q <= 0,
    ensures
        q * q > k * k,
{
    if k > q {
        assert(k * d >= q * d + d) by (nonlinear_arith)
            requires
                k >= q + 1,
                d > 0,
        ;
        assert(k == q + 1) by (nonlinear_arith)
            requires
                k * d <= q * d + d,
                k >= q + 1,
                d > 0,
        ;
        assert(n < 0);
        assert(q < 0) by (nonlinear_arith)
            requires
                q * d <= n,
                n < 0,
                d > 0,
        ;
    } else {
        assert(k * d <= q * d - d) by (nonlinear_arith)
            requires
                k <= q - 1,
                d > 0,
        ;
        assert(k == q - 1) by (nonlinear_arith)
            requires
                k * d >= q * d - d,
                k <= q - 1,
                d > 0,
        ;
        assert(n >= 0);
        assert(q > 0) by (nonlinear_arith)
            requires
                q * d >= n + 1,
                n >= 0,
                d > 0,
        ;
    }
    assert(q * q > k * k) by (nonlinear_arith)
        requires
            (k == q + 1 && q < 0) || (k == q - 1 && q > 0),
    ;
}

/// `n` held within what an `i32` can hold.
pub open spec fn saturated(n: int) -> int {
    if n < i32::MIN {
        i32::MIN as int
    } else if n > i32::MAX {
        i32::MAX as int
    } else {
        n
    }
}

/// `value * to / from` in whole pixels.
pub open spec fn scaled(value: int, to: int, from: int) -> int {
    saturated(round_div(value * to, from))
}

/// See [`scaled`].
pub fn scale(value: i32, to: u32, from: u32) -> (out: i32)
    requires
        from > 0,
    ensures
        out == scaled(value as int, to as int, from as int),
{
    proof {
        assert(-0x8000_0000_0000_0000 <= value * to <= 0x8000_0000_0000_0000) by (nonlinear_arith)
            requires
                -0x8000_0000 <= value < 0x8000_0000,
                0 <= to < 0x1_0000_0000,
        ;
    }
    let n: i128 = (value as i128) * (to as i128);
    let d: i128 = from as i128;
    let q: i128 = if n >= 0 {
        (2 * n + d) / (2 * d)
    } else {
        -((d - 2 * n) / (2 * d))
    };
    if q < i32::MIN as i128 {
        i32::MIN
    } else if q > i32::MAX as i128 {
        i32::MAX
    } else {
        q as i32
    }
}

/// What a fence's settings become under [`normalize_dpi_with_system`], when they are of version 2.
pub open spec fn made_physical(old: FenceCfg, new: FenceCfg, system_dpi: u32) -> bool {
    &&& new == FenceCfg {
        x: new.x,
        y: new.y,
        w: new.w,
        h: new.h,
        dpi: system_dpi,
        ..old
    }
    &&& new.x == scaled(old.x as int, system_dpi as int, 96)
    &&& new.y == scaled(old.y as int, system_dpi as int, 96)
    &&& new.w == scaled(old.w as int, system_dpi as int, 96)
    &&& new.h == scaled(old.h as int, system_dpi as int, 96)
}

/// Brings settings of any version to version 3. Version 2 kept logical pixels: its rectangles are
/// multiplied by the system's scale and take its DPI. The others are physical already; one without
/// a DPI keeps 0 for it until its window is there.
pub fn normalize_dpi_with_system(c: &mut Config, system_dpi: u32)
    ensures
        *final(c) == (Config { fences: final(c).fences, version: 3, ..*old(c) }),
        old(c).version != 2 ==> final(c).fences == old(c).fences,
        old(c).version == 2 ==> {
            &&& final(c).fences@.len() == old(c).fences@.len()
            &&& forall|i: int|
                #![trigger final(c).fences@[i]]
                0 <= i < old(c).fences@.len() ==> made_physical(
                    old(c).fences@[i],
                    final(c).fences@[i],
                    system_dpi,
                )
        },
{
    if c.version == 2 {
        let n: usize = c.fences.len();
        for i in 0..n
            invariant
                c.fences@.len() == n,
                n == old(c).fences@.len(),
                *c == (Config { fences: c.fences, ..*old(c) }),
                forall|j: int|
                    0 <= j < i ==> made_physical(
                        old(c).fences@[j],
                        #[trigger] c.fences@[j],
                        system_dpi,
                    ),
                forall|j: int| i <= j < n ==> #[trigger] c.fences@[j] == old(c).fences@[j],
        {
            let f = &mut c.fences[i];
            f.x = scale(f.x, system_dpi, 96);
            f.y = scale(f.y, system_dpi, 96);
            f.w = scale(f.w, system_dpi, 96);
            f.h = scale(f.h, system_dpi, 96);
            f.dpi = system_dpi;
        }
    }
    c.version = 3;
}

/// A length that keeps its logical size when it moves from `saved_dpi` to `current_dpi`; an unknown
/// DPI (0) counts as the current one.
pub open spec fn extent_for_dpi(value: int, saved_dpi: int, current_dpi: int) -> int {
    let from = if saved_dpi == 0 {
        current_dpi
    } else {
        saved_dpi
    };
    scaled(
        value,
        if current_dpi < 1 {
            1
        } else {
            current_dpi
        },
        if from < 1 {
            1
        } else {
            from
        },
    )
}

/// See [`extent_for_dpi`].
pub fn scale_extent_for_dpi(value: i32, saved_dpi: u32, current_dpi: u32) -> (extent: i32)
    ensures
        extent == extent_for_dpi(value as int, saved_dpi as int, current_dpi as int),
{
    let from: u32 = if saved_dpi == 0 {
        current_dpi
    } else {
        saved_dpi
    };
    scale(
        value,
        if current_dpi < 1 {
            1
        } else {
            current_dpi
        },
        if from < 1 {
            1
        } else {
            from
        },
    )
}

/// Logical size is kept on the way to another DPI and back, up to the rounding of each step: with no
/// saved DPI, or between equal ones, a length stays as it is.
pub proof fn equal_dpi_keeps_extent(value: int, dpi: int)
    requires
        i32::MIN <= value <= i32::MAX,
        dpi > 0,
    ensures
        extent_for_dpi(value, dpi, dpi) == value,
        extent_for_dpi(value, 0, dpi) == value,
{
    assert(round_div(value * dpi, dpi) == value) by (nonlinear_arith)
        requires
            dpi > 0,
    {
        if value >= 0 {
            assert(value * dpi >= 0);
            assert((2 * (value * dpi) + dpi) / (2 * dpi) == value) by (nonlinear_arith)
                requires
                    dpi > 0,
            ;
        } else {
            assert(value * dpi < 0);
            assert((dpi - 2 * (value * dpi)) / (2 * dpi) == -value) by (nonlinear_arith)
                requires
                    dpi > 0,
            ;
        }
    }
}

/// A length keeps its logical size at another DPI, to within half a pixel: what it is at each DPI is in
/// the proportion of the two.
pub proof fn an_extent_keeps_its_logical_size(value: int, from: int, to: int)
    requires
        from > 0,
        to > 0,
        i32::MIN < extent_for_dpi(value, from, to) < i32::MAX,
    ensures
        -from <= 2 * (extent_for_dpi(value, from, to) * from - value * to) <= from,
{
    rounding_gives_the_nearest(value * to, from, 0);
}

/// A length that goes to a higher DPI and back is what it was.
pub proof fn an_extent_comes_back(value: int, low: int, high: int)
    requires
        0 < low <= high,
        i32::MIN <= value <= i32::MAX,
        i32::MIN < extent_for_dpi(value, low, high) < i32::MAX,
    ensures
        extent_for_dpi(extent_for_dpi(value, low, high), high, low) == value,
{
    if low == high {
        equal_dpi_keeps_extent(value, low);
    } else {
        let there = extent_for_dpi(value, low, high);
        rounding_gives_the_nearest(value * high, low, 0);
        rounding_gives_the_nearest(there * low, high, 0);
        let back = round_div(there * low, high);
        assert(back == value) by (nonlinear_arith)
            requires
                -low <= 2 * (there * low - value * high) <= low,
                -high <= 2 * (back * high - there * low) <= high,
                0 < low < high,
        {
            assert(-2 * high < 2 * (back * high - value * high) < 2 * high);
            assert(back * high - value * high == (back - value) * high);
        }
    }
}

/// Settings that kept logical pixels come to stand where they stood: each coordinate and length is in
/// the proportion of the system's DPI to 96, to within half a pixel, and what else was kept stays.
pub proof fn logical_settings_become_physical(before: FenceCfg, after: FenceCfg, system_dpi: u32)
    requires
        made_physical(before, after, system_dpi),
    ensures
        i32::MIN < after.x < i32::MAX ==> -96 <= 2 * (after.x * 96 - before.x * system_dpi) <= 96,
        i32::MIN < after.y < i32::MAX ==> -96 <= 2 * (after.y * 96 - before.y * system_dpi) <= 96,
        i32::MIN < after.w < i32::MAX ==> -96 <= 2 * (after.w * 96 - before.w * system_dpi) <= 96,
        i32::MIN < after.h < i32::MAX ==> -96 <= 2 * (after.h * 96 - before.h * system_dpi) <= 96,
        after.dpi == system_dpi,
        after.id == before.id && after.title == before.title && after.kind == before.kind,
        after.folder == before.folder && after.pos_set == before.pos_set,
        after.opacity == before.opacity && after.icon == before.icon,
{
    rounding_gives_the_nearest(before.x * system_dpi, 96, 0);
    rounding_gives_the_nearest(before.y * system_dpi, 96, 0);
    rounding_gives_the_nearest(before.w * system_dpi, 96, 0);
    rounding_gives_the_nearest(before.h * system_dpi, 96, 0);
}

/// The folder that holds all of the tool's files.
pub open spec fn config_dir_from(
    perf: bool,
    perf_dir: Option<Seq<char>>,
    appdata: Option<Seq<char>>,
) -> Seq<char> {
    if perf && perf_dir is Some {
        perf_dir->0
    } else if appdata is Some {
        join(appdata->0, "feather-fences"@)
    } else {
        join("."@, "feather-fences"@)
    }
}

/// The characters of an optional text.
pub open spec fn opt_view(s: Option<String>) -> Option<Seq<char>> {
    match s {
        Some(s) => Some(s@),
        None => None,
    }
}

/// The folder that holds all of the tool's files: where performance is being recorded, the folder
/// that the environment names for that; else one under the application data.
pub fn config_dir(perf: bool, perf_dir: &Option<String>, appdata: &Option<String>) -> (dir: String)
    ensures
        dir@ == config_dir_from(perf, opt_view(*perf_dir), opt_view(*appdata)),
{
    if perf {
        if let Some(path) = perf_dir {
            return path.clone();
        }
    }
    match appdata {
        Some(base) => joined(base.as_str(), "feather-fences"),
        None => joined(".", "feather-fences"),
    }
}

/// The settings file under `config_dir`.
pub fn config_path(config_dir: &str) -> (path: String)
    ensures
        path@ == join(config_dir@, "config.json"@),
{
    joined(config_dir, "config.json")
}

/// The vault under `config_dir`.
pub fn default_vault_dir(config_dir: &str) -> (path: String)
    ensures
        path@ == join(config_dir@, "vault"@),
{
    joined(config_dir, "vault")
}

/// The folder of the download box under `config_dir`.
pub open spec fn download_box(config_dir: Seq<char>) -> Seq<char> {
    join(join(config_dir, "boxes"@), "下载收纳箱"@)
}

/// See [`download_box`].
pub fn download_box_dir(config_dir: &str) -> (path: String)
    ensures
        path@ == download_box(config_dir@),
{
    let boxes = joined(config_dir, "boxes");
    joined(boxes.as_str(), "下载收纳箱")
}

/// Where things dropped into a fence without a folder go.
pub open spec fn vault_of(vault: Option<Seq<char>>, config_dir: Seq<char>) -> Seq<char> {
    match vault {
        Some(dir) => dir,
        None => join(config_dir, "vault"@),
    }
}

/// See [`vault_of`].
pub fn vault_dir(c: &Config, config_dir: &str) -> (path: String)
    ensures
        path@ == vault_of(opt_view(c.vault_dir), config_dir@),
{
    match &c.vault_dir {
        Some(dir) => dir.clone(),
        None => default_vault_dir(config_dir),
    }
}

/// The kind that a fence of old settings is found to have: the download box by its id; a box where
/// it has no folder or one directly under `boxes_root`; else a view of its folder.
pub open spec fn migrated_kind(
    f: FenceCfg,
    download_box_id: Option<u32>,
    boxes_root: Seq<char>,
) -> FenceKind {
    if f.kind != FenceKind::Legacy {
        f.kind
    } else if download_box_id == Some(f.id) {
        FenceKind::Download
    } else if f.folder is None || (parent(f.folder->0@) is Some && same_place(
        parent(f.folder->0@)->0,
        boxes_root,
    )) {
        FenceKind::Collection
    } else {
        FenceKind::Portal
    }
}

/// `old` with each kind found out.
pub open spec fn kinds_migrated(old: Config, new: Config, boxes_root: Seq<char>) -> bool {
    &&& new == Config { fences: new.fences, ..old }
    &&& new.fences@.len() == old.fences@.len()
    &&& forall|i: int|
        #![trigger new.fences@[i]]
        0 <= i < old.fences@.len() ==> new.fences@[i] == (FenceCfg {
            kind: migrated_kind(old.fences@[i], old.download_box_id, boxes_root),
            ..old.fences@[i]
        })
}

/// Gives each fence of old settings its kind; see [`migrated_kind`].
pub fn migrate_fence_kinds_with_root(c: &mut Config, boxes_root: &str)
    ensures
        kinds_migrated(*old(c), *final(c), boxes_root@),
{
    let n: usize = c.fences.len();
    let download_box_id: Option<u32> = c.download_box_id;
    for i in 0..n
        invariant
            c.fences@.len() == n,
            n == old(c).fences@.len(),
            download_box_id == old(c).download_box_id,
            *c == (Config { fences: c.fences, ..*old(c) }),
            forall|j: int|
                0 <= j < i ==> #[trigger] c.fences@[j] == (FenceCfg {
                    kind: migrated_kind(old(c).fences@[j], download_box_id, boxes_root@),
                    ..old(c).fences@[j]
                }),
            forall|j: int| i <= j < n ==> #[trigger] c.fences@[j] == old(c).fences@[j],
    {
        let f = &mut c.fences[i];
        if f.kind == FenceKind::Legacy {
            let is_download: bool = match download_box_id {
                Some(id) => id == f.id,
                None => false,
            };
            let in_boxes: bool = match &f.folder {
                Some(folder) => match parent_of(folder.as_str()) {
                    Some(up) => is_same_place(up.as_str(), boxes_root),
                    None => false,
                },
                None => true,
            };
            f.kind = if is_download {
                FenceKind::Download
            } else if in_boxes {
                FenceKind::Collection
            } else {
                FenceKind::Portal
            };
        }
    }
}

/// Migration leaves no fence without a kind, and migrating again changes nothing.
pub proof fn migration_is_final(old: Config, once: Config, twice: Config, boxes_root: Seq<char>)
    requires
        kinds_migrated(old, once, boxes_root),
        kinds_migrated(once, twice, boxes_root),
    ensures
        forall|i: int|
            0 <= i < once.fences@.len() ==> (#[trigger] once.fences@[i]).kind != FenceKind::Legacy,
        twice.fences@ == once.fences@,
{
    assert forall|i: int| 0 <= i < once.fences@.len() implies once.fences@[i] == #[trigger]
    twice.fences@[i] by {}
    assert(twice.fences@ =~= once.fences@);
}

/// The folder under which boxes are made, beside the settings file.
pub open spec fn boxes_root(config_path: Seq<char>) -> Seq<char> {
    match parent(config_path) {
        Some(dir) => join(dir, "boxes"@),
        None => join("."@, "boxes"@),
    }
}

/// See [`boxes_root`].
pub fn boxes_root_for(config_path: &str) -> (root: String)
    ensures
        root@ == boxes_root(config_path@),
{
    match parent_of(config_path) {
        Some(dir) => joined(dir.as_str(), "boxes"),
        None => joined(".", "boxes"),
    }
}

/// The download box lies directly in the folder under which boxes are made, beside the settings
/// file. (Where `config_dir` is no whole folder, such as a server without a share, a name behind it
/// is no name in it.)
pub proof fn the_download_box_is_one_of_the_boxes(config_dir: Seq<char>)
    requires
        takes_names(config_dir),
        takes_names(join(config_dir, "boxes"@)),
        takes_names(parent(join(config_dir, "config.json"@))->0),
    ensures
        file_name(download_box(config_dir)) == Some("下载收纳箱"@),
        parent(download_box(config_dir)) is Some,
        same_place(
            parent(download_box(config_dir))->0,
            boxes_root(join(config_dir, "config.json"@)),
        ),
{
    reveal_strlit("boxes");
    reveal_strlit("config.json");
    reveal_strlit("下载收纳箱");
    let boxes = join(config_dir, "boxes"@);
    let beside = parent(join(config_dir, "config.json"@))->0;
    a_joined_name_comes_last(config_dir, "boxes"@);
    a_joined_name_comes_last(boxes, "下载收纳箱"@);
    a_joined_name_comes_last(config_dir, "config.json"@);
    a_joined_name_comes_last(beside, "boxes"@);
    assert(names(boxes, boxes.len() as int) == place(boxes).names);
    assert(names(beside, beside.len() as int) == place(beside).names);
    assert(is_verbatim(boxes) == place(boxes).verbatim);
    assert(is_verbatim(beside) == place(beside).verbatim);
}

/// A fence of old settings is a box where it has no folder, or where its folder is a name in the folder
/// of boxes; it is the download box where it has that id.
pub proof fn a_folder_among_the_boxes_is_a_box(
    f: FenceCfg,
    download_box_id: Option<u32>,
    boxes_root: Seq<char>,
    name: Seq<char>,
)
    requires
        f.kind == FenceKind::Legacy,
        takes_names(boxes_root),
        !is_verbatim(boxes_root),
        is_plain(name),
        f.folder is None || f.folder->0@ == join(boxes_root, name),
    ensures
        download_box_id != Some(f.id) ==> migrated_kind(f, download_box_id, boxes_root)
            == FenceKind::Collection,
        download_box_id == Some(f.id) ==> migrated_kind(f, download_box_id, boxes_root)
            == FenceKind::Download,
{
    if f.folder is Some {
        a_joined_name_comes_last(boxes_root, name);
    }
}

/// A fence of old settings whose folder is a name in a folder other than that of the boxes is a view of
/// it.
pub proof fn a_folder_elsewhere_is_a_view(
    f: FenceCfg,
    download_box_id: Option<u32>,
    boxes_root: Seq<char>,
    dir: Seq<char>,
    name: Seq<char>,
)
    requires
        f.kind == FenceKind::Legacy,
        takes_names(dir),
        !is_verbatim(dir),
        is_plain(name),
        !same_place(dir, boxes_root),
        f.folder is Some,
        f.folder->0@ == join(dir, name),
        download_box_id != Some(f.id),
    ensures
        migrated_kind(f, download_box_id, boxes_root) == FenceKind::Portal,
{
    a_joined_name_comes_last(dir, name);
}

/// `path` with `suffix` behind its file name (behind `config.json` under it, where it has none).
pub open spec fn sibling(path: Seq<char>, suffix: Seq<char>) -> Seq<char> {
    if file_name(path) is Some && parent(path) is Some {
        join(parent(path)->0, file_name(path)->0 + suffix)
    } else {
        join(path, "config.json"@ + suffix)
    }
}

/// The new version of a file, and the old one, stand in the same folder as the file, under its name with
/// something behind it, and so under another one.
pub proof fn a_sibling_stands_beside_the_file(d: Seq<char>, n: Seq<char>, suffix: Seq<char>)
    requires
        takes_names(d),
        is_plain(n),
        is_plain(n + suffix),
        suffix.len() > 0,
        takes_names(parent(join(d, n))->0),
        !is_verbatim(d),
    ensures
        file_name(sibling(join(d, n), suffix)) == Some(n + suffix),
        parent(sibling(join(d, n), suffix)) is Some,
        same_place(parent(sibling(join(d, n), suffix))->0, parent(join(d, n))->0),
        sibling(join(d, n), suffix) != join(d, n),
{
    a_joined_name_comes_last(d, n);
    let up = parent(join(d, n))->0;
    a_joined_name_comes_last(up, n + suffix);
    assert((n + suffix).len() > n.len());
}

/// See [`sibling`].
pub fn sibling_path_with_suffix(path: &str, suffix: &str) -> (out: String)
    ensures
        out@ == sibling(path@, suffix@),
{
    if let Some(name) = file_name_of(path) {
        if let Some(dir) = parent_of(path) {
            let name = name.concat(suffix);
            return joined(dir.as_str(), name.as_str());
        }
    }
    let name = owned("config.json").concat(suffix);
    joined(path, name.as_str())
}

/// Where a new version of the file at `path` is written before it takes its place.
pub fn temp_path_for(path: &str) -> (out: String)
    ensures
        out@ == sibling(path@, ".tmp"@),
{
    sibling_path_with_suffix(path, ".tmp")
}

/// Where the last valid version of the file at `path` is kept.
pub fn backup_path_for(path: &str) -> (out: String)
    ensures
        out@ == sibling(path@, ".bak"@),
{
    sibling_path_with_suffix(path, ".bak")
}

/// What loading came to.
pub struct Loaded {
    pub config: Config,
    /// Whether the settings came from the backup, whose bytes are then to become the settings file.
    pub repair_primary: bool,
}

/// Picks the settings to start with out of what could be read and understood: the file itself,
/// else its backup, else the defaults.
pub fn load_from_path(path: &str, primary: Option<Config>, backup: Option<Config>) -> (loaded: Loaded)
    ensures
        match primary {
            Some(c) => kinds_migrated(c, loaded.config, boxes_root(path@))
                && !loaded.repair_primary,
            None => match backup {
                Some(c) => kinds_migrated(c, loaded.config, boxes_root(path@))
                    && loaded.repair_primary,
                None => is_default_config(loaded.config) && !loaded.repair_primary,
            },
        },
{
    let root = boxes_root_for(path);
    match primary {
        Some(c) => {
            let mut c = c;
            migrate_fence_kinds_with_root(&mut c, root.as_str());
            Loaded { config: c, repair_primary: false }
        },
        None => match backup {
            Some(c) => {
                let mut c = c;
                migrate_fence_kinds_with_root(&mut c, root.as_str());
                Loaded { config: c, repair_primary: true }
            },
            None => Loaded { config: Config::default(), repair_primary: false },
        },
    }
}

/// The two files of the settings, each with its bytes where it is there.
#[verifier::ext_equal]
pub struct Disk {
    pub primary: Option<Seq<u8>>,
    pub backup: Option<Seq<u8>>,
}

/// What is to be written when settings are saved: first the backup, where there is one to write,
/// then the file itself.
pub struct SavePlan {
    pub backup: Option<Vec<u8>>,
    pub primary: Vec<u8>,
}

impl SavePlan {
    /// `disk` once both writes have been made.
    pub open spec fn applied(self, disk: Disk) -> Disk {
        Disk {
            primary: Some(self.primary@),
            backup: match self.backup {
                Some(bytes) => Some(bytes@),
                None => disk.backup,
            },
        }
    }
}

/// The bytes that a read of `file` understands, under `valid`.
pub open spec fn readable(file: Option<Seq<u8>>, valid: spec_fn(Seq<u8>) -> bool) -> Option<Seq<u8>> {
    match file {
        Some(bytes) => if valid(bytes) {
            Some(bytes)
        } else {
            None
        },
        None => None,
    }
}

/// The bytes that loading goes by.
pub open spec fn load_bytes(disk: Disk, valid: spec_fn(Seq<u8>) -> bool) -> Option<Seq<u8>> {
    match readable(disk.primary, valid) {
        Some(bytes) => Some(bytes),
        None => readable(disk.backup, valid),
    }
}

/// `disk` after `serialized` was saved: the file itself is replaced, and what it held before becomes
/// the backup if it could be understood.
pub open spec fn saved(disk: Disk, serialized: Seq<u8>, valid: spec_fn(Seq<u8>) -> bool) -> Disk {
    Disk {
        primary: Some(serialized),
        backup: match readable(disk.primary, valid) {
            Some(bytes) => Some(bytes),
            None => disk.backup,
        },
    }
}

/// Plans a save of `serialized`; `previous` holds the bytes of the settings file where they can be
/// understood.
pub fn save_to_path(serialized: Vec<u8>, previous: Option<Vec<u8>>) -> (plan: SavePlan)
    ensures
        plan.primary == serialized,
        plan.backup == previous,
{
    SavePlan { backup: previous, primary: serialized }
}

/// A plan made from what the settings file held does what saving means.
pub proof fn a_plan_saves(
    plan: SavePlan,
    disk: Disk,
    serialized: Seq<u8>,
    valid: spec_fn(Seq<u8>) -> bool,
)
    requires
        plan.primary@ == serialized,
        readable(disk.primary, valid) == (match plan.backup {
            Some(bytes) => Some(bytes@),
            None => None,
        }),
    ensures
        plan.applied(disk) == saved(disk, serialized, valid),
{
}

/// What was saved is what is loaded. A file that cannot be understood never takes the place of a
/// valid backup. And where the file is lost after a save, whatever is then in its place, what was
/// loaded before that save is still there.
pub proof fn saving_keeps_the_last_valid_settings(
    disk: Disk,
    serialized: Seq<u8>,
    lost: Option<Seq<u8>>,
    valid: spec_fn(Seq<u8>) -> bool,
)
    requires
        valid(serialized),
        readable(lost, valid) is None,
    ensures
        load_bytes(saved(disk, serialized, valid), valid) == Some(serialized),
        readable(disk.primary, valid) is None ==> saved(disk, serialized, valid).backup
            == disk.backup,
        load_bytes(disk, valid) is Some ==> load_bytes(
            Disk { primary: lost, ..saved(disk, serialized, valid) },
            valid,
        ) == load_bytes(disk, valid),
{
}

/// One step of replacing a file in one go.
#[derive(Clone, Copy, Debug, PartialEq, Eq, Structural)]
pub enum WriteStep {
    /// Make the folder of the file.
    MakeParent,
    /// Write and flush the new contents beside the file.
    WriteTemp,
    /// Put the new file in the place of the old one.
    Replace,
    /// Take away the new file that did not get there.
    RemoveTemp,
    /// The file has its new contents.
    Written,
    /// The file is as it was.
    Failed,
}

/// The step of an atomic write behind `step`, by how that went. Only `Replace` touches the file
/// itself, and a failure behind the folder takes the temporary file away.
pub fn next_write_step(step: WriteStep, ok: bool) -> (next: WriteStep)
    ensures
        next == after_write_step(step, ok),
{
    match step {
        WriteStep::MakeParent => if ok {
            WriteStep::WriteTemp
        } else {
            WriteStep::Failed
        },
        WriteStep::WriteTemp => if ok {
            WriteStep::Replace
        } else {
            WriteStep::RemoveTemp
        },
        WriteStep::Replace => if ok {
            WriteStep::Written
        } else {
            WriteStep::RemoveTemp
        },
        WriteStep::RemoveTemp => WriteStep::Failed,
        WriteStep::Written => WriteStep::Written,
        WriteStep::Failed => WriteStep::Failed,
    }
}

/// See [`next_write_step`].
pub open spec fn after_write_step(step: WriteStep, ok: bool) -> WriteStep {
    match step {
        WriteStep::MakeParent if ok => WriteStep::WriteTemp,
        WriteStep::WriteTemp if ok => WriteStep::Replace,
        WriteStep::Replace if ok => WriteStep::Written,
        WriteStep::WriteTemp | WriteStep::Replace => WriteStep::RemoveTemp,
        WriteStep::Written => WriteStep::Written,
        _ => WriteStep::Failed,
    }
}

/// What an atomic write has left behind.
pub struct WriteState {
    /// Whether the temporary file may be there.
    pub temp: bool,
    /// Whether the file has its new contents.
    pub replaced: bool,
}

/// The folder of the file at `path`, `.` where the path has none.
pub open spec fn folder_of(path: Seq<char>) -> Seq<char> {
    match parent(path) {
        Some(dir) => if dir.len() == 0 {
            "."@
        } else {
            dir
        },
        None => "."@,
    }
}

/// See [`folder_of`].
pub fn write_folder(path: &str) -> (dir: String)
    ensures
        dir@ == folder_of(path@),
{
    match parent_of(path) {
        Some(dir) => if dir.as_str().is_empty() {
            owned(".")
        } else {
            dir
        },
        None => owned("."),
    }
}

/// What `step` does to the files when it goes as `ok` says. A failed write may leave a part of the
/// temporary file; a failed replacement leaves both files as they were.
pub open spec fn write_effect(state: WriteState, step: WriteStep, ok: bool) -> WriteState {
    match step {
        WriteStep::WriteTemp => WriteState { temp: true, ..state },
        WriteStep::Replace if ok => WriteState { temp: false, replaced: true },
        WriteStep::RemoveTemp if ok => WriteState { temp: false, ..state },
        _ => state,
    }
}

/// The state and step of an atomic write after the outcomes `oks`, from its start.
pub open spec fn write_run(oks: Seq<bool>) -> (WriteState, WriteStep)
    decreases oks.len(),
{
    if oks.len() == 0 {
        (WriteState { temp: false, replaced: false }, WriteStep::MakeParent)
    } else {
        let (state, step) = write_run(oks.drop_last());
        (write_effect(state, step, oks.last()), after_write_step(step, oks.last()))
    }
}

/// However its steps go, an atomic write ends `Written` with the file replaced and no temporary file,
/// or `Failed` with the file untouched; and where no removal fails, no temporary file is left.
pub proof fn an_atomic_write_is_all_or_nothing(oks: Seq<bool>)
    ensures
        ({
            let (state, step) = write_run(oks);
            &&& state.replaced == (step == WriteStep::Written)
            &&& step == WriteStep::Written ==> !state.temp
            &&& step == WriteStep::MakeParent ==> !state.temp
            &&& (state.temp && step == WriteStep::Failed) ==> exists|i: int|
                0 <= i < oks.len() && !oks[i] && (#[trigger] write_run(oks.take(i))).1
                    == WriteStep::RemoveTemp
        }),
    decreases oks.len(),
{
    if oks.len() > 0 {
        let before = oks.drop_last();
        an_atomic_write_is_all_or_nothing(before);
        let (state, step) = write_run(before);
        let (now, next) = write_run(oks);
        if now.temp && next == WriteStep::Failed {
            if step == WriteStep::RemoveTemp {
                let k = oks.len() - 1;
                assert(oks.take(k) =~= before);
                assert(!oks[k] && write_run(oks.take(k)).1 == WriteStep::RemoveTemp);
            } else {
                let i = choose|i: int|
                    0 <= i < before.len() && !before[i] && (#[trigger] write_run(before.take(i))).1
                        == WriteStep::RemoveTemp;
                assert(oks.take(i) =~= before.take(i));
                assert(!oks[i] && write_run(oks.take(i)).1 == WriteStep::RemoveTemp);
            }
        }
    }
}

/// The icon size to start with: the one for all fences, else the first that a fence kept, else 32.
pub open spec fn icon_of(icon: u32, fences: Seq<FenceCfg>) -> u32
    decreases fences.len(),
{
    if icon != 0 {
        icon
    } else if fences.len() == 0 {
        32
    } else {
        icon_of(fences[0].icon, fences.skip(1))
    }
}

/// The size for all fences counts where it is set; else that of the first fence, `k`, which kept one.
pub proof fn the_first_icon_size_counts(icon: u32, fences: Seq<FenceCfg>, k: int)
    requires
        0 <= k <= fences.len(),
        forall|i: int| 0 <= i < k ==> (#[trigger] fences[i]).icon == 0,
    ensures
        icon != 0 ==> icon_of(icon, fences) == icon,
        icon == 0 && k < fences.len() && fences[k].icon != 0 ==> icon_of(icon, fences)
            == fences[k].icon,
        icon == 0 && k == fences.len() ==> icon_of(icon, fences) == 32,
    decreases fences.len(),
{
    if icon == 0 && fences.len() > 0 {
        let rest = fences.skip(1);
        if k > 0 {
            assert(fences[0].icon == 0);
            assert forall|i: int| 0 <= i < k - 1 implies (#[trigger] rest[i]).icon == 0 by {
                assert(fences[i + 1].icon == 0);
            }
            the_first_icon_size_counts(0, rest, k - 1);
        } else {
            the_first_icon_size_counts(fences[0].icon, rest, 0);
        }
    }
}

/// See [`icon_of`].
pub fn startup_icon(c: &Config) -> (icon: u32)
    ensures
        icon == icon_of(c.icon, c.fences@),
        icon != 0,
{
    let mut icon: u32 = c.icon;
    let mut i: usize = 0;
    assert(c.fences@.skip(0) =~= c.fences@);
    while i < c.fences.len() && icon == 0
        invariant
            i <= c.fences@.len(),
            icon_of(icon, c.fences@.skip(i as int)) == icon_of(c.icon, c.fences@),
        decreases c.fences@.len() - i,
    {
        assert(c.fences@.skip(i as int).skip(1) =~= c.fences@.skip(i + 1));
        icon = c.fences[i].icon;
        i += 1;
    }
    if icon == 0 {
        32
    } else {
        icon
    }
}

} // verus!
