use feather_fences::command::{AppCommand, CommandQueue, Dispatching};
use feather_fences::config::{Config, FenceCfg, FenceKind, SweepRule};
use feather_fences::download::{
    download_box_cfg, download_box_should_show, download_target, downloads_dir,
    ensure_download_box, is_download_temp, set_download_box_visible, set_download_enabled,
    toggle_download_box, BoxStep, DownloadTracker, News,
};
use feather_fences::fence::Fence;
use feather_fences::global::Global;
use feather_fences::hotkey::{
    changed_hotkey, parse_hotkey, parse_virtual_key, MOD_ALT, MOD_CONTROL, MOD_NOREPEAT,
    MOD_SHIFT, MOD_WIN,
};
use feather_fences::icons::{
    first_icon_source, next_icon_source, IconCache, IconSource, CACHE_CAP,
};
use feather_fences::perf::{
    animation_fence_id, animation_repeats, average, begin_animation, cancel_drop_posted,
    enabled, env_flag, init, mark_drop_posted, percentile, record_drop_event, record_refresh,
    record_render, take_drop_post_delay, take_lines, DropTrace, Perf, RenderSample,
};
use feather_fences::shortcut::{FileFacts, Verdict};
use feather_fences::sweep::{
    calls_for_sweep, rule_for, sweep_retry_tick, sweep_step, Retry, RetryOutcome, SweepStep,
};
use feather_fences::text::{decimal_text, parse_u32, trim};
use feather_fences::tracking::{PathSet, Pending};
use feather_fences::tray::{
    make_tray_icon, tray_click, tray_command, tray_menu, TrayClick, TrayCommand, TraySwitches,
    BAR_COLOUR, MENU_DOWNLOAD_VISIBLE, MENU_ZEN,
};
use feather_fences::utf16::{decode, encode};
use feather_fences::utils::{fixed_text, pixels, text_of_field, wstr};
use feather_fences::watcher::{
    move_to_dir_atomic_no_replace, os_error, parse_notify_names, FolderWatch, WatchAction,
    WatchEvent, FILE_ACTION_ADDED, FILE_ACTION_REMOVED, FILE_ACTION_RENAMED_NEW_NAME,
    FILE_ACTION_RENAMED_OLD_NAME,
};
use feather_fences::winpath::{
    extension_of, file_name_of, file_stem_of, is_same_place, joined, parent_of,
};

#[test]
fn commands_are_drained_in_post_order() {
    let mut queue = CommandQueue::default();
    queue.push(AppCommand::RefreshFence { id: 7 });
    queue.push(AppCommand::SweepDesktop);

    assert_eq!(queue.pop(), Some(AppCommand::RefreshFence { id: 7 }));
    assert_eq!(queue.pop(), Some(AppCommand::SweepDesktop));
    assert_eq!(queue.pop(), None);
}

#[test]
fn commands_are_not_done_within_commands() {
    let mut d = Dispatching::new();
    assert!(d.enter());
    assert!(!d.enter());
    d.leave();
    assert!(d.enter());
}

// ---------- hotkeys ----------

#[test]
fn parses_and_normalizes_supported_hotkeys() {
    let parsed = parse_hotkey(" shift + ctrl + f8 ").unwrap().unwrap();
    assert_eq!(parsed.display, "Ctrl+Shift+F8");
    assert_eq!(parsed.binding.virtual_key, 0x77);
    assert!(parsed.binding.modifiers & MOD_CONTROL != 0);
    assert!(parsed.binding.modifiers & MOD_SHIFT != 0);
    assert!(parsed.binding.modifiers & MOD_NOREPEAT != 0);
    assert!(parsed.binding.modifiers & (MOD_ALT | MOD_WIN) == 0);
}

#[test]
fn blank_hotkey_disables_registration() {
    assert!(parse_hotkey("  ").unwrap().is_none());
}

#[test]
fn rejects_unsafe_or_ambiguous_hotkeys() {
    assert!(parse_hotkey("Z").is_err());
    assert!(parse_hotkey("Ctrl+Alt").is_err());
    assert!(parse_hotkey("Ctrl+Alt+Z+X").is_err());
    assert!(parse_hotkey("Ctrl+Ctrl+Z").is_err());
    assert!(parse_hotkey("Ctrl+Alt+Escape").is_err());
}

#[test]
fn displayed_hotkeys_read_back() {
    for typed in ["win+alt+0", "CTRL+z", "Alt+F24", "shift+win+ctrl+alt+q"] {
        let first = parse_hotkey(typed).unwrap().unwrap();
        let again = parse_hotkey(&first.display).unwrap().unwrap();
        assert_eq!(first.display, again.display);
        assert_eq!(first.binding.modifiers, again.binding.modifiers);
        assert_eq!(first.binding.virtual_key, again.binding.virtual_key);
    }
    assert_eq!(parse_virtual_key("a"), Some((0x41, "A".to_string())));
    assert_eq!(parse_virtual_key("F25"), None);
    assert_eq!(parse_virtual_key("F0"), None);
    assert_eq!(parse_virtual_key("F+5"), Some((0x74, "F5".to_string())));
    assert_eq!(parse_virtual_key("f007"), Some((0x76, "F7".to_string())));
    assert_eq!(parse_virtual_key("F++5"), None);
    assert_eq!(parse_virtual_key("F+"), None);
}

#[test]
fn a_hotkey_that_is_taken_leaves_the_old_one() {
    let old = Some("Ctrl+Alt+Z".to_string());
    let asked = parse_hotkey("alt+f8").unwrap();
    assert_eq!(
        changed_hotkey(&old, &asked, true),
        Some("Alt+F8".to_string())
    );
    assert_eq!(changed_hotkey(&old, &asked, false), old);
    assert_eq!(changed_hotkey(&old, &None, false), None);
}

// ---------- measuring ----------

const MS: u128 = 1_000_000;

#[test]
fn percentile_uses_nearest_rank_and_handles_empty_input() {
    let values = [1, 2, 3, 4, 100].map(|ms: u128| ms * MS);
    assert_eq!(percentile(&values, 95), 100 * MS);
    assert_eq!(percentile(&values, 50), 3 * MS);
    assert_eq!(percentile(&[], 95), 0);
    assert_eq!(percentile(&[], 500), 0);
    assert_eq!(percentile(&[7], 500), 7);
}

#[test]
fn average_handles_empty_input() {
    let values = [2 * MS, 4 * MS];
    assert_eq!(average(&values), 3 * MS);
    assert_eq!(average(&[]), 0);
}

#[test]
fn a_delay_is_taken_once() {
    let on = Some("1".to_string());
    let mut p = Perf::new(&on, &None);
    assert!(enabled(&p));
    let trace = DropTrace::start(&mut p, 0);
    mark_drop_posted(&mut p, trace.id(), 10);
    assert_eq!(take_drop_post_delay(&mut p, trace.id(), 25), Some(15));
    assert_eq!(take_drop_post_delay(&mut p, trace.id(), 25), None);
    mark_drop_posted(&mut p, trace.id(), 10);
    cancel_drop_posted(&mut p, trace.id());
    assert_eq!(take_drop_post_delay(&mut p, trace.id(), 25), None);
    record_drop_event(&mut p, trace.id(), "done", || "fence=1".to_string());
    let lines = take_lines(&mut p);
    assert!(lines.iter().any(|l| l.contains("done") && l.contains("fence=1")));
    assert!(take_lines(&mut p).is_empty());
}

#[test]
fn nothing_is_measured_unasked() {
    let mut p = Perf::new(&None, &None);
    assert!(!enabled(&p));
    let trace = DropTrace::begin(&mut p, "in", 3, 0);
    assert_eq!(trace.stage_start(5), None);
    mark_drop_posted(&mut p, trace.id(), 10);
    assert_eq!(take_drop_post_delay(&mut p, trace.id(), 25), None);
    assert!(take_lines(&mut p).is_empty());
    assert_eq!(animation_fence_id(&p, &Some("4".to_string())), None);
    let on = Perf::new(&Some("1".to_string()), &None);
    assert_eq!(animation_fence_id(&on, &Some("4".to_string())), Some(4));
    assert!(!env_flag(&None));
}

// ---------- watching ----------

fn notify_record(action: u32, name: &str) -> Vec<u8> {
    let name: Vec<u16> = name.encode_utf16().collect();
    let mut record = Vec::new();
    record.extend_from_slice(&0u32.to_le_bytes());
    record.extend_from_slice(&action.to_le_bytes());
    record.extend_from_slice(&((name.len() * 2) as u32).to_le_bytes());
    for ch in name {
        record.extend_from_slice(&ch.to_le_bytes());
    }
    record
}

#[test]
fn parses_single_unpadded_final_record() {
    let record = notify_record(FILE_ACTION_RENAMED_NEW_NAME, "Notion-7.29.0.msix");
    assert_eq!(
        parse_notify_names(&record, record.len()),
        ["Notion-7.29.0.msix"]
    );
}

#[test]
fn parses_removed_name() {
    let record = notify_record(FILE_ACTION_REMOVED, "~$设备报警.xlsx");

    assert_eq!(
        parse_notify_names(&record, record.len()),
        ["~$设备报警.xlsx"]
    );
}

#[test]
fn parses_renamed_old_name() {
    let record = notify_record(FILE_ACTION_RENAMED_OLD_NAME, "before.txt");

    assert_eq!(parse_notify_names(&record, record.len()), ["before.txt"]);
}

#[test]
fn linked_records_are_read_one_after_the_other() {
    let mut first = notify_record(FILE_ACTION_ADDED, "a.txt");
    while first.len() % 4 != 0 {
        first.push(0);
    }
    let next = first.len() as u32;
    first[..4].copy_from_slice(&next.to_le_bytes());
    let second = notify_record(FILE_ACTION_REMOVED, "b.txt");
    first.extend_from_slice(&second);
    assert_eq!(
        parse_notify_names(&first, first.len()),
        ["a.txt", "b.txt"]
    );
    assert_eq!(parse_notify_names(&first, next as usize), ["a.txt"]);
    assert!(parse_notify_names(&[], 0).is_empty());
    assert!(parse_notify_names(&first[..8], 8).is_empty());
}

#[test]
fn a_direct_move_keeps_the_exact_name() {
    assert_eq!(
        move_to_dir_atomic_no_replace(r"C:\f\a.txt", r"C:\Desktop", true),
        Ok(r"C:\Desktop\a.txt".to_string())
    );
    assert_eq!(
        move_to_dir_atomic_no_replace(r"C:\f\a.txt", r"C:\Desktop", false),
        Err("desktop directory is unavailable".to_string())
    );
    assert_eq!(
        move_to_dir_atomic_no_replace(r"C:\", r"C:\Desktop", true),
        Err("no file name".to_string())
    );
    assert_eq!(os_error(0x8007_0050), 80);
}

// ---------- text ----------

#[test]
fn wide_texts_read_back() {
    for s in ["", "plain", "栅栏", "a😀b"] {
        let units = wstr(s);
        let mut expected: Vec<u16> = s.encode_utf16().collect();
        assert_eq!(encode(s), expected);
        assert_eq!(decode(&expected), s);
        assert_eq!(text_of_field(&units), s);
        expected.push(0);
        assert_eq!(units, expected);
    }
    assert_eq!(decode(&[0xD800, 0x41]), "\u{FFFD}A");
    assert_eq!(decode(&[0xDC00]), "\u{FFFD}");
    assert_eq!(text_of_field(&[0x41, 0, 0x42]), "A");
}

#[test]
fn fields_are_cut_off_and_closed() {
    assert_eq!(fixed_text("abc", 3), vec![0x61, 0x62, 0]);
    assert_eq!(fixed_text("ab", 5), vec![0x61, 0x62, 0, 0, 0]);
    assert_eq!(fixed_text("abc", 1), vec![0]);
    assert_eq!(pixels(320, 144), 480);
    assert_eq!(pixels(1, 100), 1);
    assert_eq!(pixels(65_536, u32::MAX), i32::MAX);
}

#[test]
fn numbers_read_back() {
    for n in [0u32, 7, 10, 4_294_967_295] {
        assert_eq!(parse_u32(&decimal_text(n as u128)), Some(n));
    }
    assert_eq!(parse_u32("4294967296"), None);
    assert_eq!(parse_u32(""), None);
    assert_eq!(parse_u32("1a"), None);
    assert_eq!(trim(" \t a b \u{3000}"), "a b");
}

#[test]
fn paths_are_taken_apart() {
    assert_eq!(file_name_of(r"C:\a\b.c.txt"), Some("b.c.txt".to_string()));
    assert_eq!(file_name_of(r"C:\a\"), Some("a".to_string()));
    assert_eq!(file_name_of(r"C:\"), None);
    assert_eq!(file_stem_of(r"C:\a\b.c.txt"), Some("b.c".to_string()));
    assert_eq!(file_stem_of(".hidden"), Some(".hidden".to_string()));
    assert_eq!(extension_of(r"C:\a\b.c.txt"), Some("txt".to_string()));
    assert_eq!(extension_of(".hidden"), None);
    assert_eq!(parent_of(r"C:\a\b"), Some(r"C:\a".to_string()));
    assert_eq!(parent_of(r"C:\"), None);
    assert_eq!(joined(r"C:\a", "b"), r"C:\a\b");
    assert_eq!(joined(r"C:\a\", "b"), r"C:\a\b");
    assert!(is_same_place(r"C:\a\b", r"C:/a//b/"));
    assert!(!is_same_place(r"C:\a\b", r"C:\a\c"));
}

#[test]
fn a_share_is_no_name() {
    for share in [r"\\server\share", r"\\server\share\", "//server/share", r"\\server\share\."] {
        assert_eq!(file_name_of(share), None);
        assert_eq!(parent_of(share), None);
    }
    assert_eq!(
        file_name_of(r"\\server\share\a"),
        Some("a".to_string())
    );
    assert_eq!(
        parent_of(r"\\server\share\a"),
        Some(r"\\server\share\".to_string())
    );
    assert_eq!(
        parent_of(r"\\server\share\a\b"),
        Some(r"\\server\share\a".to_string())
    );
    assert_eq!(file_name_of(r"\\?\UNC\server\share"), None);
    assert_eq!(
        file_name_of(r"\\?\UNC\server\share\a"),
        Some("a".to_string())
    );
    assert_eq!(file_name_of(r"\\?\C:\"), None);
    assert_eq!(parent_of(r"\\?\C:\a"), Some(r"\\?\C:\".to_string()));
    assert_eq!(file_name_of(r"\\server"), Some("server".to_string()));
    assert_eq!(joined(r"\\server\share", "a"), r"\\server\share\a");
    assert_eq!(joined(r"\\server\share\a", r"\b"), r"\\server\share\b");
    assert_eq!(joined(r"C:\a", r"\\server\share"), r"\\server\share");
    assert!(is_same_place(r"\\server\share", "//server/share/"));
    assert!(!is_same_place(r"\\server\share", r"\\server\other"));
    assert!(!is_same_place(r"\\server\share\a", r"\server\share\a"));
}

#[test]
fn a_dot_counts_only_in_front() {
    assert_eq!(file_name_of(r"C:\a\."), Some("a".to_string()));
    assert_eq!(file_name_of(r"a\.\.\"), Some("a".to_string()));
    assert_eq!(parent_of(r"C:\a\.\b"), Some(r"C:\a".to_string()));
    assert_eq!(parent_of(r"C:\.\b"), Some(r"C:\".to_string()));
    assert_eq!(file_name_of("."), None);
    assert_eq!(parent_of("."), Some(String::new()));
    assert_eq!(parent_of(r".\a"), Some(".".to_string()));
    assert_eq!(file_name_of(r"C:\a\.."), None);
    assert_eq!(file_name_of(r"C:\a\.b"), Some(".b".to_string()));
    assert!(is_same_place(r"C:\a\.\b", r"c:\a\b\."));
    assert!(!is_same_place(r".\a", "a"));
}

// ---------- downloads ----------

fn news(name: &str, is_file: bool) -> News {
    News {
        name: name.to_string(),
        is_file,
    }
}

#[test]
fn downloads_under_way_are_left_alone() {
    for name in ["a.crdownload", "a.PART", "a.partial", "a.download", "a.tmp"] {
        assert!(is_download_temp(name));
    }
    assert!(!is_download_temp("a.zip"));
    assert!(!is_download_temp("tmp"));
}

#[test]
fn a_new_download_waits_until_it_is_whole() {
    let dir = r"C:\Users\a\Downloads";
    let path = r"C:\Users\a\Downloads\a.zip".to_string();
    let mut t = DownloadTracker::new();
    t.reset(&vec![r"C:\Users\a\Downloads\old.zip".to_string()]);
    t.ingest(
        dir,
        &vec![
            news("a.zip", true),
            news("old.zip", true),
            news("b.tmp", true),
            news("Desktop.INI", true),
            news("folder", false),
            news("a.zip", true),
        ],
    );
    assert_eq!(t.pending.len(), 1);
    assert!(t.pending.contains(&path));
    let facts = || {
        Some(FileFacts {
            is_file: true,
            len: 3,
            modified: None,
        })
    };
    assert!(t.examine(&path, facts()) == Verdict::Wait);
    assert!(t.examine(&path, facts()) == Verdict::Wait);
    assert!(t.examine(&path, facts()) == Verdict::Ready);
    t.settle(&vec![path.clone()]);
    assert_eq!(t.pending.len(), 0);
    t.ingest(dir, &vec![news("a.zip", true)]);
    assert_eq!(t.pending.len(), 1);
    t.forget_gone(&PathSet::new());
    assert_eq!(t.seen.len(), 0);
}

#[test]
fn the_download_box_shows_where_it_is_to() {
    let mut c = Config {
        download_box_id: Some(3),
        ..Config::default()
    };
    let mut t = DownloadTracker::new();
    assert!(download_box_should_show(&c, 3));
    assert!(toggle_download_box(&mut c));
    assert!(!download_box_should_show(&c, 3));
    assert!(download_box_should_show(&c, 4));
    assert!(set_download_box_visible(&mut c, true));
    assert!(!set_download_box_visible(&mut c, true));
    let there = vec!["C:\\d\\x".to_string()];
    assert!(set_download_enabled(&mut c, &mut t, false, &there));
    assert!(!set_download_enabled(&mut c, &mut t, false, &Vec::new()));
    assert!(t.seen.contains("C:\\d\\x"));
    assert!(!download_box_should_show(&c, 3));
    assert!(!toggle_download_box(&mut c));
    assert_eq!(
        downloads_dir(&Some("C:\\Users\\a".to_string())),
        Some("C:\\Users\\a\\Downloads".to_string())
    );
    assert_eq!(downloads_dir(&None), None);
}

#[test]
fn the_download_box_is_found_or_made() {
    let fence = |id: u32, folder: Option<&str>| {
        Fence::new(
            FenceCfg {
                id,
                folder: folder.map(|f| f.to_string()),
                ..FenceCfg::default()
            },
            id as isize,
            96,
        )
    };
    let state = |fences: Vec<Fence>, box_id: Option<u32>| Global {
        config: Config {
            download_box_id: box_id,
            ..Config::default()
        },
        next_id: 9,
        fences,
        zen: false,
        watchers: Vec::new(),
    };
    let dir = "C:\\cfg\\boxes\\下载收纳箱";

    let mut g = state(vec![fence(1, None), fence(2, Some("D:\\x"))], Some(2));
    assert_eq!(
        ensure_download_box(&mut g, "C:\\cfg"),
        BoxStep::Ready { save: true }
    );
    assert_eq!(g.fences[1].cfg.kind, FenceKind::Download);
    assert_eq!(
        ensure_download_box(&mut g, "C:\\cfg"),
        BoxStep::Ready { save: false }
    );
    assert_eq!(download_target(&g.config, &g.fences, "C:\\cfg"), "D:\\x");

    let mut g = state(vec![fence(1, None), fence(2, Some(dir))], None);
    assert_eq!(
        ensure_download_box(&mut g, "C:\\cfg"),
        BoxStep::Ready { save: true }
    );
    assert_eq!(g.config.download_box_id, Some(2));

    let mut g = state(vec![fence(1, None)], Some(7));
    assert_eq!(ensure_download_box(&mut g, "C:\\cfg"), BoxStep::Create);
    assert_eq!(download_target(&g.config, &g.fences, "C:\\cfg"), dir);
    let c = download_box_cfg("C:\\cfg", 1920, 96);
    assert_eq!(c.folder.as_deref(), Some(dir));
    assert_eq!((c.x, c.y, c.w, c.h), (1600, 100, 260, 340));
}

// ---------- sweeping ----------

#[test]
fn the_first_rule_for_a_file_counts() {
    let rule = |ext: &str, dest: &str| SweepRule {
        ext: ext.to_string(),
        dest: dest.to_string(),
    };
    let rules = vec![
        rule(".JPG", "D:\\pictures"),
        rule(".txt", "D:\\notes"),
        rule(".jpg", "D:\\never"),
    ];
    let none = Pending::new();
    assert_eq!(rule_for(&rules, "C:\\Desktop\\a.Jpg"), Some(0));
    assert!(matches!(
        sweep_step(&rules, "C:\\Desktop\\a.jpg", true, &none),
        SweepStep::MoveTo(d) if d == "D:\\pictures"
    ));
    assert!(matches!(
        sweep_step(&rules, "C:\\Desktop\\a.jpg", false, &none),
        SweepStep::Stay
    ));
    assert!(matches!(
        sweep_step(&rules, "C:\\Desktop\\a.exe", true, &none),
        SweepStep::Stay
    ));
    let mut waiting = Pending::new();
    waiting.insert("C:\\Desktop\\a.jpg");
    assert!(matches!(
        sweep_step(&rules, "C:\\Desktop\\a.jpg", true, &waiting),
        SweepStep::Stay
    ));
    let names = |n: &str| vec!["x.exe".to_string(), n.to_string()];
    assert!(calls_for_sweep(&rules, &names("b.TXT")));
    assert!(!calls_for_sweep(&rules, &names("b.doc")));
}

#[test]
fn failed_moves_are_tried_again_in_their_order() {
    let retry = |n: &str| Retry {
        src: n.to_string(),
        dest: "D:\\d".to_string(),
    };
    let mut retries = vec![retry("a"), retry("b"), retry("c"), retry("d")];
    sweep_retry_tick(
        &mut retries,
        &vec![
            RetryOutcome::Failed,
            RetryOutcome::Gone,
            RetryOutcome::Moved,
            RetryOutcome::Failed,
        ],
    );
    let left: Vec<&str> = retries.iter().map(|r| r.src.as_str()).collect();
    assert_eq!(left, vec!["a", "d"]);
}

// ---------- the notification area ----------

#[test]
fn the_icon_is_three_bars() {
    let px = make_tray_icon();
    assert_eq!(px.len(), 256);
    assert_eq!(px.iter().filter(|&&p| p == BAR_COLOUR).count(), 3 * (48 - 4));
    assert_eq!(px[2 * 16 + 2], 0);
    assert_eq!(px[2 * 16 + 3], BAR_COLOUR);
    assert_eq!(px[6 * 16 + 5], 0);
}

#[test]
fn the_menu_shows_its_switches() {
    let switches = TraySwitches {
        zen: true,
        ghost_mode: false,
        autostart: false,
        download_enabled: false,
        download_visible: true,
        desktop_avoid: false,
    };
    let items = tray_menu(switches, &Some("Alt+F8".to_string()));
    let find = |id: u32| items.iter().find(|i| i.id == id).unwrap();
    assert_eq!(find(MENU_ZEN).label, "Zen 模式\tAlt+F8");
    assert!(find(MENU_ZEN).checked);
    assert!(find(MENU_DOWNLOAD_VISIBLE).checked && find(MENU_DOWNLOAD_VISIBLE).grayed);
    assert_eq!(tray_menu(switches, &None)[4].label, "Zen 模式");
    for item in &items {
        assert_eq!(
            item.id != 0,
            tray_command(item.id) != TrayCommand::Nothing
        );
    }
    assert_eq!(tray_click(0x0001_0205), TrayClick::ShowMenu);
    assert_eq!(tray_click(0x007B), TrayClick::ShowMenu);
    assert_eq!(tray_click(0x0203), TrayClick::ToggleZen);
    assert_eq!(tray_click(0x0200), TrayClick::Nothing);
}

// ---------- icons ----------

#[test]
fn the_least_used_icon_makes_room() {
    let mut cache = IconCache::new();
    for i in 0..CACHE_CAP {
        assert_eq!(cache.insert(&format!("p{i}"), i as isize + 1), None);
    }
    assert_eq!(cache.get(&"p0".to_string(), None), Some(1));
    assert_eq!(cache.insert(&"new".to_string(), 9_999), Some(2));
    assert_eq!(cache.get(&"p1".to_string(), None), None);
    assert_eq!(cache.get(&"p0".to_string(), Some(5)), Some(1));
    assert_eq!(cache.take_perf_stats().hits, 1);
    assert_eq!(cache.clear().len(), CACHE_CAP);
    assert_eq!(first_icon_source(Some(4)), IconSource::ExtraLarge(4));
    assert_eq!(
        next_icon_source(IconSource::ExtraLarge(4)),
        IconSource::Large(4)
    );
}

#[test]
fn measurements_are_written_down() {
    let mut p = Perf::new(&Some("1".to_string()), &None);
    init(&mut p, 42);
    record_refresh(&mut p, 7, r"C:\box", 3, 10_000, 20_000, 35_999, true);
    assert_eq!(
        take_lines(&mut p),
        vec![
            "[perf][session] pid=42 profiling=enabled".to_string(),
            r"[perf][refresh] fence=7 entries=3 read_us=10 sort_us=20 total_us=35 ok=true dir=C:\box"
                .to_string(),
        ]
    );

    let trace = DropTrace::begin(&mut p, "in", 1, 1_000_000);
    take_lines(&mut p);
    let stage = trace.stage_start(2_000_000);
    trace.finish_stage(&mut p, "file_operations", stage, 5_000_000, || "items=1".to_string());
    assert_eq!(
        take_lines(&mut p),
        vec![format!(
            "[perf][drop] op={} event=stage stage=file_operations elapsed_us=3000 since_begin_us=4000 items=1",
            trace.id()
        )]
    );
}

#[test]
fn a_turn_of_pages_is_summed_up() {
    let mut p = Perf::new(&Some("1".to_string()), &None);
    begin_animation(&mut p, 7, 0);
    take_lines(&mut p);
    let sample = RenderSample {
        total: 10_000_000,
        ..RenderSample::default()
    };
    record_render(&mut p, 7, true, sample, 10_000_000);
    assert!(take_lines(&mut p).is_empty());
    record_render(&mut p, 7, false, sample, 26_000_000);
    assert_eq!(
        take_lines(&mut p),
        vec![
            "[perf][animation] fence=7 frames=2 elapsed_ms=26 frame_avg_us=10000 frame_p95_us=10000 \
             frame_max_us=10000 over_16ms=0 interval_avg_us=16000 interval_p95_us=16000 \
             interval_max_us=16000 cpu_draw_avg_us=0 gdi_plus_wall_avg_us=0 labels_total=0 \
             label_avg_frame_us=0 label_avg_item_us=0 gdi_icons_avg_us=0 icon_hits_total=0 \
             icon_miss_total=0 icon_miss_avg_us=0 premultiply_avg_us=0 ulw_avg_us=0"
                .to_string()
        ]
    );
}

#[test]
fn repeats_are_kept_in_bounds() {
    let p = Perf::new(&Some("1".to_string()), &None);
    let asked = |n: &str| animation_repeats(&p, &Some(n.to_string()));
    assert_eq!(asked("3"), 3);
    assert_eq!(asked("0"), 1);
    assert_eq!(asked("20"), 10);
    assert_eq!(asked("x"), 1);
    assert_eq!(animation_repeats(&Perf::new(&None, &None), &Some("3".to_string())), 1);
}

#[test]
fn a_folder_is_watched_until_a_stop() {
    let news = notify_record(FILE_ACTION_ADDED, "a.txt");
    let all = WatchEvent::News(news.len());
    let mut watch = FolderWatch::new();
    let mut step = |stopped, event| watch.step(stopped, event, &news);
    assert_eq!(step(false, WatchEvent::Begun), WatchAction::Open);
    assert_eq!(step(false, WatchEvent::Missing), WatchAction::Pause);
    assert_eq!(step(false, WatchEvent::Waited), WatchAction::Open);
    assert_eq!(step(false, WatchEvent::Opened), WatchAction::Read);
    assert_eq!(
        step(false, all),
        WatchAction::Report(vec!["a.txt".to_string()])
    );
    assert_eq!(step(false, WatchEvent::Reported), WatchAction::Read);
    assert_eq!(step(false, WatchEvent::News(8)), WatchAction::Read);
    assert_eq!(step(false, WatchEvent::News(0)), WatchAction::Close);
    assert_eq!(step(false, WatchEvent::Closed), WatchAction::Pause);
    assert_eq!(step(false, WatchEvent::Waited), WatchAction::Open);
    assert_eq!(step(false, WatchEvent::Opened), WatchAction::Read);
    assert_eq!(step(false, WatchEvent::Broken), WatchAction::Close);
    assert_eq!(step(false, WatchEvent::Closed), WatchAction::Pause);
    assert_eq!(step(false, WatchEvent::Waited), WatchAction::Open);
    assert_eq!(step(false, WatchEvent::Opened), WatchAction::Read);
    assert_eq!(step(true, all), WatchAction::Close);
    assert_eq!(step(true, WatchEvent::Closed), WatchAction::End);
}

#[test]
fn a_stop_before_anything_is_open_just_ends() {
    let mut watch = FolderWatch::new();
    assert_eq!(
        watch.step(true, WatchEvent::Begun, &[]),
        WatchAction::End
    );
    let mut late = FolderWatch::new();
    assert_eq!(
        late.step(true, WatchEvent::Opened, &[]),
        WatchAction::Close
    );
}

#[test]
fn each_drop_gets_a_number_of_its_own() {
    let mut p = Perf::new(&Some("1".to_string()), &Some("1".to_string()));
    let first = DropTrace::begin(&mut p, "in", 1, 0);
    mark_drop_posted(&mut p, first.id(), 1_000);
    let second = DropTrace::begin(&mut p, "out", 1, 2_000);
    let third = DropTrace::start(&mut p, 3_000);
    assert_eq!((first.id(), second.id(), third.id()), (1, 2, 3));
    assert!(p.enabled && p.safe_desktop);
    assert_eq!(take_drop_post_delay(&mut p, first.id(), 5_000), Some(4_000));
    assert_eq!(take_drop_post_delay(&mut p, second.id(), 5_000), None);
    p.next_drop_id = u32::MAX;
    assert_eq!(DropTrace::start(&mut p, 0).id(), u32::MAX);
    assert_eq!(DropTrace::start(&mut p, 0).id(), 1);
}

#[test]
fn a_verbatim_path_is_read_as_it_stands() {
    assert_eq!(file_name_of(r"\\?\C:\a/b"), Some("a/b".to_string()));
    assert_eq!(parent_of(r"\\?\C:\a/b"), Some(r"\\?\C:\".to_string()));
    assert_eq!(file_name_of(r"\\?\C:\a\."), None);
    assert_eq!(parent_of(r"\\?\C:\a\."), Some(r"\\?\C:\a".to_string()));
    assert_eq!(file_name_of(r"\\?\pictures/cat"), None);
    assert_eq!(file_name_of(r"\\?\UNC\server/x\share"), None);
    assert!(!is_same_place(r"\\?\C:\a/b", r"\\?\C:\a\b"));
    assert!(!is_same_place(r"\\?\C:\a", r"C:\a"));
    assert!(is_same_place(r"\\?\c:\a\\b", r"\\?\C:\a\b\"));
    assert!(!is_same_place(r"\\?\C:", r"\\?\C:\"));
    assert!(!is_same_place(r"//?/C:/a", r"\\?\C:\a"));
    assert_eq!(joined(r"\\?\C:\a\", "b"), r"\\?\C:\a\b");
    assert_eq!(joined(r"\\?\C:\a", r"..\b/./c"), r"\\?\C:\b\c");
    assert_eq!(joined(r"\\?\C:\a", r"..\.."), r"\\?\C:\");
    assert_eq!(joined(r"\\?\C:\a", r"\b"), r"\\?\C:\b");
    assert_eq!(joined(r"\\?\C:", "b"), r"\\?\C:\b");
    assert_eq!(joined(r"\\?\C:\a", ""), r"\\?\C:\a\");
}

#[test]
fn a_device_and_a_drive_stand_in_front_of_names() {
    assert_eq!(file_name_of(r"\\.\COM1"), None);
    assert_eq!(file_name_of(r"\\.\pipe\a"), Some("a".to_string()));
    assert!(is_same_place(r"\\.\pipe", "//./pipe/"));
    assert_eq!(parent_of("C:."), None);
    assert_eq!(parent_of(r"C:.\a"), Some("C:.".to_string()));
    assert!(is_same_place(r"C:.\a", "c:a"));
    assert!(!is_same_place(r"C:\a", "C:a"));
}

#[test]
fn one_path_counts_once_however_it_is_written() {
    let mut set = PathSet::new();
    assert!(set.insert(r"C:\d\a.lnk"));
    assert!(!set.insert("C:/d/a.lnk"));
    assert!(set.contains(r"c:\d\.\a.lnk"));
    assert!(!set.contains(r"C:\d\A.lnk"));
    assert_eq!(set.paths(), vec![r"C:\d\a.lnk".to_string()]);
    set.remove("C:/d//a.lnk");
    assert_eq!(set.len(), 0);

    let mut pending = Pending::new();
    pending.or_insert("C:/d/a.lnk");
    pending.look(r"C:\d\a.lnk", 5, None);
    pending.or_insert(r"C:\d\a.lnk");
    assert_eq!(pending.get("C:/d/a.lnk").map(|s| s.len), Some(5));
    pending.insert(r"C:\d\a.lnk");
    assert_eq!(pending.get("C:/d/a.lnk").map(|s| s.len), Some(u64::MAX));
    assert_eq!(pending.paths(), vec!["C:/d/a.lnk".to_string()]);
    pending.remove(r"C:\d\a.lnk");
    assert!(!pending.contains("C:/d/a.lnk"));

    let mut cache = IconCache::new();
    cache.insert(&"C:/d/a.lnk".to_string(), 7);
    assert_eq!(cache.get(&r"C:\d\a.lnk".to_string(), None), Some(7));
}
