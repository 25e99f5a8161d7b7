use feather_fences::config::{Config, FenceCfg, FenceKind};
use feather_fences::fence::grid::{
    animation_progress, config_snapshot, grid_dims, hit_item, magnet,
    magnet_size_smooth, magnet_smooth, overlaps_any, rects_overlap, resize_dir_at, settle_fence,
    snap_size, start_page_anim, step_page_anim, total_pages, Metrics, ANIM_DURATION, ROW,
};
use feather_fences::fence::interaction::ResizeDir;
use feather_fences::fence::measures::{
    icon_at, label_font_at, label_height_at, metrics_at, title_font_at,
};
use feather_fences::fence::menu::{
    fence_command, head_items, icon_items, nearest_preset, new_title, opacity_items, prompt_event,
    prompt_layout, prompt_place, title_items, FenceCommand, PromptEvent, CMD_DELETE,
    CMD_HIDE_DOWNLOAD, CMD_OPEN, CMD_RENAME,
};
use feather_fences::fence::message::{fence_event, FenceEvent};
use feather_fences::fence::model::Entry;
use feather_fences::fence::refresh::{place_of, refresh_entries, sort_entries};
use feather_fences::fence::render::{
    cell_place, continue_perf_animation, display_title, drawn_range, empty_hint, entry_mark,
    frame_alphas, label_cut, label_lines, mark_colour, page_dots, panel_colour,
    premultiply, premultiply_pixel, start_perf_animation, CellPlace, Dot, LabelLines, Mark,
};
use feather_fences::fence::window::{
    cursor_at, fence_idx, high16, low16, on_display_changed, on_double_click, on_dpi_changed,
    on_leave, on_pointer_move, on_press, on_release, on_wheel, path_to_delete,
    reset_pointer_interaction, restores_after_show_desktop, CursorShape, DoubleClick, Placement,
    PointerMove,
};
use feather_fences::fence::{
    Fence, RefreshSignal, RefreshState, RefreshTimerAction, REFRESH_DEBOUNCE_MS,
};
use feather_fences::fencelife::{
    adopt_window, after_drop, all_failed, apply_fence_command, apply_visibility, box_cfg,
    desktop_layer, drop_step, drop_target, failure_tip, first_box_cfg, format_drop_failures,
    layer_step, new_box_dir,
    place_inside, portal_cfg, prepare_fence, put_back, rebuilt, rename_fence,
    reserve_desktop_icons, tally_drop, toggle_zen, watchdog_step, watched_dir, DropStep,
    DropTarget, Failure, ItemOutcome, MenuOutcome, Restore, RestoreStep, Screen, Visibility,
    WatchStep,
};
use feather_fences::desktop::avoidance::MovedFence;
use feather_fences::geometry::Area;
use feather_fences::global::{
    assign_ids, begin_reload, collection_dirs, delete_fence, first_free_id, sync_config,
    program_event, timer_task, toggle_autostart, toggle_ghost, Global, ManagedWatcher,
    ProgramEvent, TimerTask, WatcherOwner,
};
use feather_fences::tray::TrayClick;

const MS: u128 = 1_000_000;

fn measures() -> Metrics {
    Metrics {
        margin: 8,
        rail: 10,
        cell_w: 80,
        cell_h: 90,
        title_h: 30,
        edge: 6,
        min_w: 100,
        min_h: 100,
    }
}

fn entry(name: &str, is_dir: bool) -> Entry {
    Entry {
        path: format!(r"C:\box\{name}"),
        name: name.to_string(),
        is_dir,
    }
}

fn fence(id: u32, hwnd: isize) -> Fence {
    Fence::new(
        FenceCfg {
            id,
            ..FenceCfg::default()
        },
        hwnd,
        96,
    )
}

fn global(fences: Vec<Fence>) -> Global {
    Global {
        config: Config::default(),
        next_id: 10,
        fences,
        zen: false,
        watchers: Vec::new(),
    }
}

#[test]
fn refresh_state_coalesces_events_until_the_quiet_period() {
    let mut state = RefreshState::default();
    let start: u128 = 1_000 * MS;
    let delay = REFRESH_DEBOUNCE_MS as u128 * MS;

    assert!(state.record_event(start));
    assert!(!state.record_event(start + 50 * MS));
    assert_eq!(
        state.timer_action(start + 150 * MS, delay),
        RefreshTimerAction::Wait(50)
    );
    assert_eq!(
        state.timer_action(start + 200 * MS, delay),
        RefreshTimerAction::Refresh
    );
    assert_eq!(
        state.timer_action(start + 201 * MS, delay),
        RefreshTimerAction::Idle
    );
    assert!(state.record_event(start + 202 * MS));
}

#[test]
fn a_cancelled_refresh_is_asked_for_again() {
    let mut signal = RefreshSignal::default();
    assert!(signal.post(5 * MS));
    assert!(!signal.post(6 * MS));
    signal.cancel();
    assert!(signal.post(7 * MS));
    assert_eq!(signal.timer_action(500 * MS), RefreshTimerAction::Refresh);
}

#[test]
fn animation_progress_tracks_elapsed_time_and_clamps_at_the_end() {
    assert_eq!(animation_progress(0), 0);
    assert_eq!(animation_progress(ANIM_DURATION / 2), 500_000);
    assert_eq!(animation_progress(ANIM_DURATION), 1_000_000);
    assert_eq!(animation_progress(ANIM_DURATION * 2), 1_000_000);
}

#[test]
fn refresh_preserves_page_and_clamps_when_contents_shrink() {
    let m = measures();
    let mut f = fence(1, 1);
    f.model.page = 1;
    let listing: Vec<Entry> = (0..40).map(|i| entry(&format!("item-{i:02}.txt"), false)).collect();
    refresh_entries(&mut f, Some(listing), &m);
    assert_eq!(f.model.page, 1);
    assert_eq!(f.top_row, grid_dims(&f.cfg, &m).1 as i128 * ROW);

    refresh_entries(&mut f, Some(Vec::new()), &m);
    assert_eq!(f.model.page, 0);
    assert_eq!(f.top_row, 0);
}

#[test]
fn cancelled_capture_clears_geometry_drag_without_requesting_a_snap() {
    let mut f = fence(0, 0);
    f.interaction.moving = true;
    f.interaction.resizing = Some(ResizeDir::SE);
    f.interaction.drag_moved = true;

    let outcome = reset_pointer_interaction(&mut f);

    assert!(outcome.geometry_changed);
    assert!(!f.interaction.moving);
    assert!(f.interaction.resizing.is_none());
    assert!(!f.interaction.drag_moved);
}

#[test]
fn cancelled_capture_clears_pending_item_drag() {
    let mut f = fence(0, 0);
    f.interaction.drag_idx = Some(3);
    f.interaction.hover = Some(3);

    let outcome = reset_pointer_interaction(&mut f);

    assert!(!outcome.geometry_changed);
    assert!(outcome.visual_changed);
    assert!(f.interaction.drag_idx.is_none());
    assert!(f.interaction.hover.is_none());
}

#[test]
fn failure_message_limits_details_and_reports_partial_success() {
    let failures: Vec<Failure> = (0..7)
        .map(|i| Failure {
            path: format!("C:\\source\\file-{i}.txt"),
            error: "拒绝访问".to_string(),
        })
        .collect();

    let message = format_drop_failures("D:\\target", 2, &failures, false);

    assert!(message.contains("有 7 个项目未能移动"));
    assert!(message.contains("已成功移动 2 个项目"));
    assert!(message.contains("file-0.txt"));
    assert!(!message.contains("file-5.txt"));
    assert!(message.contains("另有 2 个项目未列出"));
}

#[test]
fn one_failure_is_told_in_full() {
    let failures = vec![Failure {
        path: "C:\\s\\a.txt".to_string(),
        error: "busy".to_string(),
    }];
    assert_eq!(
        format_drop_failures("D:\\t", 0, &failures, true),
        "有 1 个项目未能复制到：\nD:\\t\n\n• a.txt：busy\n\n请检查原位置和目标目录后重试。程序不会主动删除未成功移动的源项目。"
    );
    assert_eq!(
        failure_tip(3),
        "3 个文件未能移入目标目录(可能被占用或跨卷移动文件夹)"
    );
}

#[test]
fn everything_dropped_is_accounted_for() {
    let paths: Vec<String> = ["C:\\a", "C:\\b", "C:\\c", "C:\\d"]
        .iter()
        .map(|p| p.to_string())
        .collect();
    let outcomes = vec![
        ItemOutcome::Done,
        ItemOutcome::Missing,
        ItemOutcome::SameDir,
        ItemOutcome::Failed("busy".to_string()),
    ];
    let t = tally_drop(&paths, &outcomes);
    assert_eq!((t.succeeded, t.missing, t.same_dir_skipped), (1, 1, 1));
    assert_eq!(t.failures.len(), 2);
    assert_eq!(t.failures[0].path, "C:\\b");
    assert_eq!(t.failures[0].error, "源项目不存在或已被移动");
    assert_eq!(t.failures[1].error, "busy");
    let after = after_drop(&t);
    assert!(after.refresh && after.tell && after.taken);
    let none = all_failed(&paths);
    assert_eq!(none.failures.len(), 4);
    assert_eq!(none.failures[3].error, "无法创建或访问栅栏存储目录");
    assert!(!after_drop(&none).taken);
}

#[test]
fn a_move_to_where_it_is_does_nothing() {
    assert_eq!(
        drop_step("C:\\box\\a.txt", true, "C:\\box", false),
        DropStep::SameDir
    );
    assert_eq!(
        drop_step("C:\\box\\a.txt", true, "C:\\box", true),
        DropStep::Transfer
    );
    assert_eq!(
        drop_step("C:\\other\\a.txt", true, "C:\\box", false),
        DropStep::Transfer
    );
    assert_eq!(
        drop_step("C:\\box\\a.txt", false, "C:\\box", false),
        DropStep::Missing
    );
}

#[test]
fn a_drop_goes_to_the_fence_under_it() {
    let mut with_folder = fence(1, 11);
    with_folder.cfg.folder = Some("D:\\folder".to_string());
    let g = global(vec![with_folder, fence(2, 22)]);
    match drop_target(&g, 11, "C:\\cfg") {
        DropTarget::Into { idx, dir, is_vault } => {
            assert_eq!((idx, dir.as_str(), is_vault), (0, "D:\\folder", false));
        }
        DropTarget::NoFence => panic!("the fence was not found"),
    }
    match drop_target(&g, 22, "C:\\cfg") {
        DropTarget::Into { idx, dir, is_vault } => {
            assert_eq!(idx, 1);
            assert!(is_vault);
            assert_eq!(dir, watched_dir(&g.fences[1].cfg, &g.config, "C:\\cfg"));
        }
        DropTarget::NoFence => panic!("the fence was not found"),
    }
    assert!(matches!(
        drop_target(&g, 33, "C:\\cfg"),
        DropTarget::NoFence
    ));
}

#[test]
fn new_fences_stand_in_a_cascade() {
    let c = portal_cfg("D:\\Documents".to_string(), 1920, 96, 7);
    assert_eq!((c.id, c.title.as_str()), (0, "Documents"));
    assert_eq!((c.x, c.y, c.w, c.h), (1580, 180, 280, 340));
    assert_eq!(c.kind, FenceKind::Portal);
    assert_eq!(portal_cfg("D:\\".to_string(), 1920, 96, 0).title, "文件夹栅栏");
    let c = box_cfg("C:\\boxes\\收纳箱 2".to_string(), 1920, 144, 5);
    assert_eq!(c.title, "收纳箱 2");
    assert_eq!((c.x, c.y, c.w, c.h, c.dpi), (1440, 150, 390, 510, 144));
    let c = first_box_cfg(1920, 96);
    assert_eq!((c.x, c.y, c.opacity), (1600, 100, 740_000));
    assert!(c.folder.is_none());
}

#[test]
fn a_new_box_takes_the_first_free_name() {
    let taken = vec!["C:\\b\\收纳箱".to_string(), "C:\\b\\收纳箱 2".to_string()];
    assert_eq!(
        new_box_dir("C:\\b", |p: &String| taken.contains(p)),
        Some("C:\\b\\收纳箱 3".to_string())
    );
    assert_eq!(
        new_box_dir("C:\\b", |_: &String| false),
        Some("C:\\b\\收纳箱".to_string())
    );
}

#[test]
fn an_unplaced_fence_gets_a_place_and_a_number() {
    let screen = Screen {
        w: 1920,
        h: 1080,
        dpi: 96,
    };
    let mut next = 4;
    let mut c = FenceCfg {
        w: 50,
        ..FenceCfg::default()
    };
    prepare_fence(&mut c, &mut next, screen, 6, 100, 100);
    assert_eq!((c.id, next), (4, 5));
    assert_eq!((c.x, c.y), (1920 - 320 - 20 - 30, 80 + 40));
    assert_eq!((c.w, c.h), (100, 340));

    let mut c = FenceCfg {
        id: 9,
        pos_set: Some(true),
        dpi: 0,
        w: 50,
        ..FenceCfg::default()
    };
    prepare_fence(&mut c, &mut next, screen, 6, 100, 100);
    assert_eq!((c.id, next), (9, 5));
    assert_eq!((c.x, c.y, c.w), (0, 0, 50));
    let mut last = u32::MAX;
    prepare_fence(&mut c, &mut last, screen, 6, 100, 100);
    assert_eq!((c.id, last), (9, u32::MAX));

    let small = Screen {
        w: 200,
        h: 300,
        dpi: 96,
    };
    let mut c = FenceCfg::default();
    prepare_fence(&mut c, &mut next, small, 0, 100, 100);
    assert_eq!((c.x, c.y), (0, 0));
}

#[test]
fn a_fence_comes_back_at_the_dpi_of_its_screen() {
    let c = FenceCfg {
        dpi: 192,
        w: 520,
        h: 680,
        ..FenceCfg::default()
    };
    let mut r = Restore::new(&c, 96);
    assert!(r.resize(100, 100));
    assert_eq!((r.w, r.h), (260, 340));
    assert_eq!(r.observe(96), RestoreStep::Settled);

    let mut r = Restore::new(&c, 192);
    assert!(!r.resize(100, 100));
    assert_eq!(r.observe(96), RestoreStep::Again);
    assert!(r.resize(100, 100));
    assert_eq!(r.observe(192), RestoreStep::PutInside);
    let area = Area {
        left: 0,
        top: 0,
        right: 400,
        bottom: 1000,
    };
    assert_eq!(
        place_inside(&r, 300, -50, &area, 100, 100),
        (0, 0, 400, 680)
    );
    assert_eq!(
        place_inside(
            &r,
            900,
            900,
            &Area {
                left: 0,
                top: 0,
                right: 1000,
                bottom: 1000
            },
            100,
            100
        ),
        (480, 320, 520, 680)
    );
}

#[test]
fn the_window_tells_the_last_word() {
    let mut f = fence(1, 1);
    let rect = Area {
        left: 5,
        top: 6,
        right: 105,
        bottom: 6,
    };
    adopt_window(&mut f, &rect, 144);
    assert_eq!((f.cfg.x, f.cfg.y, f.cfg.w, f.cfg.h), (5, 6, 100, 1));
    assert_eq!((f.dpi, f.cfg.dpi, f.cfg.pos_set), (144, 144, Some(true)));
}

#[test]
fn zen_hides_all_and_the_download_box_hides_alone() {
    let mut gone = fence(3, 33);
    gone.valid = false;
    let mut g = global(vec![fence(1, 11), fence(2, 22), gone]);
    g.config.download_box_id = Some(2);
    g.config.download_box_visible = false;
    let v = |hwnd: isize, show: bool| Visibility { hwnd, show };
    assert_eq!(apply_visibility(&g), vec![v(11, true), v(22, false)]);
    toggle_zen(&mut g);
    assert_eq!(apply_visibility(&g), vec![v(11, false), v(22, false)]);
    assert!(desktop_layer(&g).is_empty());
    toggle_zen(&mut g);
    assert_eq!(apply_visibility(&g), vec![v(11, true), v(22, false)]);
    assert_eq!(desktop_layer(&g), vec![11]);
    assert_eq!(layer_step(11, 7), Some(7));
    assert_eq!(layer_step(11, 11), None);
    assert_eq!(reserve_desktop_icons(&g, false), None);
    g.config.desktop_avoid = true;
    assert_eq!(reserve_desktop_icons(&g, true), None);
    assert_eq!(
        reserve_desktop_icons(&g, false),
        Some(vec![Area {
            left: 0,
            top: 0,
            right: 260,
            bottom: 340
        }])
    );
}

#[test]
fn the_watchdog_shows_and_rebuilds() {
    let c = Config::default();
    let mut f = fence(1, 1);
    assert_eq!(watchdog_step(&f, &c, false, true), WatchStep::ShowAgain);
    assert_eq!(watchdog_step(&f, &c, true, true), WatchStep::Leave);
    assert_eq!(watchdog_step(&f, &c, false, false), WatchStep::Leave);
    f.valid = false;
    f.interaction.moving = true;
    assert_eq!(watchdog_step(&f, &c, true, false), WatchStep::Rebuild);
    rebuilt(&mut f, 99);
    assert!(f.valid && !f.interaction.moving);
    assert_eq!(f.hwnd, 99);
}

#[test]
fn a_moved_fence_is_put_back() {
    let mut fences = vec![fence(1, 1), fence(2, 2)];
    fences[1].cfg.x = 500;
    let moved = MovedFence {
        cfg: FenceCfg {
            id: 2,
            x: 7,
            y: 8,
            w: 9,
            h: 10,
            ..FenceCfg::default()
        },
        at: 0,
    };
    assert_eq!(put_back(&mut fences, &moved), Some(1));
    let c = &fences[1].cfg;
    assert_eq!((c.x, c.y, c.w, c.h), (7, 8, 9, 10));
    fences.remove(1);
    assert_eq!(put_back(&mut fences, &moved), None);
}

#[test]
fn numbers_are_handed_out_once() {
    let with = |id: u32| FenceCfg {
        id,
        ..FenceCfg::default()
    };
    let mut cfgs = vec![with(1), with(1), with(0), with(3), with(1)];
    let mut next = first_free_id(&cfgs);
    assert_eq!(next, 4);
    assign_ids(&mut cfgs, &mut next);
    let ids: Vec<u32> = cfgs.iter().map(|c| c.id).collect();
    assert_eq!(ids, vec![1, 4, 5, 3, 6]);
    assert_eq!(next, 7);
    assert_eq!(first_free_id(&Vec::new()), 1);
}

#[test]
fn a_deleted_fence_takes_its_watchers_along() {
    let mut g = global(vec![fence(1, 11), fence(2, 22)]);
    g.watchers = vec![
        ManagedWatcher::process(100),
        ManagedWatcher::fence(1, 101),
        ManagedWatcher::fence(2, 102),
    ];
    sync_config(&mut g);
    assert_eq!(g.config.fences.len(), 2);
    let removed = delete_fence(&mut g, 0).unwrap();
    assert_eq!(removed.fence.cfg.id, 1);
    assert_eq!(removed.watchers, vec![ManagedWatcher::fence(1, 101)]);
    assert_eq!(g.fences.len(), 1);
    assert_eq!(g.config.fences.len(), 1);
    assert_eq!(g.watchers.len(), 2);
    assert!(delete_fence(&mut g, 5).is_none());
    let out = begin_reload(&mut g, Config::default());
    assert_eq!(out.fences.len(), 1);
    assert_eq!(out.watchers.len(), 1);
    assert_eq!(g.watchers.len(), 1);
    assert_eq!(g.watchers[0].owner, WatcherOwner::Process);
    assert!(g.fences.is_empty() && g.config.fences.is_empty());
}

#[test]
fn switches_change_the_settings() {
    let mut gone = fence(2, 22);
    gone.valid = false;
    let mut g = global(vec![fence(1, 11), gone]);
    assert_eq!(toggle_ghost(&mut g), vec![11]);
    assert!(g.config.ghost_mode);
    assert!(toggle_autostart(&mut g));
    assert!(!toggle_autostart(&mut g));
    assert_eq!(timer_task(1), TimerTask::Watchdog);
    assert_eq!(timer_task(2), TimerTask::Nothing);
    assert_eq!(timer_task(4), TimerTask::NewFiles);
}

#[test]
fn boxes_are_told_with_their_folders() {
    let mut portal = fence(1, 11);
    portal.cfg.kind = FenceKind::Portal;
    let mut own = fence(2, 22);
    own.cfg.folder = Some("D:\\own".to_string());
    let mut g = global(vec![portal, own, fence(3, 33)]);
    g.config.vault_dir = Some("E:\\vault".to_string());
    let dirs = collection_dirs(&g, "C:\\cfg");
    assert_eq!(dirs.len(), 2);
    assert_eq!((dirs[0].id, dirs[0].dir.as_str()), (2, "D:\\own"));
    assert_eq!((dirs[1].id, dirs[1].dir.as_str()), (3, "E:\\vault"));
}

#[test]
fn folders_come_first_in_a_listing() {
    let sorted = sort_entries(vec![
        entry("b.txt", false),
        entry("Z", true),
        entry("A.txt", false),
        entry("a", true),
    ]);
    let names: Vec<&str> = sorted.iter().map(|e| e.name.as_str()).collect();
    assert_eq!(names, vec!["a", "Z", "A.txt", "b.txt"]);
    assert_eq!(place_of(&sorted, r"C:\box\A.txt"), Some(2));
    assert_eq!(place_of(&sorted, "C:/box/A.txt"), Some(2));
    assert_eq!(place_of(&sorted, r"C:\box\none"), None);
}

#[test]
fn a_refresh_keeps_what_is_selected() {
    let m = measures();
    let mut f = fence(1, 1);
    refresh_entries(&mut f, Some(vec![entry("b", false), entry("c", false)]), &m);
    f.model.selected = Some(1);
    refresh_entries(
        &mut f,
        Some(vec![entry("a", false), entry("c", false), entry("b", false)]),
        &m,
    );
    assert_eq!(f.model.selected, Some(2));
    assert_eq!(path_to_delete(&f), Some(r"C:\box\c".to_string()));
    refresh_entries(&mut f, Some(vec![entry("a", false)]), &m);
    assert_eq!(f.model.selected, None);
    assert_eq!(path_to_delete(&f), None);
}

#[test]
fn pages_turn_to_their_end() {
    let m = measures();
    let mut f = fence(1, 1);
    let listing: Vec<Entry> = (0..20).map(|i| entry(&format!("{i:02}"), false)).collect();
    refresh_entries(&mut f, Some(listing), &m);
    assert_eq!(grid_dims(&f.cfg, &m), (2, 3));
    assert_eq!(total_pages(&f, &m), 4);
    f.model.page = 1;
    assert!(start_page_anim(&mut f, 0));
    assert!(step_page_anim(&mut f, &m, ANIM_DURATION / 2));
    assert!(0 < f.top_row && f.top_row < 3 * ROW);
    assert!(!step_page_anim(&mut f, &m, ANIM_DURATION));
    assert_eq!(f.top_row, 3 * ROW);
    assert_eq!(drawn_range(&f, &m).0, 4);
}

#[test]
fn a_notch_turns_one_page() {
    let m = measures();
    let mut f = fence(1, 1);
    let listing: Vec<Entry> = (0..20).map(|i| entry(&format!("{i:02}"), false)).collect();
    refresh_entries(&mut f, Some(listing), &m);
    on_wheel(&mut f, -60, 0, &m);
    assert_eq!(f.model.page, 0);
    on_wheel(&mut f, -60, 0, &m);
    assert_eq!(f.model.page, 1);
    on_wheel(&mut f, 120, 0, &m);
    assert_eq!(f.model.page, 0);
    on_wheel(&mut f, 120, 0, &m);
    assert_eq!(f.model.page, 0);
}

#[test]
fn a_settled_fence_lies_on_the_grid() {
    let m = measures();
    let area = Area {
        left: 0,
        top: 0,
        right: 1920,
        bottom: 1040,
    };
    let mut fences = vec![fence(1, 1), fence(2, 2)];
    fences[0].cfg.x = -300;
    settle_fence(&mut fences, 0, &m, &area);
    let c = &fences[0].cfg;
    assert!(c.x >= 0 && c.y >= 0);
    assert_eq!((c.w, c.h), snap_size(260, 340, &m));
    settle_fence(&mut fences, 1, &m, &area);
    let c = fences[1].cfg.clone();
    assert!(!overlaps_any(&fences, 1, c.x, c.y, c.w, c.h));
    let snap = config_snapshot(&fences);
    assert_eq!(snap[1].x, c.x);
    assert_eq!(snap[1].dpi, 96);
    assert!(rects_overlap(0, 0, 10, 10, 9, 9, 5, 5));
    assert!(!rects_overlap(0, 0, 10, 10, 10, 0, 5, 5));
}

#[test]
fn points_near_a_line_of_the_grid_are_drawn_to_it() {
    assert_eq!(magnet(41, 80, 0, 50), 80);
    assert_eq!(magnet(39, 80, 0, 50), 0);
}

#[test]
fn edges_and_items_are_found_under_the_pointer() {
    let m = measures();
    let mut f = fence(1, 1);
    let (w, h) = (f.cfg.w, f.cfg.h);
    assert_eq!(resize_dir_at(&f.cfg, 1, 1, &m), Some(ResizeDir::NW));
    assert_eq!(resize_dir_at(&f.cfg, w - 1, h - 1, &m), Some(ResizeDir::SE));
    assert_eq!(resize_dir_at(&f.cfg, w / 2, h / 2, &m), None);
    refresh_entries(&mut f, Some(vec![entry("a", false), entry("b", false)]), &m);
    assert_eq!(hit_item(&f, 10, 45, 2, &m), Some(0));
    assert_eq!(hit_item(&f, 100, 45, 2, &m), Some(1));
    assert_eq!(hit_item(&f, 10, 200, 2, &m), None);
}

#[test]
fn a_press_on_the_title_moves_the_fence() {
    let m = measures();
    let mut f = fence(1, 1);
    let window = Area {
        left: 100,
        top: 100,
        right: 360,
        bottom: 440,
    };
    let e = on_press(&mut f, 100, 15, (200, 115), &window, true, &m);
    assert!(e.capture);
    assert!(f.interaction.moving);
    let e = on_release(&mut f);
    assert!(!e.release_capture && !e.settle);
    assert!(!f.interaction.moving);
    f.interaction.moving = true;
    f.interaction.drag_moved = true;
    let e = on_release(&mut f);
    assert!(e.release_capture && e.settle);
}

#[test]
fn words_are_taken_apart_with_their_signs() {
    assert_eq!(low16(0x0005_FFFF), -1);
    assert_eq!(high16(0x0005_FFFF), 5);
    assert_eq!(high16(0xFFFE_0000), -2);
}

#[test]
fn a_new_dpi_takes_the_suggested_rectangle() {
    let m = measures();
    let mut f = fence(1, 1);
    let rect = Area {
        left: 1,
        top: 2,
        right: 391,
        bottom: 512,
    };
    assert!(on_dpi_changed(&mut f, 144, &rect, &m));
    assert_eq!((f.cfg.x, f.cfg.y, f.cfg.w, f.cfg.h), (1, 2, 390, 510));
    assert_eq!(f.cfg.dpi, 144);
    assert!(!on_dpi_changed(&mut f, 0, &rect, &m));
    let fences = vec![f];
    assert_eq!(fence_idx(&fences, 1), Some(0));
    assert_eq!(fence_idx(&fences, 2), None);
    assert!(restores_after_show_desktop(&fences, 1, false));
    assert!(!restores_after_show_desktop(&fences, 1, true));
}

#[test]
fn pixels_are_no_lighter_than_they_are_opaque() {
    assert_eq!(premultiply_pixel(0xFF80_4020, 255), 0xFF80_4020);
    assert_eq!(premultiply_pixel(0x0080_4020, 255), 0);
    let p = premultiply_pixel(0x80FF_FFFF, 255);
    let (a, r) = (p >> 24, (p >> 16) & 255);
    assert!(r <= a);
    let f = fence(1, 1);
    let (bg, _) = frame_alphas(&f, false);
    assert_eq!(panel_colour(bg), (118 << 24) + 0x001A_1C20);
    assert_eq!(bg, 178);
}

#[test]
fn labels_break_in_two() {
    assert!(matches!(label_lines("short", 5, true), LabelLines::One(_)));
    let units: Vec<u16> = "ab😀cd".encode_utf16().collect();
    assert_eq!(label_cut(&units, 3), 2);
    assert_eq!(label_cut(&units, 4), 4);
    match label_lines("abcdef", 4, false) {
        LabelLines::Two(a, b) => assert_eq!((a.as_str(), b.as_str()), ("abcd", "ef")),
        LabelLines::One(_) => panic!("the label does not fit on one line"),
    }
}

#[test]
fn menus_name_their_commands() {
    let ids: Vec<u32> = head_items(true).iter().map(|i| i.id).collect();
    assert_eq!(ids, vec![CMD_DELETE, CMD_HIDE_DOWNLOAD, CMD_OPEN, CMD_RENAME]);
    assert_eq!(head_items(false)[0].label, "删除此栅栏");
    assert_eq!(fence_command(CMD_RENAME), FenceCommand::Rename);
    assert_eq!(fence_command(0), FenceCommand::Nothing);
    for items in [opacity_items(700_000), icon_items(32), title_items(12)] {
        assert_eq!(items.iter().filter(|i| i.checked).count(), 1);
        for item in &items {
            assert!(fence_command(item.id) != FenceCommand::Nothing);
        }
    }
    assert_eq!(new_title("  box  "), Some("box".to_string()));
    assert_eq!(new_title("   "), None);
    let l = prompt_layout(96);
    assert!(l.button_y + l.button_h <= l.height);
    assert_eq!((l.pad, l.width, l.button_y, l.height), (18, 360, 70, 120));
    assert_eq!(prompt_layout(144).width, 540);
    assert_eq!(prompt_layout(u32::MAX).width, i32::MAX);
    assert_eq!(prompt_layout(u32::MAX).height, i32::MAX);
    let work = Area {
        left: 0,
        top: 0,
        right: 800,
        bottom: 600,
    };
    let (x, y) = prompt_place(&work, 200, 100, &work);
    assert_eq!((x, y), (300, 166));
}

#[test]
fn an_unnamed_fence_has_a_title_and_a_hint() {
    let f = fence(1, 1);
    assert_eq!(display_title(&f), "栅栏");
    assert!(!empty_hint(&f).is_empty());
}

#[test]
fn messages_of_a_fence_are_read() {
    // -2 across and 5 down.
    let place = 0x0005_FFFE;
    assert_eq!(
        fence_event(0x0200, 1, place),
        FenceEvent::Moved {
            x: -2,
            y: 5,
            left_button: true
        }
    );
    assert_eq!(
        fence_event(0x0201, 1, place),
        FenceEvent::Pressed { x: -2, y: 5 }
    );
    assert_eq!(
        fence_event(0x0203, 0, place),
        FenceEvent::DoubleClicked { x: -2, y: 5 }
    );
    assert_eq!(fence_event(0x020A, 0xFF88_0000, 0), FenceEvent::Wheel(-120));
    assert_eq!(fence_event(0x0112, 0xF022, 0), FenceEvent::Answered(0));
    assert_eq!(fence_event(0x0112, 0xF030, 0), FenceEvent::Other);
    assert_eq!(fence_event(0x0014, 0, 0), FenceEvent::Answered(1));
    assert_eq!(fence_event(0x0084, 0, 0), FenceEvent::Answered(1));
    assert_eq!(fence_event(0x0005, 1, 0), FenceEvent::Minimized);
    assert_eq!(fence_event(0x0005, 2, 0), FenceEvent::Other);
    assert_eq!(fence_event(0x8014, 0, 0), FenceEvent::Restore);
    assert_eq!(fence_event(0x0113, 0xFE11, 0), FenceEvent::RefreshTimer);
    assert_eq!(fence_event(0x0113, 0xFE10, 0), FenceEvent::TurnTimer);
    assert_eq!(fence_event(0x0113, 7, 0), FenceEvent::Answered(0));
    assert_eq!(fence_event(0x0100, 0x2E, 0), FenceEvent::Delete);
    assert_eq!(fence_event(0x0100, 0x2D, 0), FenceEvent::Other);
    assert_eq!(
        fence_event(0x0215, 0, 0),
        FenceEvent::PointerLost {
            capture_changed: true
        }
    );
    assert_eq!(
        fence_event(0x001F, 0, 0),
        FenceEvent::PointerLost {
            capture_changed: false
        }
    );
    assert_eq!(fence_event(0x8002, 9, 0), FenceEvent::Dropped(9));
    assert_eq!(fence_event(0x8001, 0, 0), FenceEvent::News);
    assert_eq!(fence_event(0x02E0, 0x00C0_00C0, 0), FenceEvent::DpiChanged(192));
    assert_eq!(fence_event(0x007E, 0, 0), FenceEvent::DisplayChanged);
    assert_eq!(fence_event(0x0081, 0, 0), FenceEvent::Other);
}

#[test]
fn messages_of_the_program_are_read() {
    assert_eq!(
        program_event(0x800A, 1, 0x0205),
        ProgramEvent::Tray(TrayClick::ShowMenu)
    );
    assert_eq!(
        program_event(0x800A, 1, 0x0001_0203),
        ProgramEvent::Tray(TrayClick::ToggleZen)
    );
    assert_eq!(program_event(0x0312, 1, 0), ProgramEvent::Hotkey);
    assert_eq!(
        program_event(0x0113, 5, 0),
        ProgramEvent::Timer(TimerTask::DesktopLayer)
    );
    assert_eq!(program_event(0x801E, 0, 0), ProgramEvent::Commands);
    assert_eq!(program_event(0x0002, 0, 0), ProgramEvent::Destroyed);
    assert_eq!(program_event(0x0001, 0, 0), ProgramEvent::Other);
}

#[test]
fn the_menu_of_a_fence_does_what_it_says() {
    let mut own = fence(2, 22);
    own.cfg.folder = Some("D:\\own".to_string());
    let mut g = global(vec![fence(1, 11), own]);
    g.config.download_box_id = Some(1);

    assert!(matches!(
        apply_fence_command(&mut g, 11, FenceCommand::Delete, "C:\\c"),
        MenuOutcome::EndDownloads
    ));
    assert!(matches!(
        apply_fence_command(&mut g, 22, FenceCommand::Delete, "C:\\c"),
        MenuOutcome::DeleteFence(1)
    ));
    assert!(matches!(
        apply_fence_command(&mut g, 99, FenceCommand::Delete, "C:\\c"),
        MenuOutcome::Nothing
    ));
    assert_eq!(g.fences.len(), 2);

    match apply_fence_command(&mut g, 22, FenceCommand::OpenFolder, "C:\\c") {
        MenuOutcome::Open(dir) => assert_eq!(dir, "D:\\own"),
        _ => panic!("a folder is shown"),
    }
    match apply_fence_command(&mut g, 11, FenceCommand::OpenFolder, "C:\\c") {
        MenuOutcome::Open(dir) => assert_eq!(dir, "C:\\c\\vault"),
        _ => panic!("the vault is shown"),
    }

    assert!(matches!(
        apply_fence_command(&mut g, 22, FenceCommand::Opacity(300_000), "C:\\c"),
        MenuOutcome::Redraw(1)
    ));
    assert_eq!(g.fences[1].cfg.opacity, 300_000);
    assert_eq!(g.config.fences[1].opacity, 300_000);

    assert!(matches!(
        apply_fence_command(&mut g, 22, FenceCommand::IconSize(48), "C:\\c"),
        MenuOutcome::SettleAll
    ));
    assert_eq!(g.config.icon, 48);
    assert!(matches!(
        apply_fence_command(&mut g, 22, FenceCommand::TitleSize(18), "C:\\c"),
        MenuOutcome::SettleAll
    ));
    assert_eq!(g.config.title_font_size, 18);

    assert!(matches!(
        apply_fence_command(&mut g, 11, FenceCommand::HideDownloadBox, "C:\\c"),
        MenuOutcome::HideBox { changed: true }
    ));
    assert!(!g.config.download_box_visible);
    assert!(matches!(
        apply_fence_command(&mut g, 11, FenceCommand::HideDownloadBox, "C:\\c"),
        MenuOutcome::HideBox { changed: false }
    ));
    assert!(matches!(
        apply_fence_command(&mut g, 11, FenceCommand::Rename, "C:\\c"),
        MenuOutcome::AskTitle
    ));
}

#[test]
fn a_fence_takes_no_blank_title() {
    let mut g = global(vec![fence(1, 11), fence(2, 22)]);
    assert_eq!(rename_fence(&mut g, 22, "  New  "), Some(1));
    assert_eq!(g.fences[1].cfg.title, "New");
    assert_eq!(g.config.fences[1].title, "New");
    assert_eq!(rename_fence(&mut g, 22, "   "), None);
    assert_eq!(rename_fence(&mut g, 33, "Other"), None);
    assert_eq!(g.fences[1].cfg.title, "New");
}

/// Three columns and two rows of cells, with ten entries.
fn full_fence() -> Fence {
    let mut f = fence(1, 11);
    f.cfg.w = 266;
    f.cfg.h = 226;
    f.cfg.dpi = 96;
    for i in 0..10 {
        f.model.entries.push(entry(&format!("{i}.txt"), false));
    }
    f
}

fn moved_to(x: i32, y: i32) -> PointerMove {
    PointerMove {
        x,
        y,
        cursor: (x, y),
        left_button: true,
        window: Area {
            left: 0,
            top: 0,
            right: 266,
            bottom: 226,
        },
        work: Area {
            left: 0,
            top: 0,
            right: 1920,
            bottom: 1080,
        },
        drag_threshold: 4,
        ghost_mode: false,
    }
}

#[test]
fn a_fence_follows_the_pointer() {
    let m = measures();
    let mut f = full_fence();
    f.interaction.moving = true;
    f.interaction.move_off = (10, 5);

    let e = on_pointer_move(&mut f, &moved_to(170, 185), &m);
    let place = Placement {
        x: 160,
        y: 180,
        w: 266,
        h: 226,
    };
    assert_eq!(e.place, Some(place));
    assert!(!e.resized && !e.render && f.interaction.drag_moved);
    assert_eq!((f.cfg.x, f.cfg.y), (160, 180));

    // Halfway between two places of the grid nothing pulls; near one of them it does.
    on_pointer_move(&mut f, &moved_to(210, 185), &m);
    assert_eq!(f.cfg.x, 200);
    on_pointer_move(&mut f, &moved_to(240, 185), &m);
    assert_eq!(f.cfg.x, 236);

    // The screen holds it.
    on_pointer_move(&mut f, &moved_to(1910, 185), &m);
    assert_eq!(f.cfg.x, 1654);
}

#[test]
fn a_fence_grows_with_the_pointer() {
    let m = measures();
    let mut f = full_fence();
    f.interaction.resizing = Some(ResizeDir::E);
    let e = on_pointer_move(&mut f, &moved_to(346, 50), &m);
    let place = Placement {
        x: 0,
        y: 0,
        w: 346,
        h: 226,
    };
    assert_eq!(e.place, Some(place));
    assert!(e.resized && e.render);

    // Never below its smallest size.
    f.interaction.resizing = Some(ResizeDir::W);
    let e = on_pointer_move(&mut f, &moved_to(260, 50), &m);
    assert_eq!(e.place.map(|p| (p.x, p.w >= 100)), Some((166, true)));
}

#[test]
fn an_item_is_dragged_from_the_threshold_on() {
    let m = measures();
    let mut f = full_fence();
    f.interaction.drag_idx = Some(1);
    f.interaction.drag_down = (50, 50);
    let e = on_pointer_move(&mut f, &moved_to(53, 50), &m);
    assert!(e.drag_out.is_none() && f.interaction.drag_idx == Some(1));
    let e = on_pointer_move(&mut f, &moved_to(54, 50), &m);
    assert_eq!(e.drag_out.as_deref(), Some(r"C:\box\1.txt"));
    assert!(f.interaction.drag_idx.is_none());
}

#[test]
fn a_move_without_the_button_ends_the_drag() {
    let m = measures();
    let mut f = full_fence();
    f.interaction.moving = true;
    f.interaction.drag_moved = true;
    let mut p = moved_to(170, 185);
    p.left_button = false;
    let e = on_pointer_move(&mut f, &p, &m);
    assert!(e.cancelled.is_some_and(|c| c.geometry_changed && !c.visual_changed));
    assert!(e.place.is_none() && !f.interaction.moving);
}

#[test]
fn the_pointer_lights_up_what_it_is_over() {
    let m = measures();
    let mut f = full_fence();
    let over = moved_to(93, 43);
    assert!(on_pointer_move(&mut f, &over, &m).render);
    assert_eq!(f.interaction.hover, Some(1));
    assert!(!on_pointer_move(&mut f, &over, &m).render);

    let mut ghostly = over;
    ghostly.ghost_mode = true;
    let e = on_pointer_move(&mut f, &ghostly, &m);
    assert!(e.track_leave && e.render && f.interaction.hover_visible);

    f.model.selected = Some(0);
    assert_eq!(entry_mark(&f, 0), Mark::Selected);
    assert_eq!(entry_mark(&f, 1), Mark::Hovered);
    assert_eq!(entry_mark(&f, 2), Mark::Plain);
    assert_eq!(mark_colour(Mark::Selected), Some(0x55FF_FFFF));
    assert_eq!(mark_colour(Mark::Hovered), Some(0x22FF_FFFF));
    assert_eq!(mark_colour(Mark::Plain), None);

    on_leave(&mut f);
    assert!(f.interaction.hover.is_none() && !f.interaction.hover_visible);
}

#[test]
fn the_cursor_shows_what_a_press_does() {
    let m = measures();
    let f = full_fence();
    assert_eq!(cursor_at(&f.cfg, 100, 10, &m), CursorShape::SizeAll);
    assert_eq!(cursor_at(&f.cfg, 2, 100, &m), CursorShape::SizeWe);
    assert_eq!(cursor_at(&f.cfg, 100, 225, &m), CursorShape::SizeNs);
    assert_eq!(cursor_at(&f.cfg, 265, 225, &m), CursorShape::SizeNwse);
    assert_eq!(cursor_at(&f.cfg, 2, 225, &m), CursorShape::SizeNesw);
    assert_eq!(cursor_at(&f.cfg, 100, 100, &m), CursorShape::Arrow);
}

#[test]
fn a_double_click_opens_or_renames() {
    let m = measures();
    let f = full_fence();
    assert!(matches!(
        on_double_click(&f, 50, 10, &m),
        DoubleClick::Rename
    ));
    match on_double_click(&f, 93, 43, &m) {
        DoubleClick::Open(path) => assert_eq!(path, r"C:\box\1.txt"),
        _ => panic!("the entry opens"),
    }
    assert!(matches!(
        on_double_click(&f, 2, 100, &m),
        DoubleClick::Nothing
    ));
}

#[test]
fn another_display_keeps_the_place() {
    let m = measures();
    let mut f = full_fence();
    f.cfg.x = 77;
    assert!(!on_display_changed(&mut f, 96, &m));
    assert!(on_display_changed(&mut f, 192, &m));
    assert_eq!((f.cfg.w, f.cfg.h, f.cfg.dpi, f.dpi), (532, 452, 192, 192));
    assert_eq!(f.cfg.x, 77);
}

#[test]
fn entries_are_drawn_in_their_cells() {
    let m = measures();
    let f = full_fence();
    assert_eq!(
        cell_place(&f, &m, 4, 32),
        CellPlace {
            x: 88_000_000,
            y: 128_000_000,
            width: 80_000_000,
            icon_x: 112,
            icon_y: 128,
        }
    );
}

#[test]
fn the_dot_of_the_page_is_bright() {
    let m = measures();
    let f = full_fence();
    let dots = page_dots(&f, &m, 96);
    assert_eq!(
        dots,
        vec![
            Dot {
                x: 253_000_000,
                y: 120_500_000,
                radius: 4_500_000,
                alpha: 255,
                glow_alpha: Some(64),
            },
            Dot {
                x: 253_000_000,
                y: 135_500_000,
                radius: 2_500_000,
                alpha: 77,
                glow_alpha: None,
            },
        ]
    );
    assert!(page_dots(&fence(1, 11), &m, 96).is_empty());
}

#[test]
fn pages_turn_back_and_forth_to_be_measured() {
    let m = measures();
    let mut f = full_fence();
    assert!(!start_perf_animation(&mut f, false, 3, 0, &m));
    assert!(start_perf_animation(&mut f, true, 3, 0, &m));
    assert_eq!((f.model.page, f.perf_anim_remaining), (1, 2));
    assert!(f.animating);
    assert!(!step_page_anim(&mut f, &m, ANIM_DURATION));
    assert!(continue_perf_animation(&mut f, ANIM_DURATION));
    assert_eq!((f.model.page, f.perf_anim_remaining), (0, 1));
    assert!(continue_perf_animation(&mut f, 2 * ANIM_DURATION));
    assert!(!continue_perf_animation(&mut f, 3 * ANIM_DURATION));
}

#[test]
fn a_picked_line_is_checked_afterwards() {
    for item in opacity_items(700_000) {
        match fence_command(item.id) {
            FenceCommand::Opacity(value) => {
                let checked: Vec<u32> = opacity_items(value)
                    .iter()
                    .filter(|i| i.checked)
                    .map(|i| i.id)
                    .collect();
                assert_eq!(checked, vec![item.id]);
            }
            other => panic!("{other:?}"),
        }
    }
    for item in icon_items(32) {
        match fence_command(item.id) {
            FenceCommand::IconSize(size) => assert_eq!(item.label, format!("{size} px")),
            other => panic!("{other:?}"),
        }
    }
    for item in title_items(12) {
        match fence_command(item.id) {
            FenceCommand::TitleSize(size) => assert_eq!(item.label, format!("{size} px")),
            other => panic!("{other:?}"),
        }
    }
}

#[test]
fn the_grid_pulls_the_harder_the_nearer() {
    assert_eq!(magnet_smooth(80, 80, 0), 80);
    assert_eq!(magnet_smooth(70, 80, 0), 76);
    assert_eq!(magnet_smooth(30, 80, 0), 28);
    assert_eq!(magnet_smooth(40, 80, 0), 40);
    assert_eq!(magnet_smooth(70, 0, 0), 70);
    assert_eq!(magnet_size_smooth(110, 80, 40), 116);
}

#[test]
fn an_opacity_is_shown_as_the_nearest_preset() {
    assert_eq!(nearest_preset(1_000_000), 0);
    assert_eq!(nearest_preset(850_000), 0);
    assert_eq!(nearest_preset(849_999), 1);
    assert_eq!(nearest_preset(575_000), 1);
    assert_eq!(nearest_preset(450_000), 2);
    assert_eq!(nearest_preset(0), 3);
}

#[test]
fn a_faded_picture_is_multiplied_pixel_by_pixel() {
    let mut pixels = vec![0xFF80_4020, 0x80FF_0000, 0x00FF_FFFF];
    premultiply(&mut pixels, 128);
    assert_eq!(pixels, vec![0x8040_2010, 0x4040_0000, 0]);
}

#[test]
fn the_text_box_is_left_by_its_buttons() {
    assert_eq!(prompt_event(0x0111, 1), PromptEvent::Accept);
    assert_eq!(prompt_event(0x0111, 0x3_0001), PromptEvent::Accept);
    assert_eq!(prompt_event(0x0111, 2), PromptEvent::Cancel);
    assert_eq!(prompt_event(0x0111, 7), PromptEvent::Ignore);
    assert_eq!(prompt_event(0x0010, 1), PromptEvent::Cancel);
    assert_eq!(prompt_event(0x000F, 1), PromptEvent::Other);
}

/// Fences on a grid of cells of 10 pixels without a frame, at these places and of these sizes.
fn on_small_cells(rects: &[(i32, i32, i32, i32)]) -> (Vec<Fence>, Metrics) {
    let mut fences = Vec::new();
    for (i, &(x, y, w, h)) in rects.iter().enumerate() {
        let mut f = fence(i as u32 + 1, i as isize + 1);
        f.cfg.x = x;
        f.cfg.y = y;
        f.cfg.w = w;
        f.cfg.h = h;
        fences.push(f);
    }
    let m = Metrics {
        margin: 0,
        rail: 0,
        cell_w: 10,
        cell_h: 10,
        title_h: 0,
        edge: 0,
        min_w: 10,
        min_h: 10,
    };
    (fences, m)
}

fn settled_among(rects: &[(i32, i32, i32, i32)], size: i32) -> (i32, i32) {
    let (mut fences, m) = on_small_cells(rects);
    let area = Area {
        left: 0,
        top: 0,
        right: size,
        bottom: size,
    };
    settle_fence(&mut fences, 0, &m, &area);
    for (f, &(x, y, w, h)) in fences.iter().zip(rects).skip(1) {
        assert_eq!((f.cfg.x, f.cfg.y, f.cfg.w, f.cfg.h), (x, y, w, h));
    }
    let c = &fences[0].cfg;
    assert_eq!((c.w, c.h), (rects[0].2, rects[0].3));
    (c.x, c.y)
}

#[test]
fn a_fence_finds_the_only_free_slot() {
    let one = (0, 0, 10, 10);
    assert_eq!(
        settled_among(&[one, (0, 0, 20, 10), (0, 10, 10, 10)], 20),
        (10, 10)
    );
    assert_eq!(
        settled_among(&[one, (0, 0, 20, 10), (0, 10, 20, 10)], 20),
        (0, 0)
    );
    let far = [one, (0, 0, 1000, 990), (0, 990, 990, 10)];
    assert_eq!(settled_among(&far, 1000), (990, 990));
}

#[test]
fn a_fence_settles_on_the_nearest_free_slot() {
    let here = (50, 50, 10, 10);
    let cross = [here, (40, 50, 30, 10), (50, 40, 10, 30)];
    assert_eq!(settled_among(&cross, 100), (40, 40));
    let left_up_taken = [here, (40, 50, 30, 10), (50, 40, 10, 30), (40, 40, 10, 10)];
    assert_eq!(settled_among(&left_up_taken, 100), (60, 40));
}

#[test]
fn of_equally_near_slots_left_comes_first() {
    let here = (50, 50, 10, 10);
    assert_eq!(settled_among(&[here, here], 100), (40, 50));
    assert_eq!(
        settled_among(&[here, (40, 50, 20, 10)], 100),
        (60, 50)
    );
    assert_eq!(
        settled_among(&[here, (40, 50, 30, 10)], 100),
        (50, 40)
    );
    assert_eq!(
        settled_among(&[here, (40, 50, 30, 10), (50, 40, 10, 10)], 100),
        (50, 60)
    );
}

#[test]
fn the_parts_of_a_fence_grow_with_the_dpi() {
    let m = metrics_at(96, 32, 12);
    assert_eq!((m.margin, m.rail, m.edge), (12, 14, 8));
    assert_eq!((m.cell_w, m.cell_h, m.title_h), (76, 76, 28));
    assert_eq!((m.min_w, m.min_h), (114, 128));
    let double = metrics_at(192, 32, 12);
    assert_eq!((double.margin, double.cell_w, double.min_w), (24, 152, 228));
    let odd = metrics_at(120, 33, 13);
    assert_eq!((odd.rail, odd.cell_w, odd.title_h), (17, 96, 36));
    assert_eq!(metrics_at(0, 32, 12).cell_w, 76);
    assert_eq!(metrics_at(96, 5000, 5000).cell_w, 556);
    assert_eq!(metrics_at(96, 5000, 5000).title_h, 272);
    assert_eq!((icon_at(144, 32), icon_at(96, 0)), (48, 1));
    assert_eq!((label_height_at(144), label_font_at(144)), (54, 18));
    assert_eq!(title_font_at(144, 12), 18);
}
