use feather_fences::config::FenceCfg;
use feather_fences::desktop::avoidance::{
    clear_history, icon_cell, nearest_free_cell, overlaps, packed_position, put_back_count,
    record_fence, record_icon, reserve, restore_autoarrange, rollback_icons, suspend_autoarrange,
    take_fence_history, History, Layout, ROLLBACK_TTL_SECS,
};
use feather_fences::desktop::drop_position::{
    centered_icon_position, desired_position, desktop_move_fast_path_allowed,
    desktop_name_was_absent, is_desktop_drop_point, is_direct_desktop_child, message_timeout,
    next_visible_step, same_or_descendant, should_save_view_state, target_may_be_taken,
    DesiredFacts, Presence, TargetFacts, VisibleStep, VisualLock, MAX_HOPS, RETRY_DELAY,
};
use feather_fences::desktop::host::{next_host_step, HostFacts, HostStep, InsertHostSearch};
use feather_fences::desktop::probe::{Answer, Ask, CellProbe};
use feather_fences::desktop_icons::{
    desired_drop_position, desktop_hit_test_timeout, desktop_roots, is_empty_desktop_drop_target,
    outcome_text, pointer_state_has_press,
    position_attempt_gate, position_timing, positioned, prepare_direct_drop_position,
    queue_file_at_drop_point, rejection_text,
    snapshot_desktop_name, DesktopNameState, DropFacts, DropGeneration, DropPositionOrigin,
    DropWorker, Now, Outcome, PositionAttemptGate, PrepareFacts, Rejection, Reply, Request, Warmup,
    WorkerSlots,
};
use feather_fences::geometry::{Area, Point};
use feather_fences::global::{toggle_avoidance, Avoidance, Global};

const MS: u64 = 1_000;

fn area(right: i32, bottom: i32) -> Area {
    Area {
        left: 0,
        top: 0,
        right,
        bottom,
    }
}

#[test]
fn descendant_check_rejects_invalid_handles() {
    assert!(!same_or_descendant(&vec![0], 0));
    assert!(!same_or_descendant(&Vec::new(), 0));
}

#[test]
fn descendants_are_found_among_their_parents() {
    assert!(same_or_descendant(&vec![5, 4, 3], 3));
    assert!(same_or_descendant(&vec![5], 5));
    assert!(!same_or_descendant(&vec![5, 4, 3], 9));
    let deep: Vec<isize> = (1..40).collect();
    assert!(!same_or_descendant(&deep, 39));
    assert!(MAX_HOPS < 39);
}

#[test]
fn drop_point_is_centered_and_clamped_inside_desktop() {
    let client = area(1920, 1080);
    assert_eq!(
        centered_icon_position(Point { x: 500, y: 400 }, &client, 100, 80),
        Point { x: 450, y: 360 }
    );
    assert_eq!(
        centered_icon_position(Point { x: 10, y: 10 }, &client, 100, 80),
        Point { x: 0, y: 0 }
    );
}

#[test]
fn release_point_centres_and_clamps_the_icon_cell() {
    let client = area(1000, 800);
    assert_eq!(
        centered_icon_position(Point { x: 500, y: 400 }, &client, 100, 80),
        Point { x: 450, y: 360 }
    );
    assert_eq!(
        centered_icon_position(Point { x: 5, y: 5 }, &client, 100, 80),
        Point { x: 0, y: 0 }
    );
    assert_eq!(
        centered_icon_position(Point { x: 995, y: 795 }, &client, 100, 80),
        Point { x: 900, y: 720 }
    );
    assert_eq!(
        centered_icon_position(Point { x: 500, y: 400 }, &client, -5, 0),
        Point { x: 502, y: 400 }
    );
}

#[test]
fn only_direct_desktop_children_trigger_view_save() {
    let roots = vec![r"C:\Users\Example\Desktop".to_string()];
    assert!(is_direct_desktop_child(
        r"c:\users\example\desktop\one.txt",
        &roots
    ));
    assert!(!is_direct_desktop_child(
        r"C:\Users\Example\Desktop\folder\nested.txt",
        &roots
    ));
    assert!(!is_direct_desktop_child(
        r"C:\Users\Example\Documents\one.txt",
        &roots
    ));
    assert!(should_save_view_state(
        &vec![
            r"D:\a.txt".to_string(),
            r"C:\Users\Example\Desktop\b.txt".to_string()
        ],
        &roots
    ));
    assert!(!should_save_view_state(
        &vec![r"D:\a.txt".to_string()],
        &roots
    ));
}

#[test]
fn insert_host_prefers_progman_and_keeps_the_first_worker_fallback() {
    let mut search = InsertHostSearch::default();
    assert!(search.observe(1, "WorkerW"));
    assert!(search.observe(2, "WorkerW"));
    assert_eq!(search.found, Some(1));

    assert!(!search.observe(3, "Progman"));
    assert_eq!(search.found, Some(3));
}

#[test]
fn a_missing_worker_is_asked_for_once() {
    let facts = HostFacts {
        progman: Some(1),
        worker: None,
        requested_before: false,
    };
    let step = next_host_step(HostStep::LookForWorker, facts);
    assert_eq!(step, HostStep::RequestWorker);
    let step = next_host_step(step, facts);
    assert_eq!(step, HostStep::LookAgain);
    let found = next_host_step(
        step,
        HostFacts {
            worker: Some(8),
            ..facts
        },
    );
    assert_eq!(found, HostStep::Found(8));
    let again = next_host_step(
        HostStep::LookForWorker,
        HostFacts {
            requested_before: true,
            ..facts
        },
    );
    assert!(again != HostStep::RequestWorker);
}

#[test]
fn deadline_is_strict_at_2000_milliseconds() {
    assert_eq!(
        position_attempt_gate(1999 * MS, false),
        PositionAttemptGate::Continue
    );
    assert_eq!(
        position_attempt_gate(2000 * MS, false),
        PositionAttemptGate::Expired
    );
}

#[test]
fn desktop_hit_test_has_a_bounded_message_timeout() {
    let now: u64 = 10_000 * MS;
    assert_eq!(desktop_hit_test_timeout(now - MS, now), None);
    assert!(desktop_hit_test_timeout(now + 1_000 * MS, now)
        .is_some_and(|timeout| (1..=50).contains(&timeout)));
}

#[test]
fn new_input_cancels_before_the_write() {
    assert_eq!(
        position_attempt_gate(100 * MS, true),
        PositionAttemptGate::Cancelled
    );
}

#[test]
fn direct_move_does_not_wait_at_the_default_desktop_position() {
    let (direct_settle, direct_retry) = position_timing(DropPositionOrigin::DirectMove);
    let (explorer_settle, explorer_retry) = position_timing(DropPositionOrigin::ExplorerDrop);

    assert_eq!(direct_settle, 0);
    assert_eq!(direct_retry, 8 * MS);
    assert_eq!(explorer_settle, 330 * MS);
    assert_eq!(explorer_retry, 30 * MS);
}

#[test]
fn pointer_press_gate_accepts_current_or_completed_clicks() {
    assert!(!pointer_state_has_press(0));
    assert!(pointer_state_has_press(0x8000));
    assert!(pointer_state_has_press(0x0001));
    assert!(pointer_state_has_press(0x8001));
}

#[test]
fn icons_make_room_by_the_shortest_way() {
    let l = Layout {
        reserved: vec![Area {
            left: 0,
            top: 0,
            right: 150,
            bottom: 150,
        }],
        cell_w: 100,
        cell_h: 100,
        client: area(1000, 1000),
    };
    let mut icons = vec![Point { x: 100, y: 0 }, Point { x: 500, y: 500 }];
    assert_eq!(
        nearest_free_cell(&l, &icons, 0),
        Some(Point { x: 200, y: 0 })
    );
    let moves = reserve(&l, &mut icons);
    assert_eq!(moves.len(), 1);
    assert_eq!(moves[0].index, 0);
    assert_eq!(icons[0], Point { x: 200, y: 0 });
    assert_eq!(icons[1], Point { x: 500, y: 500 });
    assert!(reserve(&l, &mut icons).is_empty());
    assert!(overlaps(&area(10, 10), &area(5, 5)));
    assert!(!overlaps(
        &area(10, 10),
        &Area {
            left: 10,
            top: 0,
            right: 20,
            bottom: 10
        }
    ));
}

#[test]
fn packed_numbers_hold_two_words() {
    assert_eq!(icon_cell(0x0064_0050), (80, 100));
    assert_eq!(icon_cell(0x0001_0001), (48, 48));
    assert_eq!(packed_position(Point { x: 3, y: 2 }), 0x0002_0003);
    assert_eq!(packed_position(Point { x: -1, y: 0 }), 0x0000_FFFF);
}

#[test]
fn what_moved_can_be_undone_for_a_minute() {
    let cfg = |x: i32| FenceCfg {
        id: 5,
        x,
        ..FenceCfg::default()
    };
    let mut h = History::new();
    record_fence(&mut h, &cfg(1), 100);
    record_fence(&mut h, &cfg(2), 110);
    record_icon(&mut h, 7, Point { x: 1, y: 2 }, 100);
    record_icon(&mut h, 7, Point { x: 9, y: 9 }, 101);
    let icons = rollback_icons(&mut h, 100 + ROLLBACK_TTL_SECS - 1);
    assert_eq!(icons.len(), 1);
    assert_eq!(icons[0].from, Point { x: 1, y: 2 });
    assert_eq!(put_back_count(&vec![true, false, true]), 2);
    assert_eq!(put_back_count(&Vec::new()), 0);
    let fences = take_fence_history(&mut h, 120);
    assert_eq!(fences.len(), 1);
    assert_eq!(fences[0].cfg.x, 1);
    assert!(take_fence_history(&mut h, 120).is_empty());

    record_fence(&mut h, &cfg(1), 100);
    assert!(take_fence_history(&mut h, 100 + ROLLBACK_TTL_SECS).is_empty());
    record_fence(&mut h, &cfg(1), 100);
    record_icon(&mut h, 1, Point { x: 0, y: 0 }, 100);
    clear_history(&mut h);
    assert!(rollback_icons(&mut h, 100).is_empty());
    assert!(take_fence_history(&mut h, 100).is_empty());
}

#[test]
fn arranging_comes_back_only_where_it_was() {
    let mut h = History::new();
    assert!(!suspend_autoarrange(&mut h, false));
    assert!(!restore_autoarrange(&mut h, false));
    assert!(suspend_autoarrange(&mut h, true));
    assert!(!suspend_autoarrange(&mut h, false));
    assert!(restore_autoarrange(&mut h, false));
    assert!(!restore_autoarrange(&mut h, false));

    let mut g = Global {
        config: Default::default(),
        next_id: 1,
        fences: Vec::new(),
        zen: false,
        watchers: Vec::new(),
    };
    assert_eq!(toggle_avoidance(&mut g, &mut h, true), Avoidance::On);
    suspend_autoarrange(&mut h, true);
    record_icon(&mut h, 1, Point { x: 0, y: 0 }, 0);
    assert_eq!(
        toggle_avoidance(&mut g, &mut h, false),
        Avoidance::Off { switch_on: true }
    );
    assert!(!g.config.desktop_avoid);
    assert!(h.icons.is_empty());
}

#[test]
fn a_lock_is_let_go_once() {
    let mut lock = VisualLock::new();
    let first = lock.begin(11);
    assert_eq!(lock.finish(first), Some(11));
    assert_eq!(lock.finish(first), None);
    let second = lock.begin(12);
    let third = lock.begin(13);
    assert_eq!(lock.finish(second), None);
    assert_eq!(lock.finish(third), Some(13));
}

/// Looks at a desktop with these icons, each answer in time.
fn looked_at(at: Point, icons: &[Point]) -> bool {
    let mut probe = CellProbe::new(Some(at), Some(area(1000, 800)));
    loop {
        match probe.ask(Some(50)) {
            Ask::Count { patience } => {
                assert_eq!(patience, 50);
                probe.hear(Answer::Number(icons.len()));
            }
            Ask::Spacing { .. } => probe.hear(Answer::Number(0x0064_0064)),
            Ask::Memory => probe.hear(Answer::Granted),
            Ask::Position { index, .. } => probe.hear(Answer::At(icons[index as usize])),
            Ask::Done { free } => return free,
        }
    }
}

#[test]
fn an_occupied_cell_is_not_empty() {
    let icons = [Point { x: 100, y: 100 }, Point { x: 300, y: 100 }];
    assert!(!looked_at(Point { x: 120, y: 120 }, &icons));
    assert!(!looked_at(Point { x: 399, y: 199 }, &icons));
    assert!(looked_at(Point { x: 400, y: 199 }, &icons));
    assert!(looked_at(Point { x: 700, y: 500 }, &icons));
    assert!(looked_at(Point { x: 700, y: 500 }, &[]));
    assert!(!looked_at(Point { x: 1000, y: 500 }, &[]));
}

#[test]
fn what_is_not_told_in_time_leaves_the_place_taken() {
    let at = Point { x: 700, y: 500 };
    let begin = || CellProbe::new(Some(at), Some(area(1000, 800)));

    let mut probe = begin();
    assert_eq!(probe.ask(None), Ask::Done { free: false });

    let mut probe = begin();
    probe.ask(Some(1));
    probe.hear(Answer::Silence);
    assert_eq!(probe.ask(Some(1)), Ask::Done { free: false });

    let mut probe = begin();
    probe.hear(Answer::Number(2));
    probe.hear(Answer::Number(0));
    probe.hear(Answer::Granted);
    assert_eq!(
        probe.ask(Some(7)),
        Ask::Position {
            index: 0,
            patience: 7
        }
    );
    probe.hear(Answer::At(Point { x: 0, y: 0 }));
    assert_eq!(probe.ask(None), Ask::Done { free: false });

    let mut nowhere = CellProbe::new(None, Some(area(1000, 800)));
    assert_eq!(nowhere.ask(Some(1)), Ask::Done { free: false });
}

#[test]
fn a_dropped_icon_is_placed_where_all_is_known() {
    let known = DesiredFacts {
        autoarrange: false,
        point: Some(Point { x: 500, y: 400 }),
        client: Some(area(1000, 800)),
        spacing: Some(0x0064_0050),
    };
    assert_eq!(desired_position(known), Some(Point { x: 460, y: 350 }));
    let told = |f: DesiredFacts| match desired_drop_position(f) {
        Ok(_) => panic!("nothing is desired"),
        Err(e) => e,
    };
    assert_eq!(desired_drop_position(known), Ok(Point { x: 460, y: 350 }));
    assert_eq!(
        told(DesiredFacts {
            autoarrange: true,
            ..known
        }),
        "auto_arrange"
    );
    assert_eq!(
        told(DesiredFacts {
            point: None,
            ..known
        }),
        "screen_to_client_failed"
    );
    assert_eq!(
        told(DesiredFacts {
            client: None,
            ..known
        }),
        "client_rect_failed"
    );
    assert_eq!(
        told(DesiredFacts {
            spacing: None,
            ..known
        }),
        "item_spacing_timeout"
    );
    assert_eq!(
        desired_position(DesiredFacts {
            spacing: None,
            ..known
        }),
        None
    );
}

#[test]
fn the_desktop_is_found_under_a_point() {
    assert!(is_desktop_drop_point(Some(3), &vec![1, 2, 3, 4]));
    assert!(!is_desktop_drop_point(Some(5), &vec![1, 2, 3, 4]));
    assert!(!is_desktop_drop_point(None, &vec![1]));

    let facts = TargetFacts {
        target: 1,
        list: Some(2),
        list_in_target: true,
        autoarrange: false,
    };
    assert!(is_empty_desktop_drop_target(true, facts, true));
    assert!(!is_empty_desktop_drop_target(false, facts, true));
    assert!(!is_empty_desktop_drop_target(true, facts, false));
}

#[test]
fn a_fast_move_needs_a_known_desktop_on_one_volume() {
    let v = |s: &str| Some(s.to_string());
    assert!(desktop_move_fast_path_allowed(true, true, &v("v"), &v("V")));
    assert!(!desktop_move_fast_path_allowed(false, true, &v("v"), &v("V")));
    assert!(!desktop_move_fast_path_allowed(true, false, &v("v"), &v("V")));
    assert!(!desktop_move_fast_path_allowed(true, true, &v("v"), &v("w")));
    assert!(desktop_name_was_absent(
        r"C:\f\a.txt",
        Some(Presence::NotFound),
        Some(Presence::NotFound)
    ));
    assert!(!desktop_name_was_absent(
        r"C:\f\a.txt",
        Some(Presence::Found),
        Some(Presence::NotFound)
    ));
    assert!(!target_may_be_taken(TargetFacts {
        target: 1,
        list: Some(2),
        list_in_target: true,
        autoarrange: true
    }));
    assert!(target_may_be_taken(TargetFacts {
        target: 1,
        list: Some(2),
        list_in_target: true,
        autoarrange: false
    }));
}

#[test]
fn a_new_icon_is_waited_for_within_bounds() {
    assert_eq!(
        next_visible_step(0, 100, true, false, true),
        VisibleStep::Look
    );
    assert_eq!(
        next_visible_step(0, 100, false, false, true),
        VisibleStep::GiveUp
    );
    assert_eq!(
        next_visible_step(0, 100, true, true, true),
        VisibleStep::GiveUp
    );
    assert_eq!(
        next_visible_step(100, 100, true, false, true),
        VisibleStep::TimedOut
    );
    assert_eq!(message_timeout(100, 200), None);
    assert!(message_timeout(1_000, 0).is_some());
    assert!(RETRY_DELAY > 0);
}

#[test]
fn names_are_looked_for_on_both_desktops() {
    let roots = desktop_roots(
        &Some(r"C:\Users\a\Desktop".to_string()),
        &Some(r"C:\Users\Public\Desktop".to_string()),
    );
    assert_eq!(roots.map(|r| r.len()), Some(2));
    assert_eq!(desktop_roots(&None, &Some("x".to_string())), None);
    let state = |found: Vec<Presence>| snapshot_desktop_name(r"C:\f\a.txt", &Some(found));
    assert!(
        state(vec![Presence::NotFound, Presence::NotFound]) == DesktopNameState::Absent
    );
    assert!(state(vec![Presence::NotFound, Presence::Found]) == DesktopNameState::Present);
    assert!(state(vec![Presence::NotFound, Presence::Failed]) == DesktopNameState::Unknown);
    assert!(snapshot_desktop_name(r"C:\f\a.txt", &None) == DesktopNameState::Unknown);
}

#[test]
fn a_newer_drop_supersedes_an_older_one() {
    let mut g = DropGeneration::new();
    let first = g.next_drop_generation();
    assert_eq!(g.current_drop_generation(), first);
    let second = g.next_drop_generation();
    assert!(second != first);
    g.cancel_pending_drop_position();
    assert!(g.current_drop_generation() != second);

    let mut w = DropWorker::new(first, DropPositionOrigin::DirectMove, 7, 0);
    let now = Now {
        time: MS,
        generation: second,
        pressed: false,
    };
    assert!(matches!(
        w.step(now, Reply::Rested),
        Request::End(Outcome::Superseded)
    ));
    assert!(matches!(
        w.step(now, Reply::Rested),
        Request::End(_)
    ));
    assert!(!positioned(Outcome::Superseded));
    assert!(positioned(Outcome::Positioned));
    assert!(outcome_text(Outcome::Positioned) != outcome_text(Outcome::Failed));
}

#[test]
fn workers_are_few() {
    let mut slots = WorkerSlots::new();
    assert!(slots.take_slot(0, 1, 1).is_none());
    assert!(slots.take_slot(0, 1, 1).is_none());
    assert!(slots.take_slot(0, 1, 1).is_some());
    slots.release();
    assert!(slots.take_slot(0x8000, 1, 1).is_some());
    assert!(slots.take_slot(0, 1, 2).is_some());
    assert!(slots.take_slot(0, 1, 1).is_none());
    assert!(rejection_text(Rejection::WorkerLimit) != rejection_text(Rejection::NotOnDesktop));
}

#[test]
fn only_a_new_name_on_the_desktop_is_placed() {
    let facts = |state: DesktopNameState, list: Option<isize>| DropFacts {
        source: r"C:\f\a.txt".to_string(),
        name_state: state,
        released_at: 0,
        now: MS,
        list,
        on_desktop: true,
        origin: DropPositionOrigin::ExplorerDrop,
    };
    let ticket = queue_file_at_drop_point(&facts(DesktopNameState::Absent, Some(3)));
    assert!(ticket.is_ok_and(|t| t.list == 3 && t.label == "a.txt"));
    assert!(matches!(
        queue_file_at_drop_point(&facts(DesktopNameState::Present, Some(3))),
        Err(Rejection::NamePreexisting)
    ));
    assert!(matches!(
        queue_file_at_drop_point(&facts(DesktopNameState::Absent, None)),
        Err(Rejection::ListMissing)
    ));
}

#[test]
fn a_list_is_warmed_up_once() {
    let mut w = Warmup::new();
    assert!(w.begin(Some(4)));
    assert!(!w.begin(Some(4)));
    w.finish(4, true, Some(4));
    assert!(w.direct_drop_positioner_ready(Some(4)));
    assert!(!w.direct_drop_positioner_ready(Some(5)));
    assert!(!w.begin(Some(4)));
}

fn prepare_facts() -> PrepareFacts {
    PrepareFacts {
        destination: r"C:\Desktop\a.txt".to_string(),
        released_at: 1_000,
        now: 1_001,
        list: Some(5),
        ready_list: 5,
        desired: Ok(Point { x: 3, y: 4 }),
        button: 0,
    }
}

#[test]
fn a_place_is_prepared_only_where_all_is_known() {
    match prepare_direct_drop_position(&prepare_facts()) {
        Ok(p) => assert_eq!((p.label.as_str(), p.list, p.desired.x), ("a.txt", 5, 3)),
        Err(e) => panic!("{e}"),
    }
    let refused = |f: PrepareFacts| match prepare_direct_drop_position(&f) {
        Ok(_) => panic!("nothing is prepared"),
        Err(e) => e,
    };
    assert_eq!(
        refused(PrepareFacts {
            now: u64::MAX,
            ..prepare_facts()
        }),
        "desktop release expired before positioning was prepared"
    );
    assert_eq!(
        refused(PrepareFacts {
            list: None,
            ..prepare_facts()
        }),
        "desktop list view is unavailable"
    );
    assert_eq!(
        refused(PrepareFacts {
            ready_list: 6,
            ..prepare_facts()
        }),
        "desktop positioner is not ready for the current view"
    );
    assert_eq!(
        refused(PrepareFacts {
            desired: Err("no view".to_string()),
            ..prepare_facts()
        }),
        "desktop drop geometry is unavailable: no view"
    );
    assert_eq!(
        refused(PrepareFacts {
            button: 0x8000,
            ..prepare_facts()
        }),
        "new pointer interaction started before positioning"
    );
}
