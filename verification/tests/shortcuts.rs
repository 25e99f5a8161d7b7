use feather_fences::download::DownloadTracker;
use feather_fences::shortcut::{
    choose_collection, choose_collection_target, examine, ext_of, is_numbered_name,
    queue_new_shortcut_candidate, scan_collection, CollectionBox, CollectionStats, Fate, FileFacts,
    Listed, ShortcutDragoutState, ShortcutTracker, Verdict, DRAGOUT_EVENT_TAIL,
};
use feather_fences::tracking::{FileCandidate, PathSet, Pending};

fn stats(id: u32, shortcuts: u64, files: u64) -> CollectionStats {
    CollectionStats {
        id,
        shortcuts,
        files,
    }
}

#[test]
fn empty_box_wins_when_no_box_has_shortcuts() {
    let boxes = [stats(9, 0, 5), stats(4, 0, 0), stats(2, 0, 3)];

    assert_eq!(choose_collection(&boxes), Some(4));
}

#[test]
fn lowest_id_wins_when_no_box_has_shortcuts_or_is_empty() {
    let boxes = [stats(9, 0, 5), stats(2, 0, 3)];

    assert_eq!(choose_collection(&boxes), Some(2));
}

#[test]
fn highest_shortcut_ratio_wins() {
    let boxes = [stats(1, 3, 1), stats(2, 4, 2), stats(3, 0, 0)];

    assert_eq!(choose_collection(&boxes), Some(1));
}

#[test]
fn more_shortcuts_win_when_ratios_are_equal() {
    let boxes = [stats(1, 1, 1), stats(2, 3, 3)];

    assert_eq!(choose_collection(&boxes), Some(2));
}

#[test]
fn lowest_id_breaks_a_complete_tie() {
    let boxes = [stats(8, 3, 3), stats(2, 3, 3)];

    assert_eq!(choose_collection(&boxes), Some(2));
    assert_eq!(choose_collection(&[]), None);
}

#[test]
fn collection_scan_counts_files_only_and_matches_lnk_case_insensitively() {
    let entry = |path: &str, is_file: bool| Listed {
        path: path.to_string(),
        is_file,
    };
    let listing = vec![
        entry(r"C:\box\folder", false),
        entry(r"C:\box\app.LNK", true),
        entry(r"C:\box\notes.txt", true),
    ];

    let actual = scan_collection(7, &Some(listing));

    assert_eq!(actual, Some(stats(7, 1, 1)));
    assert_eq!(scan_collection(7, &None), None);
}

#[test]
fn the_chosen_box_gives_its_folder() {
    let boxes = vec![
        CollectionBox {
            stats: stats(1, 0, 5),
            dir: r"C:\one".to_string(),
        },
        CollectionBox {
            stats: stats(2, 2, 0),
            dir: r"C:\two".to_string(),
        },
    ];
    assert_eq!(
        choose_collection_target(&boxes),
        Some((2, r"C:\two".to_string()))
    );
    assert_eq!(choose_collection_target(&Vec::new()), None);
}

#[test]
fn duplicate_notifications_share_one_pending_candidate() {
    let mut seen = PathSet::new();
    let mut pending = Pending::new();
    let path = r"C:\Users\test\Desktop\App.lnk";

    queue_new_shortcut_candidate(&mut seen, &mut pending, path);
    queue_new_shortcut_candidate(&mut seen, &mut pending, path);
    queue_new_shortcut_candidate(
        &mut seen,
        &mut pending,
        r"C:\Users\test\Desktop\notes.txt",
    );

    assert_eq!(pending.len(), 1);
    assert_eq!(seen.len(), 1);
}

fn dragout_state() -> ShortcutDragoutState {
    ShortcutDragoutState {
        active: true,
        source_stem: "app".to_string(),
        desktop_dirs: vec![r"C:\Users\test\Desktop".to_string()],
        held: PathSet::new(),
        ignore_until: None,
    }
}

#[test]
fn dragout_state_accepts_only_lnk_source() {
    let dirs = || vec![r"C:\Users\test\Desktop".to_string()];
    assert!(ShortcutDragoutState::begin(r"C:\Fence\App.lnk", dirs()).is_some());
    assert!(ShortcutDragoutState::begin(r"C:\Fence\App.txt", dirs()).is_none());
}

#[test]
fn dragout_destination_matches_source_and_explorer_collision_name() {
    let now = 10_000u64;
    let mut state = dragout_state();
    state.ignore_until = Some(now + 1_000);

    assert!(state.should_suppress(r"C:\Users\TEST\Desktop\app.lnk", now));
    assert!(state.should_suppress(r"C:\Users\test\Desktop\App (2).lnk", now));
    assert!(!state.should_suppress(r"C:\Users\test\Desktop\Other.lnk", now));
    assert!(!state.should_suppress(r"C:\Users\test\Downloads\App.lnk", now));
}

#[test]
fn dragout_tail_expires_without_blocking_future_shortcuts() {
    let now = 10_000u64;
    let mut state = dragout_state();
    state.ignore_until = Some(now - 1_000);

    assert!(!state.should_suppress(r"C:\Users\test\Desktop\App.lnk", now));
}

#[test]
fn finish_replays_unrelated_held_notifications() {
    let mut state = dragout_state();
    state.hold(r"C:\Users\test\Desktop\Other.lnk");
    state.hold(r"C:\Users\test\Desktop\App.lnk");

    let held = state.finish(10_000);

    assert!(!state.active);
    assert_eq!(held.len(), 2);
    assert!(state.ignore_until.is_some());
    assert_eq!(state.ignore_until, Some(10_000 + DRAGOUT_EVENT_TAIL));
}

#[test]
fn a_running_drag_holds_back_and_then_lets_go() {
    let desktop = r"C:\Users\test\Desktop";
    let own = format!(r"{desktop}\App (3).lnk");
    let other = format!(r"{desktop}\Other.lnk");
    let mut t = ShortcutTracker::new(PathSet::new());
    assert!(t.begin_shortcut_dragout(r"C:\Fence\App.lnk", vec![desktop.to_string()]));
    t.ingest_shortcut_events(&vec![own.clone(), other.clone()], 100);
    assert_eq!(t.pending.len(), 0);
    t.finish_shortcut_dragout(200);
    assert!(!t.pending.contains(&own));
    assert!(t.pending.contains(&other));
    t.ingest_shortcut_events(&vec![own.clone()], 201);
    assert!(!t.pending.contains(&own));
    t.ingest_shortcut_events(&vec![own.clone()], 200 + DRAGOUT_EVENT_TAIL + 1);
    assert!(t.seen.contains(&own));
    assert!(!t.pending.contains(&own));
}

#[test]
fn a_file_is_ready_when_two_looks_find_it_unchanged() {
    let path = r"C:\Users\test\Desktop\App.lnk";
    let mut pending = Pending::new();
    pending.or_insert(path);
    let facts = |len: u64, time: i128| {
        Some(FileFacts {
            is_file: true,
            len,
            modified: Some(time),
        })
    };
    assert!(examine(&mut pending, path, true, facts(10, 1)) == Verdict::Wait);
    assert!(examine(&mut pending, path, true, facts(10, 1)) == Verdict::Wait);
    assert!(examine(&mut pending, path, true, facts(10, 1)) == Verdict::Ready);
    assert!(examine(&mut pending, path, true, facts(11, 1)) == Verdict::Wait);
    assert!(examine(&mut pending, path, true, None) == Verdict::Gone);
    assert!(examine(&mut pending, path, false, facts(11, 1)) == Verdict::Gone);
}

#[test]
fn a_candidate_counts_no_further_than_it_can() {
    let mut c = FileCandidate::new();
    for _ in 0..300 {
        c.look(5, None);
    }
    assert_eq!(c.stable_ticks, u8::MAX);
    assert!(c.look(5, None));
    assert!(!c.look(5, Some(1)));
}

#[test]
fn extensions_are_told_in_small_letters() {
    assert_eq!(ext_of(r"C:\a\B.TXT"), ".txt");
    assert_eq!(ext_of(r"C:\a\ÄÖ.ÄÖ"), ".äö");
    assert_eq!(ext_of(r"C:\a\plain"), "");
}

#[test]
fn numbered_names_are_told_from_others() {
    assert!(is_numbered_name("app (2)", "app"));
    assert!(!is_numbered_name("app (x)", "app"));
    assert!(!is_numbered_name("app ()", "app"));
    assert!(!is_numbered_name("apple (2)", "app"));
}

#[test]
fn gone_files_are_news_again() {
    let path = r"C:\Users\test\Desktop\App.lnk".to_string();
    let mut t = ShortcutTracker::new(PathSet::new());
    t.ingest_shortcut_events(&vec![path.clone()], 1);
    assert!(t.pending.contains(&path));
    t.settle(&vec![path.clone()], &PathSet::new());
    assert!(!t.pending.contains(&path));
    t.ingest_shortcut_events(&vec![path.clone(), path.clone()], 2);
    assert_eq!(t.pending.len(), 1);
}

#[test]
fn a_round_ends_with_what_still_waits() {
    let paths: Vec<String> = ["a", "b", "c", "d", "e"]
        .iter()
        .map(|n| format!(r"C:\Desktop\{n}.lnk"))
        .collect();
    let mut t = ShortcutTracker::new(PathSet::new());
    t.ingest_shortcut_events(&paths, 0);
    let fates = vec![
        Fate::Moved(4),
        Fate::Waiting,
        Fate::Gone,
        Fate::Failed,
        Fate::Moved(4),
    ];
    let mut there = PathSet::new();
    there.insert(&paths[1]);
    there.insert(&paths[3]);
    assert_eq!(t.finish_round(&paths, &fates, &there), vec![4]);
    assert_eq!(t.pending.len(), 2);
    assert!(t.pending.contains(&paths[1]) && t.pending.contains(&paths[3]));
    assert_eq!(t.seen.len(), 2);

    // A shortcut that no box takes is not asked for again.
    let left = vec![paths[1].clone()];
    assert!(t.finish_round(&left, &vec![Fate::Unwanted], &there).is_empty());
    assert!(!t.pending.contains(&paths[1]) && t.seen.contains(&paths[1]));
}

#[test]
fn the_box_is_read_again_where_something_settled() {
    let paths = vec![r"C:\d\a.zip".to_string(), r"C:\d\b.zip".to_string()];
    let mut t = DownloadTracker::new();
    for path in &paths {
        t.seen.insert(path);
        t.pending.insert(path);
    }
    assert!(!t.finish_round(&paths, &vec![Fate::Waiting, Fate::Failed]));
    assert_eq!((t.pending.len(), t.seen.len()), (2, 2));
    assert!(t.finish_round(&paths, &vec![Fate::Moved(1), Fate::Failed]));
    assert!(!t.pending.contains(&paths[0]) && !t.seen.contains(&paths[0]));
    assert!(t.pending.contains(&paths[1]) && t.seen.contains(&paths[1]));
}
