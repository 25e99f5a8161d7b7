use feather_fences::dragout::{self, DesktopTransferMode};
use feather_fences::geometry::Point;
use feather_fences::transfer::drag_source::{
    self, desktop_move_fast_path_modifiers_allowed, effect_name, DragFacts, DragStep, Given,
    ShellFormats, DROPEFFECT_COPY, DROPEFFECT_MOVE, DROPEFFECT_NONE, MK_CONTROL, MK_LBUTTON,
    MK_SHIFT,
};
use feather_fences::transfer::drop_target::{
    first_path_source, item_offsets, next_path_source, pick_effect, reported_effect,
    FenceDropTarget, PathSource,
};
use feather_fences::transfer::file_ops::{
    transfer_name, unique_dest, CopyJob, CopyOutcome, CopyStage, MoveJob, MoveStage, SourceKind,
    StepOutcome,
};
use feather_fences::transfer::formats::{
    build_hdrop, build_shell_offsets, contents_format, hdrop_format, CF_HDROP,
};

const PERFORMED: u16 = 0xC0DE;
const FORMATS: ShellFormats = ShellFormats {
    performed: PERFORMED,
    offsets: 0xC0FE,
};

#[test]
fn dragout_advertises_file_paths_and_performed_effect_feedback() {
    let paths = hdrop_format();

    assert!(dragout::is_supported_get_format(&paths));
    assert!(dragout::format_at(1, 0, PERFORMED).is_some());
    assert!(dragout::format_at(1, 1, PERFORMED).is_none());

    let performed = contents_format(PERFORMED);
    assert!(dragout::is_supported_set_format(&performed, PERFORMED));
    assert!(dragout::format_at(2, 0, PERFORMED).is_some());
    assert!(dragout::format_at(2, 1, PERFORMED).is_none());
}

#[test]
fn outgoing_get_formats_leave_effect_choice_to_drop_target() {
    assert_eq!(dragout::format_count(1), 1);
    assert_eq!(dragout::format_at(1, 0, PERFORMED).unwrap().cf, CF_HDROP);
    assert!(dragout::format_at(1, 1, PERFORMED).is_none());
}

#[test]
fn dragout_explorer_performed_copy_overrides_the_ole_fallback() {
    assert_eq!(
        dragout::final_drop_effect(DROPEFFECT_MOVE, Some(DROPEFFECT_COPY)),
        DROPEFFECT_COPY
    );
}

#[test]
fn unreported_effect_uses_the_ole_result() {
    assert_eq!(
        dragout::final_drop_effect(DROPEFFECT_MOVE, None),
        DROPEFFECT_MOVE
    );
}

#[test]
fn explicit_none_means_the_target_completed_an_optimized_move() {
    assert_eq!(
        dragout::final_drop_effect(DROPEFFECT_COPY, Some(DROPEFFECT_NONE)),
        DROPEFFECT_MOVE
    );
}

#[test]
fn explicit_move_overrides_the_ole_fallback() {
    assert_eq!(
        dragout::final_drop_effect(DROPEFFECT_COPY, Some(DROPEFFECT_MOVE)),
        DROPEFFECT_MOVE
    );
}

#[test]
fn desktop_default_requires_matching_real_volume_names() {
    assert_eq!(
        dragout::desktop_mode_for_volume_names(
            Some(r"\\?\Volume{same}\"),
            Some(r"\\?\volume{SAME}\")
        ),
        DesktopTransferMode::Move
    );
    assert_eq!(
        dragout::desktop_mode_for_volume_names(
            Some(r"\\?\Volume{one}\"),
            Some(r"\\?\Volume{two}\")
        ),
        DesktopTransferMode::Copy
    );
    assert_eq!(
        dragout::desktop_mode_for_volume_names(None, Some(r"\\?\Volume{two}\")),
        DesktopTransferMode::Copy
    );
}

#[test]
fn an_unknown_desktop_makes_a_copy() {
    assert_eq!(
        dragout::default_desktop_mode(true, Some("v"), Some("V")),
        DesktopTransferMode::Move
    );
    assert_eq!(
        dragout::default_desktop_mode(false, Some("v"), Some("V")),
        DesktopTransferMode::Copy
    );
}

#[test]
fn desktop_direct_move_accepts_only_plain_or_shift_drop() {
    assert!(dragout::direct_move_modifiers_allowed(0));
    assert!(dragout::direct_move_modifiers_allowed(MK_SHIFT));
    assert!(!dragout::direct_move_modifiers_allowed(MK_CONTROL));
    assert!(!dragout::direct_move_modifiers_allowed(0x20)); // MK_ALT
    assert!(!dragout::direct_move_modifiers_allowed(
        MK_CONTROL | MK_SHIFT
    ));
}

#[test]
fn desktop_fast_path_only_accepts_one_safe_same_volume_item() {
    assert!(dragout::desktop_fast_path_gate(
        1,
        true,
        DesktopTransferMode::Move,
        true
    ));
    assert!(!dragout::desktop_fast_path_gate(
        2,
        true,
        DesktopTransferMode::Move,
        true
    ));
    assert!(!dragout::desktop_fast_path_gate(
        1,
        true,
        DesktopTransferMode::Copy,
        true
    ));
    assert!(!dragout::desktop_fast_path_gate(
        1,
        true,
        DesktopTransferMode::Move,
        false
    ));
}

#[test]
fn a_drag_that_is_taken_over_ends_without_explorer() {
    assert_eq!(
        dragout::query_continue_drag(true, 0, true, true),
        dragout::DragStep::Cancel
    );
    assert_eq!(
        dragout::query_continue_drag(false, MK_LBUTTON, true, true),
        dragout::DragStep::Continue
    );
    assert_eq!(
        dragout::query_continue_drag(false, MK_SHIFT, true, true),
        dragout::DragStep::TakeOver
    );
    assert_eq!(
        dragout::query_continue_drag(false, MK_CONTROL, true, true),
        dragout::DragStep::Drop
    );
    assert_eq!(
        dragout::query_continue_drag(false, 0, false, true),
        dragout::DragStep::Drop
    );
    assert_eq!(
        dragout::query_continue_drag(false, 0, true, false),
        dragout::DragStep::Drop
    );
    assert_eq!(
        dragout::drag_result_effect(true, DROPEFFECT_NONE, None),
        DROPEFFECT_MOVE
    );
    assert_eq!(
        dragout::drag_result_effect(false, DROPEFFECT_NONE, None),
        DROPEFFECT_NONE
    );
}

#[test]
fn drag_source_advertises_file_paths_and_performed_effect_feedback() {
    let paths = hdrop_format();

    assert!(drag_source::is_supported_get_format(&paths, FORMATS));
    assert!(drag_source::format_at(1, 0, FORMATS).is_some());
    let offsets = contents_format(FORMATS.offsets);
    assert!(drag_source::is_supported_get_format(&offsets, FORMATS));
    assert_eq!(
        drag_source::format_at(1, 1, FORMATS).unwrap().cf,
        offsets.cf
    );
    assert!(drag_source::format_at(1, 2, FORMATS).is_none());

    let performed = contents_format(FORMATS.performed);
    assert!(drag_source::is_supported_set_format(&performed, FORMATS));
    assert!(drag_source::format_at(2, 0, FORMATS).is_some());
    assert!(drag_source::format_at(2, 1, FORMATS).is_none());
}

#[test]
fn outgoing_get_formats_include_shell_object_positions() {
    assert_eq!(drag_source::format_count(1), 2);
    assert_eq!(
        drag_source::format_at(1, 0, FORMATS).unwrap().cf,
        CF_HDROP
    );
    assert_eq!(
        drag_source::format_at(1, 1, FORMATS).unwrap().cf,
        FORMATS.offsets
    );
    assert!(drag_source::format_at(1, 2, FORMATS).is_none());
}

fn word(block: &[u8], at: usize) -> i32 {
    i32::from_le_bytes([block[at], block[at + 1], block[at + 2], block[at + 3]])
}

#[test]
fn hdrop_contains_the_real_screen_drop_point() {
    let point = Point { x: 1234, y: 567 };
    let paths = vec![r"C:\fence\one.txt".to_string()];
    let block = build_hdrop(&paths, point, true);
    assert_eq!(word(&block, 0), 20);
    assert_eq!((word(&block, 4), word(&block, 8)), (1234, 567));
    assert_eq!(word(&block, 12), 1);
    assert_eq!(word(&block, 16), 1);
}

#[test]
fn a_list_of_files_holds_every_path() {
    let paths = vec!["C:\\a".to_string(), "😀".to_string()];
    let block = build_hdrop(&paths, Point { x: -1, y: -2 }, false);
    assert_eq!((word(&block, 4), word(&block, 8)), (-1, -2));
    assert_eq!(word(&block, 12), 0);
    let units: Vec<u16> = block[20..]
        .chunks(2)
        .map(|c| u16::from_le_bytes([c[0], c[1]]))
        .collect();
    let mut expected: Vec<u16> = "C:\\a".encode_utf16().collect();
    expected.push(0);
    expected.extend("😀".encode_utf16());
    expected.push(0);
    expected.push(0);
    assert_eq!(units, expected);
}

#[test]
fn shell_offsets_start_with_group_origin_and_keep_item_relative() {
    let origin = Point { x: 900, y: 400 };
    let block = build_shell_offsets(1, origin).unwrap();
    assert_eq!((word(&block, 0), word(&block, 4)), (900, 400));
    assert_eq!((word(&block, 8), word(&block, 12)), (0, 0));
    assert_eq!(block.len(), 16);
    assert!(build_shell_offsets(0, origin).is_none());
}

#[test]
fn a_drag_gives_what_it_offers() {
    let paths = vec!["C:\\a".to_string()];
    let point = Point { x: 3, y: 4 };
    assert!(matches!(
        drag_source::get_data(&hdrop_format(), FORMATS, &paths, point),
        Given::Files(_)
    ));
    assert!(matches!(
        drag_source::get_data(&contents_format(FORMATS.offsets), FORMATS, &paths, point),
        Given::Offsets(_)
    ));
    assert!(matches!(
        drag_source::get_data(
            &contents_format(FORMATS.offsets),
            FORMATS,
            &Vec::new(),
            point
        ),
        Given::Nothing
    ));
    assert!(matches!(
        drag_source::get_data(&contents_format(1), FORMATS, &paths, point),
        Given::Unsupported
    ));
    let mut other = hdrop_format();
    other.tymed = 2;
    assert!(dragout::get_data(&other, &paths).is_none());
    other.tymed = 3;
    assert!(dragout::get_data(&other, &paths).is_some());
    other.lindex = 0;
    assert!(dragout::get_data(&other, &paths).is_none());
}

#[test]
fn formats_are_told_one_after_the_other() {
    let mut e = drag_source::enum_formats(1, FORMATS).unwrap();
    let (first, all) = e.next(1);
    assert_eq!((first.len(), all), (1, true));
    assert_eq!(first[0].cf, CF_HDROP);
    let mut copy = e.duplicate();
    let (rest, all) = e.next(5);
    assert_eq!((rest.len(), all), (1, false));
    assert_eq!(rest[0].cf, FORMATS.offsets);
    assert_eq!(e.next(1).0.len(), 0);
    assert!(copy.skip(1));
    assert!(!copy.skip(1));
    copy.reset();
    assert!(copy.skip(2));
    assert!(copy.next(0).1);
    assert!(drag_source::enum_formats(3, FORMATS).is_none());
    assert_eq!(
        dragout::enum_formats(2, PERFORMED).unwrap().next(9).0[0].cf,
        PERFORMED
    );
}

#[test]
fn drag_source_explorer_performed_copy_overrides_the_ole_fallback() {
    assert_eq!(
        drag_source::final_drop_effect(DROPEFFECT_MOVE, DROPEFFECT_COPY),
        DROPEFFECT_COPY
    );
    assert_eq!(
        drag_source::final_drop_effect(DROPEFFECT_MOVE, DROPEFFECT_NONE),
        DROPEFFECT_MOVE
    );
}

#[test]
fn desktop_move_fast_path_keeps_ctrl_on_the_normal_explorer_path() {
    assert!(desktop_move_fast_path_modifiers_allowed(0));
    assert!(desktop_move_fast_path_modifiers_allowed(MK_SHIFT));
    assert!(!desktop_move_fast_path_modifiers_allowed(MK_CONTROL));
    assert!(!desktop_move_fast_path_modifiers_allowed(
        MK_CONTROL | MK_SHIFT
    ));
}

#[test]
fn a_drop_on_an_empty_place_defers_the_refresh() {
    let facts = DragFacts {
        escape: false,
        keys: 0,
        point_known: true,
        fast_path_allowed: true,
        empty_desktop: true,
    };
    assert_eq!(
        drag_source::query_continue_drag(facts),
        DragStep::DropOnDesktop
    );
    assert_eq!(
        drag_source::query_continue_drag(DragFacts {
            point_known: false,
            ..facts
        }),
        DragStep::Drop
    );
    assert_eq!(
        drag_source::query_continue_drag(DragFacts {
            keys: MK_LBUTTON,
            ..facts
        }),
        DragStep::Continue
    );
    assert_eq!(
        drag_source::query_continue_drag(DragFacts {
            escape: true,
            ..facts
        }),
        DragStep::Cancel
    );
    assert_eq!(effect_name(DROPEFFECT_COPY), "copy");
    assert_eq!(effect_name(DROPEFFECT_MOVE), "move");
    assert_eq!(effect_name(DROPEFFECT_NONE), "none");
}

#[test]
fn ctrl_prefers_copy_and_plain_drag_prefers_move() {
    let both = DROPEFFECT_COPY | DROPEFFECT_MOVE;

    assert_eq!(pick_effect(both, MK_CONTROL), DROPEFFECT_COPY);
    assert_eq!(pick_effect(both, 0), DROPEFFECT_MOVE);
}

#[test]
fn requested_effect_never_exceeds_source_permissions() {
    assert_eq!(pick_effect(DROPEFFECT_MOVE, MK_CONTROL), DROPEFFECT_MOVE);
    assert_eq!(pick_effect(DROPEFFECT_COPY, 0), DROPEFFECT_COPY);
    assert_eq!(pick_effect(4, MK_CONTROL), DROPEFFECT_NONE);
}

#[test]
fn a_fence_takes_only_what_has_paths() {
    let both = DROPEFFECT_COPY | DROPEFFECT_MOVE;
    let mut t = FenceDropTarget::new();
    assert_eq!(t.drag_over(both, 0), DROPEFFECT_NONE);
    assert_eq!(t.drag_enter(true, both, 0), DROPEFFECT_MOVE);
    assert_eq!(t.drag_over(both, MK_CONTROL), DROPEFFECT_COPY);
    t.drag_leave();
    assert_eq!(t.drag_over(both, 0), DROPEFFECT_NONE);
    assert_eq!(t.drag_enter(false, both, 0), DROPEFFECT_NONE);
    assert_eq!(t.drop_effect(0, both, 0), DROPEFFECT_NONE);
    assert_eq!(t.drop_effect(1, both, 0), DROPEFFECT_MOVE);
    assert_eq!(reported_effect(DROPEFFECT_MOVE, true), DROPEFFECT_MOVE);
    assert_eq!(reported_effect(DROPEFFECT_MOVE, false), DROPEFFECT_NONE);
    assert_eq!(first_path_source(true, true), PathSource::FileList);
    assert_eq!(first_path_source(false, true), PathSource::ItemList);
    assert_eq!(
        next_path_source(PathSource::FileList, 0, true),
        PathSource::ItemList
    );
    assert_eq!(
        next_path_source(PathSource::FileList, 2, true),
        PathSource::Nowhere
    );
}

#[test]
fn item_lists_are_read_within_their_bounds() {
    let mut block: Vec<u8> = Vec::new();
    for n in [2u32, 16, 40, 300] {
        block.extend_from_slice(&n.to_le_bytes());
    }
    let o = item_offsets(&block).unwrap();
    assert_eq!(o.parent, 16);
    assert_eq!(o.children, vec![40, 300]);
    assert!(item_offsets(&block[..15]).is_none());
    assert!(item_offsets(&[]).is_none());
    assert!(item_offsets(&[0, 0, 0, 0]).is_none());
}

// ---------- names ----------

#[test]
fn taken_names_get_a_number() {
    let taken = vec![r"C:\d\a.txt".to_string(), r"C:\d\a (1).txt".to_string()];
    let dest = unique_dest(r"C:\d", "a.txt", |p: &String| !taken.contains(p), 77);
    assert_eq!(dest, r"C:\d\a (2).txt");
    let dest = unique_dest(r"C:\d", "b", |p: &String| !taken.contains(p), 77);
    assert_eq!(dest, r"C:\d\b");
    let dest = unique_dest(r"C:\d", "a.txt", |_: &String| false, 77);
    assert_eq!(dest, r"C:\d\a (77).txt");
    let dest = unique_dest(r"C:\d", "item", |p: &String| p != r"C:\d\item", 77);
    assert_eq!(dest, r"C:\d\item (1)");
}

#[test]
fn a_root_has_no_name_to_move_under() {
    assert_eq!(transfer_name(r"C:\a\b.txt"), Ok("b.txt".to_string()));
    assert_eq!(transfer_name(r"C:\"), Err("no file name".to_string()));
    assert_eq!(transfer_name("//a/b"), Err("no file name".to_string()));
}

// ---------- moving ----------

fn done() -> StepOutcome {
    StepOutcome {
        error: None,
        created: false,
        kind: SourceKind::File,
    }
}

fn saw(kind: SourceKind) -> StepOutcome {
    StepOutcome { kind, ..done() }
}

fn failed(error: &str, created: bool) -> StepOutcome {
    StepOutcome {
        error: Some(error.to_string()),
        created,
        kind: SourceKind::File,
    }
}

fn fallback() -> MoveJob {
    MoveJob::copy_then_remove(
        r"C:\source.txt".to_string(),
        r"D:\dest.txt".to_string(),
        "forced cross-volume fallback".to_string(),
    )
}

#[test]
fn a_copied_file_whose_source_is_removed_is_moved() {
    let mut job = fallback();
    job.advance(saw(SourceKind::File));
    assert_eq!(job.stage, MoveStage::Copy);
    job.advance(done());
    assert_eq!(job.stage, MoveStage::RemoveSource);
    job.advance(done());
    assert_eq!(job.stage, MoveStage::Moved);
}

#[test]
fn a_source_that_cannot_be_removed_undoes_the_copy() {
    let mut job = fallback();
    job.advance(saw(SourceKind::File));
    job.advance(done());
    job.advance(failed("locked", false));
    assert_eq!(job.stage, MoveStage::RemoveCopy);
    job.advance(done());
    assert_eq!(job.stage, MoveStage::Refused);
    assert_eq!(
        job.error,
        "重命名失败：forced cross-volume fallback；复制完成但无法删除源文件：locked；已撤销目标副本"
    );

    let mut job = fallback();
    job.advance(saw(SourceKind::File));
    job.advance(done());
    job.advance(failed("locked", false));
    job.advance(failed("gone", false));
    assert_eq!(
        job.error,
        "重命名失败：forced cross-volume fallback；复制完成但无法删除源文件：locked；目标副本也无法回滚：gone"
    );
}

#[test]
fn a_raced_target_is_not_removed() {
    let mut job = fallback();
    job.advance(saw(SourceKind::File));
    job.advance(failed("exists", false));
    assert_eq!(job.stage, MoveStage::Refused);
    assert_eq!(
        job.error,
        "重命名失败：forced cross-volume fallback；复制失败：exists"
    );

    let mut job = fallback();
    job.advance(saw(SourceKind::File));
    job.advance(failed("disk full", true));
    assert_eq!(job.stage, MoveStage::RemovePartial);
    job.advance(failed("still open", false));
    assert_eq!(
        job.error,
        "重命名失败：forced cross-volume fallback；复制失败：disk full"
    );
}

#[test]
fn links_and_folders_do_not_cross_volumes() {
    let mut job = fallback();
    job.advance(saw(SourceKind::Link));
    assert_eq!(job.stage, MoveStage::Refused);
    assert!(job.error.contains("跨磁盘复制"));
    assert!(job.error.contains("文件系统链接"));
    assert!(job.error.ends_with(r"C:\source.txt"));

    let mut job = MoveJob::new(r"C:\folder".to_string(), r"D:\folder".to_string());
    job.advance(failed("other volume", false));
    job.advance(saw(SourceKind::Folder));
    assert_eq!(
        job.error,
        "无法移动文件夹：other volume；暂不支持跨磁盘移动文件夹"
    );

    let mut job = MoveJob::new(r"C:\link".to_string(), r"D:\link".to_string());
    job.advance(failed("other volume", false));
    job.advance(saw(SourceKind::Link));
    assert!(job.error.starts_with("重命名失败：other volume；无法执行跨磁盘移动："));

    let mut job = MoveJob::new(r"C:\link".to_string(), r"C:\d\link".to_string());
    job.advance(done());
    assert_eq!(job.stage, MoveStage::Moved);

    let mut job = MoveJob::new(r"C:\a".to_string(), r"D:\a".to_string());
    job.advance(failed("other volume", false));
    job.advance(saw(SourceKind::File));
    assert_eq!(job.stage, MoveStage::InspectToCopy);
}

// ---------- copying ----------

fn ok(kind: SourceKind, names: &[&str]) -> CopyOutcome {
    CopyOutcome {
        error: None,
        created: false,
        kind,
        names: names.iter().map(|n| n.to_string()).collect(),
        broken: None,
    }
}

fn bad(error: &str, created: bool) -> CopyOutcome {
    CopyOutcome {
        error: Some(error.to_string()),
        created,
        kind: SourceKind::File,
        names: Vec::new(),
        broken: None,
    }
}

/// Runs a copy over a tree that is told by its folders and links.
fn run(job: &mut CopyJob, folder: impl Fn(&str) -> Option<Vec<&'static str>>, link: &str) -> Vec<String> {
    let mut made = Vec::new();
    for _ in 0..1000 {
        let outcome = match job.stage {
            CopyStage::Inspect
            | CopyStage::InspectEntry
            | CopyStage::InspectFolder
            | CopyStage::InspectFile => ok(
                if job.src == link {
                    SourceKind::Link
                } else if folder(&job.src).is_some() {
                    SourceKind::Folder
                } else {
                    SourceKind::File
                },
                &[],
            ),
            CopyStage::ReadFolder => ok(SourceKind::Folder, &folder(&job.src).unwrap()),
            CopyStage::CreateFolder | CopyStage::CopyFile => {
                made.push(job.dest.clone());
                ok(SourceKind::File, &[])
            }
            CopyStage::RemoveFile | CopyStage::RemoveTree => {
                let gone = job.dest.clone();
                made.retain(|p| !p.starts_with(&gone));
                ok(SourceKind::File, &[])
            }
            CopyStage::SetPermissions => ok(SourceKind::Folder, &[]),
            CopyStage::Copied | CopyStage::Refused => return made,
        };
        job.advance(outcome);
    }
    panic!("the copy did not end");
}

#[test]
fn nested_folders_are_copied_whole() {
    let tree = |p: &str| match p {
        r"C:\s" => Some(vec!["a.txt", "nested", "z.txt"]),
        r"C:\s\nested" => Some(vec!["file.txt"]),
        _ => None,
    };
    let mut job = CopyJob::new(r"C:\s".to_string(), r"D:\t".to_string());
    let made = run(&mut job, tree, "");
    assert_eq!(job.stage, CopyStage::Copied);
    assert_eq!(
        made,
        vec![
            r"D:\t",
            r"D:\t\a.txt",
            r"D:\t\nested",
            r"D:\t\nested\file.txt",
            r"D:\t\z.txt"
        ]
    );
}

#[test]
fn a_nested_link_undoes_the_copy() {
    let tree = |p: &str| match p {
        r"C:\s" => Some(vec!["a.txt", "nested"]),
        r"C:\s\nested" => Some(vec!["linked"]),
        _ => None,
    };
    let mut job = CopyJob::new(r"C:\s".to_string(), r"D:\t".to_string());
    let made = run(&mut job, tree, r"C:\s\nested\linked");
    assert_eq!(job.stage, CopyStage::Refused);
    assert!(job.error.contains("文件系统链接"));
    assert!(job.error.contains("linked"));
    assert!(made.is_empty());
}

#[test]
fn a_target_that_was_there_is_left_alone() {
    let mut job = CopyJob::new(r"C:\a.txt".to_string(), r"D:\raced.txt".to_string());
    job.advance(ok(SourceKind::File, &[]));
    job.advance(ok(SourceKind::File, &[]));
    assert_eq!(job.stage, CopyStage::CopyFile);
    job.advance(bad("exists", false));
    assert_eq!(job.stage, CopyStage::Refused);
    assert_eq!(job.error, "exists");

    let mut job = CopyJob::new(r"C:\s".to_string(), r"D:\raced".to_string());
    job.advance(ok(SourceKind::Folder, &[]));
    job.advance(ok(SourceKind::Folder, &[]));
    assert_eq!(job.stage, CopyStage::CreateFolder);
    job.advance(bad("exists", false));
    assert_eq!(job.stage, CopyStage::Refused);
}

#[test]
fn what_cannot_be_cleaned_up_is_told() {
    let mut job = CopyJob::new(r"C:\s".to_string(), r"D:\t".to_string());
    job.advance(ok(SourceKind::Folder, &[]));
    job.advance(ok(SourceKind::Folder, &[]));
    job.advance(ok(SourceKind::Folder, &[]));
    job.advance(ok(SourceKind::Folder, &["a"]));
    job.advance(ok(SourceKind::File, &[]));
    job.advance(ok(SourceKind::File, &[]));
    assert_eq!(job.stage, CopyStage::CopyFile);
    job.advance(bad("disk full", true));
    assert_eq!(job.stage, CopyStage::RemoveFile);
    assert_eq!(job.dest, r"D:\t\a");
    job.advance(bad("open", false));
    assert_eq!(job.stage, CopyStage::RemoveTree);
    assert_eq!(job.dest, r"D:\t");
    job.advance(bad("busy", false));
    assert_eq!(
        job.error,
        "disk full；无法清理本次创建的目标文件：open；无法清理本次创建的目标目录：busy"
    );
}

#[test]
fn a_broken_listing_undoes_the_copy() {
    let mut job = CopyJob::new(r"C:\s".to_string(), r"D:\t".to_string());
    for _ in 0..3 {
        job.advance(ok(SourceKind::Folder, &[]));
    }
    job.advance(CopyOutcome {
        broken: Some("unreadable".to_string()),
        ..ok(SourceKind::Folder, &[])
    });
    assert_eq!(job.stage, CopyStage::RemoveTree);
    job.advance(ok(SourceKind::Folder, &[]));
    assert_eq!(job.stage, CopyStage::Refused);
    assert_eq!(job.error, "unreadable");
}

#[test]
fn only_the_list_of_files_carries_where_they_were_dropped() {
    let (from, to) = (Point { x: 1, y: 2 }, Point { x: 8, y: 9 });
    let offsets = contents_format(FORMATS.offsets);
    assert_eq!(drag_source::data_point(&hdrop_format(), Some(to), from), to);
    assert_eq!(drag_source::data_point(&hdrop_format(), None, from), from);
    assert_eq!(drag_source::data_point(&offsets, Some(to), from), from);
}
