use feather_fences::config::{
    backup_path_for, boxes_root_for, config_dir, config_path, default_vault_dir, default_zen_hotkey,
    download_box_dir, first_zen_hotkey,
    legacy_fence_kind, load_from_path, migrate_fence_kinds_with_root, next_write_step,
    normalize_dpi_with_system, normalize_title_font_size, save_to_path, scale,
    scale_extent_for_dpi, startup_icon, temp_path_for, vault_dir, write_folder, Config, FenceCfg,
    FenceKind, WriteStep,
};
use feather_fences::winpath::{file_name_of, is_same_place, parent_of};

fn fixture(version: u32, x: i32, w: i32, dpi: u32) -> Config {
    Config {
        version,
        fences: vec![FenceCfg {
            x,
            w,
            dpi,
            ..Default::default()
        }],
        ..Default::default()
    }
}

#[test]
fn v1_physical_geometry_stays_physical_and_dpi_remains_unknown() {
    let mut c = fixture(1, 2400, 260, 0);
    normalize_dpi_with_system(&mut c, 192);
    assert_eq!(
        (c.fences[0].x, c.fences[0].w, c.fences[0].dpi),
        (2400, 260, 0)
    );
    assert_eq!(c.version, 3);
}

#[test]
fn v2_logical_geometry_uses_the_legacy_system_dpi_migration() {
    let mut c = fixture(2, 1000, 260, 0);
    normalize_dpi_with_system(&mut c, 192);
    assert_eq!(
        (c.fences[0].x, c.fences[0].w, c.fences[0].dpi),
        (2000, 520, 192)
    );
    assert_eq!(c.version, 3);
}

#[test]
fn v3_physical_geometry_is_not_rescaled_by_system_dpi() {
    let mut c = fixture(3, 2000, 520, 192);
    normalize_dpi_with_system(&mut c, 96);
    assert_eq!(
        (c.fences[0].x, c.fences[0].w, c.fences[0].dpi),
        (2000, 520, 192)
    );
}

#[test]
fn unknown_saved_dpi_preserves_v1_extent() {
    assert_eq!(scale_extent_for_dpi(260, 0, 192), 260);
    assert_eq!(scale_extent_for_dpi(520, 192, 144), 390);
}

#[test]
fn title_font_size_is_clamped_to_supported_bounds() {
    assert_eq!(normalize_title_font_size(0), 10);
    assert_eq!(normalize_title_font_size(18), 18);
    assert_eq!(normalize_title_font_size(100), 32);
}

#[test]
fn legacy_fence_kinds_are_migrated_from_existing_configuration() {
    let boxes_root = r"C:\Users\test\AppData\Roaming\feather-fences\boxes";
    let legacy = |id: u32, folder: Option<String>| FenceCfg {
        id,
        kind: FenceKind::Legacy,
        folder,
        ..FenceCfg::default()
    };
    let mut c = Config {
        download_box_id: Some(1),
        fences: vec![
            legacy(1, Some(format!(r"{boxes_root}\下载收纳箱"))),
            legacy(2, None),
            legacy(3, Some(format!(r"{boxes_root}\收纳箱"))),
            legacy(4, Some(r"D:\Documents".to_string())),
            legacy(5, Some(format!(r"{boxes_root}\nested\portal"))),
            FenceCfg {
                id: 6,
                kind: FenceKind::Portal,
                folder: Some(format!(r"{boxes_root}\explicit")),
                ..FenceCfg::default()
            },
        ],
        ..Config::default()
    };

    migrate_fence_kinds_with_root(&mut c, boxes_root);

    assert_eq!(c.fences[0].kind, FenceKind::Download);
    assert_eq!(c.fences[1].kind, FenceKind::Collection);
    assert_eq!(c.fences[2].kind, FenceKind::Collection);
    assert_eq!(c.fences[3].kind, FenceKind::Portal);
    assert_eq!(c.fences[4].kind, FenceKind::Portal);
    assert_eq!(c.fences[5].kind, FenceKind::Portal);
}

#[test]
fn a_second_migration_changes_nothing() {
    let root = r"C:\data\boxes";
    let mut c = Config {
        fences: vec![FenceCfg {
            kind: FenceKind::Legacy,
            folder: Some(r"C:\data\boxes\one".to_string()),
            ..FenceCfg::default()
        }],
        ..Config::default()
    };
    migrate_fence_kinds_with_root(&mut c, root);
    assert_eq!(c.fences[0].kind, FenceKind::Collection);
    migrate_fence_kinds_with_root(&mut c, r"D:\elsewhere");
    assert_eq!(c.fences[0].kind, FenceKind::Collection);
    assert_eq!(legacy_fence_kind(), FenceKind::Legacy);
}

#[test]
fn a_length_at_its_own_dpi_stays() {
    for len in [1, 7, 260, 333, 1921] {
        for dpi in [96, 120, 144, 168, 192] {
            assert_eq!(scale_extent_for_dpi(len, dpi, dpi), len);
        }
    }
}

#[test]
fn lengths_are_rounded_half_away_from_zero() {
    assert_eq!(scale(1, 144, 96), 2);
    assert_eq!(scale(-1, 144, 96), -2);
    assert_eq!(scale(i32::MAX, 192, 96), i32::MAX);
    assert_eq!(scale(i32::MIN, 192, 96), i32::MIN);
}

#[test]
fn settings_live_below_the_profile() {
    let dir = config_dir(false, &None, &Some(r"C:\Users\a\AppData\Roaming".to_string()));
    assert_eq!(dir, r"C:\Users\a\AppData\Roaming\feather-fences");
    assert_eq!(
        config_path(&dir),
        r"C:\Users\a\AppData\Roaming\feather-fences\config.json"
    );
    assert_eq!(
        download_box_dir(&dir),
        r"C:\Users\a\AppData\Roaming\feather-fences\boxes\下载收纳箱"
    );
    assert_eq!(
        config_dir(true, &Some(r"D:\perf".to_string()), &None),
        r"D:\perf"
    );
    assert_eq!(
        config_dir(false, &Some(r"D:\perf".to_string()), &None),
        r".\feather-fences"
    );
    let c = Config {
        vault_dir: Some(r"E:\vault".to_string()),
        ..Config::default()
    };
    assert_eq!(vault_dir(&c, &dir), r"E:\vault");
    assert_eq!(vault_dir(&Config::default(), &dir), default_vault_dir(&dir));
}

#[test]
fn files_beside_the_settings_have_their_own_endings() {
    let path = r"C:\d\config.json";
    assert_eq!(temp_path_for(path), r"C:\d\config.json.tmp");
    assert_eq!(backup_path_for(path), r"C:\d\config.json.bak");
    assert_eq!(boxes_root_for(path), r"C:\d\boxes");
    assert_eq!(write_folder(path), r"C:\d");
}

#[test]
fn a_sound_primary_wins_over_the_backup() {
    let primary = Config {
        title_font_size: 19,
        ..Config::default()
    };
    let backup = Config {
        title_font_size: 13,
        ..Config::default()
    };
    let loaded = load_from_path(r"C:\d\config.json", Some(primary), Some(backup));
    assert_eq!(loaded.config.title_font_size, 19);
    assert!(!loaded.repair_primary);
}

#[test]
fn a_corrupt_primary_is_repaired_from_the_backup() {
    let backup = Config {
        ghost_mode: true,
        title_font_size: 17,
        ..Config::default()
    };
    let loaded = load_from_path(r"C:\d\config.json", None, Some(backup));
    assert!(loaded.config.ghost_mode);
    assert_eq!(loaded.config.title_font_size, 17);
    assert!(loaded.repair_primary);
    let fresh = load_from_path(r"C:\d\config.json", None, None);
    assert_eq!(fresh.config.title_font_size, 12);
    assert!(fresh.config.download_enabled);
    assert!(fresh.config.download_box_visible);
    assert_eq!(fresh.config.zen_hotkey.as_deref(), Some("Ctrl+Shift+Z"));
    assert_eq!(default_zen_hotkey().as_deref(), Some("Ctrl+Alt+Z"));
    assert_eq!(first_zen_hotkey().as_deref(), Some("Ctrl+Shift+Z"));
    assert!(!fresh.repair_primary);
}

#[test]
fn only_sound_settings_become_the_backup() {
    let plan = save_to_path(vec![2, 2], Some(vec![1, 1]));
    assert_eq!(plan.primary, vec![2, 2]);
    assert_eq!(plan.backup, Some(vec![1, 1]));
    let plan = save_to_path(vec![3], None);
    assert_eq!(plan.primary, vec![3]);
    assert_eq!(plan.backup, None);
}

#[test]
fn a_write_that_fails_leaves_no_temporary_file() {
    let mut step = WriteStep::MakeParent;
    step = next_write_step(step, true);
    assert_eq!(step, WriteStep::WriteTemp);
    step = next_write_step(step, true);
    assert_eq!(step, WriteStep::Replace);
    assert_eq!(next_write_step(step, true), WriteStep::Written);
    step = next_write_step(step, false);
    assert_eq!(step, WriteStep::RemoveTemp);
    assert_eq!(next_write_step(step, false), WriteStep::Failed);
    assert_eq!(next_write_step(step, true), WriteStep::Failed);
    assert_eq!(next_write_step(WriteStep::MakeParent, false), WriteStep::Failed);
}

#[test]
fn the_first_icon_size_that_was_kept_counts() {
    let with = |icon: u32, sizes: Vec<u32>| Config {
        icon,
        fences: sizes
            .into_iter()
            .map(|icon| FenceCfg {
                icon,
                ..FenceCfg::default()
            })
            .collect(),
        ..Config::default()
    };
    assert_eq!(startup_icon(&with(48, vec![64])), 48);
    assert_eq!(startup_icon(&with(0, vec![0, 64, 24])), 64);
    assert_eq!(startup_icon(&with(0, vec![0])), 32);
}

#[test]
fn the_download_box_lies_in_the_boxes_root() {
    for dir in [r"C:\Users\a\feather-fences", r".\feather-fences", r"\\server\share", r"\\?\C:\a"] {
        let download = download_box_dir(dir);
        let root = boxes_root_for(&config_path(dir));
        let up = parent_of(&download).unwrap();
        assert!(is_same_place(&up, &root));
        assert_eq!(file_name_of(&download), Some("下载收纳箱".to_string()));
    }
}
