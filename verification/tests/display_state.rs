use wc_storage::error::WcError;
use wc_storage::sqlite::display_state::{
    legacy_migration_phase, legacy_seed, map_row, normalize_replace_rows,
    normalize_supported_backend, validate_assignment, LegacyMigrationPhase,
};
use wc_storage::sqlite::{DisplayStateTarget, ALL_DISPLAYS_TARGET_KEY};

fn other_text(err: &WcError) -> String {
    match err {
        WcError::Other(m) => m.clone(),
        other => panic!("expected WcError::Other, got {other:?}"),
    }
}

#[test]
fn rejects_blank_output_target() {
    let err = DisplayStateTarget::Output(String::new())
        .validate()
        .unwrap_err();
    assert!(err.to_string().contains("blank"), "{err:?}");

    let err = DisplayStateTarget::Output("   ".into())
        .validate()
        .unwrap_err();
    assert!(err.to_string().contains("blank"), "{err:?}");

    let err = DisplayStateTarget::from_storage_key("").unwrap_err();
    assert!(err.to_string().contains("blank"), "{err:?}");
}

#[test]
fn reserved_all_displays_key_is_not_an_output_name() {
    assert_eq!(
        DisplayStateTarget::from_storage_key(ALL_DISPLAYS_TARGET_KEY).unwrap(),
        DisplayStateTarget::AllDisplays
    );
    let err = DisplayStateTarget::Output(ALL_DISPLAYS_TARGET_KEY.into())
        .validate()
        .unwrap_err();
    assert!(
        err.to_string().contains("reserved") || err.to_string().contains("All Displays"),
        "{err:?}"
    );
}

#[test]
fn storage_keys_round_trip_through_from_storage_key() {
    let edp = DisplayStateTarget::Output("eDP-1".into());
    assert_eq!(edp.storage_key(), "eDP-1");
    assert_eq!(
        DisplayStateTarget::from_storage_key(edp.storage_key()).unwrap(),
        edp
    );
    let all = DisplayStateTarget::AllDisplays;
    assert_eq!(all.storage_key(), "__all_displays__");
    assert_eq!(
        DisplayStateTarget::from_storage_key(all.storage_key()).unwrap(),
        all
    );
    assert!(edp.validate().is_ok());
    assert!(all.validate().is_ok());
}

#[test]
fn supported_backends_normalize_and_typos_are_rejected() {
    assert_eq!(normalize_supported_backend("awww").unwrap(), "awww");
    assert_eq!(normalize_supported_backend(" swww ").unwrap(), "awww");
    assert_eq!(normalize_supported_backend("mpvpaper").unwrap(), "mpvpaper");
    assert_eq!(
        normalize_supported_backend("linux-wallpaperengine").unwrap(),
        "linux-wallpaperengine"
    );
    let err = normalize_supported_backend("aww").unwrap_err();
    assert_eq!(other_text(&err), "unsupported display state backend: aww");
}

#[test]
fn assignments_require_path_and_supported_backend() {
    assert_eq!(validate_assignment("/walls/a.jpg", "swww").unwrap(), "awww");
    assert_eq!(
        other_text(&validate_assignment(" ", "awww").unwrap_err()),
        "display state wallpaper path must not be blank"
    );
    assert_eq!(
        other_text(&validate_assignment("/walls/a.jpg", "").unwrap_err()),
        "display state backend must not be blank"
    );
    assert_eq!(
        other_text(&validate_assignment("/walls/a.jpg", "feh").unwrap_err()),
        "unsupported display state backend: feh"
    );
}

#[test]
fn stored_rows_read_back_or_report_corruption() {
    let row = map_row(
        "eDP-1".into(),
        "/walls/a.jpg".into(),
        "swww".into(),
        "2025-01-01 00:00:00".into(),
    )
    .unwrap();
    assert_eq!(row.target, DisplayStateTarget::Output("eDP-1".into()));
    assert_eq!(row.wallpaper_path, "/walls/a.jpg");
    assert_eq!(row.backend, "awww");
    assert_eq!(row.updated_at, "2025-01-01 00:00:00");

    let all = map_row(
        ALL_DISPLAYS_TARGET_KEY.into(),
        "/walls/b.jpg".into(),
        "mpvpaper".into(),
        String::new(),
    )
    .unwrap();
    assert_eq!(all.target, DisplayStateTarget::AllDisplays);

    let err = map_row("eDP-1".into(), " ".into(), "awww".into(), String::new()).unwrap_err();
    assert_eq!(
        other_text(&err),
        "corrupted display state: wallpaper path is blank"
    );
    let err = map_row("eDP-1".into(), "/a".into(), "".into(), String::new()).unwrap_err();
    assert_eq!(other_text(&err), "corrupted display state: backend is blank");
    let err = map_row("eDP-1".into(), "/a".into(), "aww".into(), String::new()).unwrap_err();
    assert!(other_text(&err).contains("corrupted"));
    assert!(other_text(&err).contains("unsupported"));
    let err = map_row("".into(), "/a".into(), "awww".into(), String::new()).unwrap_err();
    assert_eq!(other_text(&err), "display state target must not be blank");
}

#[test]
fn legacy_migration_first_step_follows_marker_then_rows() {
    assert_eq!(
        legacy_migration_phase(true, 3),
        LegacyMigrationPhase::AlreadyMigrated
    );
    assert_eq!(legacy_migration_phase(false, 2), LegacyMigrationPhase::MarkOnly);
    assert_eq!(
        legacy_migration_phase(false, 0),
        LegacyMigrationPhase::ReadLegacyValues
    );
}

#[test]
fn legacy_pair_seeds_all_displays_only_when_complete_and_valid() {
    assert_eq!(
        legacy_seed(Some("/walls/current.jpg".into()), Some("awww".into())),
        Some(("/walls/current.jpg".to_string(), "awww"))
    );
    assert_eq!(
        legacy_seed(Some("/walls/current.jpg".into()), Some("swww".into())),
        Some(("/walls/current.jpg".to_string(), "awww"))
    );
    assert_eq!(legacy_seed(Some("/walls/current.jpg".into()), None), None);
    assert_eq!(legacy_seed(None, Some("awww".into())), None);
    assert_eq!(legacy_seed(Some("  ".into()), Some("awww".into())), None);
    assert_eq!(
        legacy_seed(Some("/walls/current.jpg".into()), Some("aww".into())),
        None
    );
}

#[test]
fn replacement_rows_are_checked_in_order_before_writing() {
    let rows = vec![
        (
            DisplayStateTarget::Output("eDP-1".into()),
            "/walls/a.jpg".to_string(),
            "swww".to_string(),
        ),
        (
            DisplayStateTarget::AllDisplays,
            "/walls/b.jpg".to_string(),
            "mpvpaper".to_string(),
        ),
    ];
    let out = normalize_replace_rows(&rows).unwrap();
    assert_eq!(
        out,
        vec![
            ("eDP-1".to_string(), "/walls/a.jpg".to_string(), "awww"),
            (
                "__all_displays__".to_string(),
                "/walls/b.jpg".to_string(),
                "mpvpaper"
            ),
        ]
    );

    let duplicate = vec![
        (
            DisplayStateTarget::Output("HDMI-1".into()),
            "/walls/a.jpg".to_string(),
            "awww".to_string(),
        ),
        (
            DisplayStateTarget::Output("HDMI-1".into()),
            "/walls/b.jpg".to_string(),
            "mpvpaper".to_string(),
        ),
    ];
    let err = normalize_replace_rows(&duplicate).unwrap_err();
    assert_eq!(other_text(&err), "duplicate display state target: HDMI-1");

    let invalid_first = vec![
        (
            DisplayStateTarget::Output("eDP-1".into()),
            "/walls/a.jpg".to_string(),
            "aww".to_string(),
        ),
        (
            DisplayStateTarget::Output(" ".into()),
            "/walls/b.jpg".to_string(),
            "awww".to_string(),
        ),
    ];
    let err = normalize_replace_rows(&invalid_first).unwrap_err();
    assert_eq!(other_text(&err), "unsupported display state backend: aww");

    assert_eq!(normalize_replace_rows(&Vec::new()).unwrap(), Vec::new());
}

// The write and read paths check every assignment and every stored row
// with these library functions before any statement runs.

#[test]
fn upsert_rejects_blank_path_or_backend() {
    assert!(validate_assignment("  ", "awww").is_err());
    assert!(validate_assignment("/walls/a.jpg", "").is_err());
}

#[test]
fn upsert_rejects_unsupported_backend_typos() {
    let err = validate_assignment("/walls/a.jpg", "aww").expect_err("typo backend must be rejected");
    assert!(
        err.to_string().contains("backend") || err.to_string().contains("unsupported"),
        "{err:?}"
    );
}

#[test]
fn upsert_normalizes_legacy_swww_to_awww() {
    let stored = validate_assignment("/walls/a.jpg", "swww").unwrap();
    assert_eq!(stored, "awww");
    let row = map_row("eDP-1".into(), "/walls/a.jpg".into(), stored.into(), String::new()).unwrap();
    assert_eq!(row.backend, "awww");
}

#[test]
fn upsert_accepts_supported_backends() {
    for (i, backend) in ["awww", "mpvpaper", "linux-wallpaperengine"]
        .into_iter()
        .enumerate()
    {
        let target = DisplayStateTarget::Output(format!("OUT-{i}"));
        assert!(target.validate().is_ok());
        let stored = validate_assignment("/walls/a.jpg", backend).unwrap();
        let row = map_row(
            target.storage_key().to_string(),
            "/walls/a.jpg".into(),
            stored.into(),
            String::new(),
        )
        .unwrap();
        assert_eq!(row.target, target);
        assert_eq!(row.backend, backend);
    }
}

#[test]
fn legacy_pair_migrates_to_all_displays_when_both_valid() {
    assert_eq!(legacy_migration_phase(false, 0), LegacyMigrationPhase::ReadLegacyValues);
    assert_eq!(
        legacy_seed(Some("/walls/current.jpg".into()), Some("awww".into())),
        Some(("/walls/current.jpg".to_string(), "awww"))
    );
}

#[test]
fn legacy_migration_is_idempotent_and_does_not_overwrite() {
    // Once the marker is written, later runs do nothing, whatever the
    // legacy pair and the rows now hold.
    assert_eq!(legacy_migration_phase(true, 1), LegacyMigrationPhase::AlreadyMigrated);
    assert_eq!(legacy_migration_phase(true, 0), LegacyMigrationPhase::AlreadyMigrated);
}

#[test]
fn partial_legacy_pair_is_left_untouched() {
    assert_eq!(legacy_seed(Some("/walls/current.jpg".into()), None), None);
    assert_eq!(legacy_seed(Some("/walls/current.jpg".into()), Some("   ".into())), None);
}

#[test]
fn blank_legacy_current_does_not_create_display_state() {
    assert_eq!(legacy_seed(Some("  ".into()), Some("awww".into())), None);
}

#[test]
fn legacy_swww_migrates_as_awww() {
    assert_eq!(
        legacy_seed(Some("/walls/current.jpg".into()), Some("swww".into())),
        Some(("/walls/current.jpg".to_string(), "awww"))
    );
}

#[test]
fn legacy_typo_backend_does_not_create_display_state() {
    assert_eq!(legacy_seed(Some("/walls/current.jpg".into()), Some("aww".into())), None);
}

#[test]
fn get_reports_corrupted_blank_wallpaper_path() {
    let err = map_row(ALL_DISPLAYS_TARGET_KEY.into(), "  ".into(), "awww".into(), String::new())
        .unwrap_err();
    assert!(
        err.to_string().contains("blank") || err.to_string().contains("corrupt"),
        "{err:?}"
    );
}

#[test]
fn list_reports_corrupted_blank_backend() {
    let err = map_row("eDP-1".into(), "/walls/a.jpg".into(), String::new(), String::new()).unwrap_err();
    assert!(
        err.to_string().contains("blank") || err.to_string().contains("corrupt"),
        "{err:?}"
    );
}

#[test]
fn replace_all_rejects_duplicate_targets_before_mutating() {
    let rows = vec![
        (
            DisplayStateTarget::Output("HDMI-1".into()),
            "/walls/a.jpg".to_string(),
            "awww".to_string(),
        ),
        (
            DisplayStateTarget::Output("HDMI-1".into()),
            "/walls/b.jpg".to_string(),
            "mpvpaper".to_string(),
        ),
    ];
    let err = normalize_replace_rows(&rows).unwrap_err();
    assert!(
        err.to_string().contains("duplicate") || err.to_string().contains("target"),
        "{err:?}"
    );
}

#[test]
fn replace_all_rejects_invalid_row_and_preserves_previous() {
    let rows = vec![
        (
            DisplayStateTarget::AllDisplays,
            "/walls/all.jpg".to_string(),
            "awww".to_string(),
        ),
        (
            DisplayStateTarget::Output("  ".into()),
            "/walls/bad.jpg".to_string(),
            "awww".to_string(),
        ),
    ];
    let err = normalize_replace_rows(&rows).unwrap_err();
    assert!(err.to_string().contains("blank"), "{err:?}");
}

#[test]
fn existing_user_display_rows_complete_migration_without_inserting_all_displays() {
    assert_eq!(legacy_migration_phase(false, 1), LegacyMigrationPhase::MarkOnly);
}

#[test]
fn partial_legacy_pair_remains_eligible_until_complete() {
    assert_eq!(legacy_seed(Some("/walls/current.jpg".into()), None), None);
    // No marker was written, so the next run reads the pair again.
    assert_eq!(legacy_migration_phase(false, 0), LegacyMigrationPhase::ReadLegacyValues);
    assert_eq!(
        legacy_seed(Some("/walls/current.jpg".into()), Some("awww".into())),
        Some(("/walls/current.jpg".to_string(), "awww"))
    );
}

#[test]
fn invalid_legacy_backend_stays_eligible_without_marker_or_row() {
    assert_eq!(legacy_seed(Some("/walls/current.jpg".into()), Some("aww".into())), None);
    assert_eq!(legacy_migration_phase(false, 0), LegacyMigrationPhase::ReadLegacyValues);
    assert_eq!(
        legacy_seed(Some("/walls/current.jpg".into()), Some("awww".into())),
        Some(("/walls/current.jpg".to_string(), "awww"))
    );
}

#[test]
fn get_normalizes_legacy_swww_backend_on_read() {
    let row = map_row(ALL_DISPLAYS_TARGET_KEY.into(), "/walls/a.jpg".into(), "swww".into(), String::new())
        .unwrap();
    assert_eq!(row.target, DisplayStateTarget::AllDisplays);
    assert_eq!(row.backend, "awww");
}

#[test]
fn list_reports_corrupted_unsupported_backend_typo() {
    let err = map_row("eDP-1".into(), "/walls/a.jpg".into(), "aww".into(), String::new()).unwrap_err();
    assert!(
        err.to_string().contains("corrupt")
            || err.to_string().contains("unsupported")
            || err.to_string().contains("backend"),
        "{err:?}"
    );
}

#[test]
fn get_reports_corrupted_unsupported_backend_typo() {
    let err = map_row(
        ALL_DISPLAYS_TARGET_KEY.into(),
        "/walls/a.jpg".into(),
        "not-a-backend".into(),
        String::new(),
    )
    .unwrap_err();
    assert!(
        err.to_string().contains("corrupt")
            || err.to_string().contains("unsupported")
            || err.to_string().contains("backend"),
        "{err:?}"
    );
}
