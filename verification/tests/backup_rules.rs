use wc_storage::error::WcError;
use wc_storage::sqlite::backup::{
    canonical_unique_sorted, checkpoint_outcome, common_columns, compat_warnings,
    config_maps_equal, copy_table_sql, database_sidecar, database_sidecar_suffixes,
    expect_current_version, expect_schema_marker, expect_search_index, expect_table,
    expect_verified_table, export_config_text, export_history_text, export_list_text,
    export_state_text, exported_flat_files, integrity_outcome, quote_identifier,
    reject_future_schema_version, restore_required_tables, search_index_errors,
    source_needs_migration, string_lists_equal, structural_errors, verify_result,
};
use wc_storage::sqlite::VerifyResult;
use wc_storage::sqlite::backup::{sibling_file_name, visible_backup_extension};
use wc_storage::sqlite::backup::{
    backup_file_not_found, backup_without_database, database_not_initialized,
    invalid_restore_source, verify_without_database,
};
use wc_storage::sqlite::schema::{migration_temp_exhausted, migration_temp_file_name};

fn s(items: &[&str]) -> Vec<String> {
    items.iter().map(|x| x.to_string()).collect()
}

fn other(r: Result<(), WcError>) -> String {
    match r {
        Err(WcError::Other(m)) => m,
        other => panic!("expected WcError::Other, got {other:?}"),
    }
}

#[test]
fn errors_take_priority_over_warnings() {
    assert_eq!(verify_result(Vec::new(), Vec::new()), VerifyResult::AllMatch);
    assert_eq!(
        verify_result(Vec::new(), s(&["config"])),
        VerifyResult::OkWithWarnings(s(&["config"]))
    );
    assert_eq!(
        verify_result(s(&["wallpapers_fts"]), s(&["config"])),
        VerifyResult::Failed(s(&["wallpapers_fts"]))
    );
}

#[test]
fn structural_errors_are_prefixed_by_their_check() {
    assert_eq!(
        structural_errors(Some("bad".into()), Some("page 3".into()), true),
        s(&["schema: bad", "integrity: page 3", "foreign_keys"])
    );
    assert_eq!(structural_errors(None, None, false), Vec::<String>::new());
}

#[test]
fn config_maps_compare_as_maps() {
    let a = vec![
        ("a".to_string(), "1".to_string()),
        ("b".to_string(), "2".to_string()),
    ];
    let b = vec![
        ("b".to_string(), "2".to_string()),
        ("a".to_string(), "1".to_string()),
    ];
    let c = vec![("a".to_string(), "1".to_string())];
    assert!(config_maps_equal(&a, &b));
    assert!(!config_maps_equal(&a, &c));
    assert!(string_lists_equal(&s(&["x", "y"]), &s(&["x", "y"])));
    assert!(!string_lists_equal(&s(&["x", "y"]), &s(&["y", "x"])));
    assert_eq!(
        canonical_unique_sorted(&s(&["/b", "/a", "/b"])),
        s(&["/a", "/b"])
    );
}

#[test]
fn flat_compat_drift_is_reported_per_file() {
    let none = compat_warnings(
        true,
        s(&["/b", "/a"]),
        &s(&["/a", "/b"]),
        s(&["/f"]),
        &s(&["/f"]),
        &s(&["/h", "/h"]),
        &s(&["/h"]),
        Some("/cur".into()),
        "/cur",
        None,
        "",
    );
    assert_eq!(none, Vec::<String>::new());
    let all = compat_warnings(
        false,
        s(&["/extra-source"]),
        &Vec::new(),
        s(&["/extra-fav.jpg"]),
        &Vec::new(),
        &s(&["/walls/extra.jpg"]),
        &Vec::new(),
        None,
        "/cur",
        Some("awww".into()),
        "",
    );
    assert_eq!(
        all,
        s(&[
            "config",
            "sources",
            "favorites (legacy flat compat)",
            "history (legacy flat compat)",
            "current (legacy flat compat)",
            "last_backend (legacy flat compat)",
        ])
    );
}

#[test]
fn search_index_drift_is_an_error() {
    assert_eq!(search_index_errors(3, 3, true), Vec::<String>::new());
    assert_eq!(search_index_errors(3, 0, true), s(&["wallpapers_fts"]));
    assert_eq!(search_index_errors(3, 3, false), s(&["wallpapers_fts"]));
    assert!(expect_search_index("repair", 1, 1, true).is_ok());
    assert_eq!(
        other(expect_search_index("repair", 1, 0, true)),
        "repair: wallpapers FTS integrity check failed"
    );
}

#[test]
fn identifiers_are_quoted_and_sidecars_named() {
    assert_eq!(quote_identifier("main"), "\"main\"");
    assert_eq!(quote_identifier("we\"ird"), "\"we\"\"ird\"");
    assert_eq!(database_sidecar("/db/wc.db", "-shm"), "/db/wc.db-shm");
    assert_eq!(database_sidecar_suffixes(), vec!["-wal", "-shm", "-journal"]);
}

#[test]
fn checks_report_their_context() {
    assert!(integrity_outcome("backup", &s(&["ok"])).is_ok());
    assert_eq!(
        other(integrity_outcome("backup", &s(&["row 1 missing", "page 2"]))),
        "backup: integrity_check failed: row 1 missing, page 2"
    );
    assert!(checkpoint_outcome("backup", 0).is_ok());
    assert_eq!(
        other(checkpoint_outcome("backup", 1)),
        "backup: WAL checkpoint remained busy"
    );
    assert!(expect_current_version("restore", 6).is_ok());
    assert_eq!(
        other(expect_current_version("restore", 4)),
        "restore: expected schema version 6, found 4"
    );
    assert_eq!(
        other(expect_table("restore", "config", false)),
        "restore: required table config is missing"
    );
    assert!(matches!(
        expect_verified_table("config", false),
        Err(WcError::Sqlite(m)) if m == "required table config is missing"
    ));
    assert!(expect_schema_marker("repair", "6").is_ok());
    assert_eq!(
        other(expect_schema_marker("repair", "5")),
        "repair: schema marker is 5, expected 6"
    );
    assert_eq!(reject_future_schema_version(6).unwrap(), 6);
    assert!(matches!(
        reject_future_schema_version(9),
        Err(WcError::Sqlite(m)) if m == "database schema version 9 is newer than supported version 6"
    ));
    assert!(source_needs_migration(5));
    assert!(!source_needs_migration(6));
}

#[test]
fn repair_copies_only_common_columns() {
    let common = common_columns(&s(&["key", "value", "new_col"]), &s(&["value", "key", "old"]));
    assert_eq!(common, s(&["key", "value"]));
    assert_eq!(
        copy_table_sql("recovered", "config", &common).unwrap(),
        "INSERT INTO main.\"config\" (\"key\", \"value\")\n         SELECT \"key\", \"value\" FROM \"recovered\".\"config\""
    );
    assert_eq!(
        copy_table_sql("recovered", "db_meta", &common).unwrap(),
        "INSERT INTO main.\"db_meta\" (\"key\", \"value\")\n         SELECT \"key\", \"value\" FROM \"recovered\".\"db_meta\" WHERE key NOT IN\n          ('schema_version', 'fts_schema_version', 'fts_rebuilt_at')"
    );
    assert!(matches!(
        copy_table_sql("recovered", "state", &Vec::new()),
        Err(WcError::Other(m)) if m == "repair: no compatible columns for persistent table state"
    ));
    assert_eq!(
        restore_required_tables(),
        vec!["db_meta", "config", "sources", "wallpapers", "favorites", "history", "state"]
    );
}

#[test]
fn export_writes_flat_file_texts() {
    let rows = vec![
        ("storage_backend".to_string(), "sqlite".to_string()),
        ("theme".to_string(), "dark".to_string()),
    ];
    assert_eq!(
        export_config_text(&rows),
        "storage_backend=sqlite\ntheme=dark\n"
    );
    assert_eq!(export_list_text(&s(&["/a", "/b"])), "/a\n/b\n");
    assert_eq!(
        export_history_text(&s(&["/w/./a.jpg", "/w/a.jpg", "/w/b.jpg"]), &s(&["/w/a.jpg", "/w/a.jpg", "/w/b.jpg"])),
        "/w/./a.jpg\n/w/b.jpg\n"
    );
    assert_eq!(export_state_text(Some("/cur.jpg".into())), "/cur.jpg\n");
    assert_eq!(export_state_text(None), "");
    assert_eq!(
        exported_flat_files(),
        vec!["config", "sources", "favorites", "history", "current", "last_backend"]
    );
}

#[test]
fn maintenance_files_are_named_from_their_parts() {
    assert_eq!(
        sibling_file_name(Some("wallpapers.db"), "restore.tmp", 42, 7),
        ".wallpapers.db.restore.tmp-42-7"
    );
    assert_eq!(sibling_file_name(None, "x", 1, 0), ".wallpapers.db.x-1-0");
    assert_eq!(
        visible_backup_extension("pre-restore", "20250101-000000", 9, 3),
        "db.pre-restore.20250101-000000-9-3"
    );
    assert_eq!(
        migration_temp_file_name(Some("wc.db"), 12, 5),
        ".wc.db.migrate-12-5.tmp"
    );
    assert!(matches!(
        migration_temp_exhausted(),
        WcError::Other(m) if m == "could not reserve a temporary database for legacy migration"
    ));
}

#[test]
fn exported_history_reads_back_without_drift() {
    // Newest first, with a duplicate canonical path.
    let rows = s(&["/walls/./a.jpg", "/walls/b.jpg", "/walls/a.jpg"]);
    let canonical = s(&["/walls/a.jpg", "/walls/b.jpg", "/walls/a.jpg"]);
    let text = export_history_text(&rows, &canonical);
    assert_eq!(text, "/walls/./a.jpg\n/walls/b.jpg\n");
    let read_back = wc_storage::flat::parse_lines(&text);
    let read_canonical = s(&["/walls/a.jpg", "/walls/b.jpg"]);
    assert_eq!(read_back.len(), read_canonical.len());
    // The comparison reads the database ordered by path.
    let db_canonical = s(&["/walls/a.jpg", "/walls/a.jpg", "/walls/b.jpg"]);
    assert_eq!(
        canonical_unique_sorted(&read_canonical),
        canonical_unique_sorted(&db_canonical)
    );
}

#[test]
fn maintenance_without_a_database_names_the_missing_file() {
    assert!(matches!(database_not_initialized(), WcError::Other(_)));
    assert_eq!(
        database_not_initialized().to_string(),
        "wallpapers.db not found; initialize SQLite storage first."
    );
    assert!(matches!(verify_without_database(), WcError::Sqlite(_)));
    assert_eq!(
        verify_without_database().to_string(),
        "SQLite error: wallpapers.db not found; initialize SQLite storage first."
    );
    assert_eq!(backup_without_database().to_string(), "wallpapers.db not found.");
}

#[test]
fn restore_errors_quote_the_path_and_reason() {
    assert_eq!(
        backup_file_not_found("/tmp/missing.bak").to_string(),
        "backup file not found: /tmp/missing.bak"
    );
    assert_eq!(
        invalid_restore_source("file is not a database").to_string(),
        "not a valid SQLite database: file is not a database"
    );
}

// Verification compares the flat copies with the database through these
// library functions; the scenarios below give them what the database and
// the flat files of the original scenarios hold.

#[test]
fn verify_history_passes_with_duplicate_canonical_paths() {
    let a = "/tmp/wallpaper-console-test/a.jpg";
    let warnings = compat_warnings(
        true,
        s(&["/walls"]),
        &s(&["/walls"]),
        s(&["/walls/fav.jpg"]),
        &s(&["/walls/fav.jpg"]),
        &s(&[a, a]),
        &s(&[a, a]),
        None,
        "",
        None,
        "",
    );
    assert_eq!(verify_result(Vec::new(), warnings), VerifyResult::AllMatch);
}

#[test]
fn verify_fails_on_fts_drift_even_with_config_warnings() {
    let warnings = compat_warnings(
        false,
        Vec::new(),
        &Vec::new(),
        Vec::new(),
        &Vec::new(),
        &Vec::new(),
        &Vec::new(),
        None,
        "",
        None,
        "",
    );
    assert_eq!(warnings, s(&["config"]));
    let errors = search_index_errors(1, 0, true);
    assert!(matches!(verify_result(errors, warnings), VerifyResult::Failed(_)));
}

#[test]
fn verify_sqlite_only_state_drift_is_warning_not_failed() {
    let warnings = compat_warnings(
        true,
        Vec::new(),
        &Vec::new(),
        Vec::new(),
        &s(&["/sqlite-only-fav.jpg"]),
        &Vec::new(),
        &s(&["/sqlite-only-hist.jpg"]),
        None,
        "/sqlite-only-cur.jpg",
        None,
        "",
    );
    let errors = search_index_errors(0, 0, true);
    assert!(matches!(
        verify_result(errors, warnings),
        VerifyResult::OkWithWarnings(_)
    ));
}
