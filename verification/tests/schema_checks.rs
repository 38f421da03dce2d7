use wc_storage::error::WcError;
use wc_storage::sqlite::backup::{expect_no_foreign_key_orphans, export_directory_names};
use wc_storage::sqlite::legacy::library_where_clause;
use wc_storage::sqlite::library_browser::{
    append_cursor_boundary, browser_page_statement, browser_predicate, browser_random_statement,
    BrowserCursorBoundary, SqlValue,
};
use wc_storage::sqlite::library_page::{library_page_plan, LibraryRowScope};
use wc_storage::sqlite::scan_snapshot::{is_stale_scan_artifact, recursive_marker_text};
use wc_storage::sqlite::schema::{
    check_foreign_keys, check_required_index, check_table_columns, check_triggers,
    check_unique_indexes, column_signature, required_current_indexes, trigger_signature,
    ForeignKeySignature, IndexColumnSignature, IndexSignature,
};
use wc_storage::sqlite::schema_probe::{
    check_added_at, check_defaults, check_deleted_unindexed, check_domain_enforced,
    check_inserted_indexed, check_monotonic_source_id, check_monotonic_wallpaper_id,
    check_typed_sources, check_unique_paths, check_updated_indexed, invalid_source_updates,
    probe_names, rejected_combination, supported_source_combinations,
};
use wc_storage::sqlite::{
    LibraryBrowserQuery, LibraryBrowserSort, LibraryFilter, LibraryPageQuery, LibrarySort,
};
use wc_storage::text::string_from_chars;

fn message(r: Result<(), WcError>) -> String {
    match r {
        Err(WcError::Other(m)) => m,
        other => panic!("expected WcError::Other, got {other:?}"),
    }
}

fn fk(target: &str, from: &str) -> ForeignKeySignature {
    ForeignKeySignature {
        target_table: target.into(),
        from_column: from.into(),
        to_column: "id".into(),
        on_update: "NO ACTION".into(),
        on_delete: "CASCADE".into(),
        match_mode: "NONE".into(),
    }
}

fn index(table: &str, column: &str) -> IndexSignature {
    IndexSignature {
        table_name: table.into(),
        unique: true,
        origin: "c".into(),
        partial: false,
        columns: vec![IndexColumnSignature {
            column_id: 1,
            name: Some(column.into()),
            descending: false,
            collation: "BINARY".into(),
        }],
    }
}

#[test]
fn column_signatures_normalize_type_and_default() {
    let c = column_signature("path".into(), "  text ", 1, Some(" '' ".into()), 0, 0);
    assert_eq!(c.name, "path");
    assert_eq!(c.declared_type, "TEXT");
    assert!(c.not_null);
    assert_eq!(c.default_value, Some("''".to_string()));
    assert_eq!(c.primary_key_position, 0);
}

#[test]
fn table_columns_must_match_the_current_schema() {
    let expected = vec![
        column_signature("id".into(), "INTEGER", 0, None, 1, 0),
        column_signature(
            "added_at".into(),
            "TEXT",
            1,
            Some("(datetime('now'))".into()),
            0,
            0,
        ),
    ];
    let same = vec![
        column_signature("added_at".into(), "text", 1, Some("(datetime('now'))".into()), 0, 0),
        column_signature("id".into(), "integer", 0, None, 1, 0),
    ];
    assert!(check_table_columns("wallpapers", &expected, &same).is_ok());
    let migrated = vec![
        column_signature("id".into(), "INTEGER", 0, None, 1, 0),
        column_signature("added_at".into(), "TEXT", 1, Some("''".into()), 0, 0),
    ];
    assert!(check_table_columns("wallpapers", &expected, &migrated).is_ok());
    assert_eq!(
        message(check_table_columns("history", &expected, &migrated)),
        "current schema table history is missing or changes required column added_at"
    );
    assert_eq!(
        message(check_table_columns("wallpapers", &expected, &migrated[..1].to_vec())),
        "current schema table wallpapers has unexpected columns"
    );
}

#[test]
fn keys_indexes_and_triggers_compare_as_declared() {
    let a = vec![fk("wallpapers", "wallpaper_id"), fk("sources", "source_id")];
    let b = vec![fk("sources", "source_id"), fk("wallpapers", "wallpaper_id")];
    assert!(check_foreign_keys("wallpaper_sources", &a, &b).is_ok());
    assert_eq!(
        message(check_foreign_keys("wallpaper_sources", &a, &a[..1].to_vec())),
        "current schema table wallpaper_sources has invalid foreign keys"
    );

    let ix = vec![index("wallpapers", "path")];
    assert!(check_unique_indexes("wallpapers", &ix, &ix).is_ok());
    assert_eq!(
        message(check_unique_indexes("wallpapers", &ix, &vec![index("wallpapers", "title")])),
        "current schema table wallpapers has invalid unique indexes"
    );
    assert!(check_required_index("idx_wallpapers_path", &Some(index("wallpapers", "path")), &Some(index("wallpapers", "path"))).is_ok());
    assert_eq!(
        message(check_required_index("idx_wallpapers_path", &Some(index("wallpapers", "path")), &None)),
        "current schema has a missing or invalid required index idx_wallpapers_path"
    );
    assert_eq!(required_current_indexes().len(), 8);
    assert_eq!(required_current_indexes()[7], "idx_wallpaper_sources_source");

    let t = trigger_signature("t".into(), "wallpapers".into(), "CREATE TRIGGER t\n   AFTER INSERT");
    assert_eq!(t.normalized_sql, "CREATE TRIGGER t AFTER INSERT");
    let same = vec![trigger_signature("t".into(), "wallpapers".into(), "CREATE  TRIGGER t AFTER INSERT")];
    assert!(check_triggers(&vec![t.clone()], &same).is_ok());
    assert_eq!(
        message(check_triggers(&vec![t], &Vec::new())),
        "current schema has invalid or unexpected trigger definitions"
    );
}

#[test]
fn schema_probes_report_each_missing_guarantee() {
    let (path, source, insert_token, update_token) = probe_names(42, 7);
    assert_eq!(path, "/__wc_schema_validation_42_7.jpg");
    assert_eq!(source, "/__wc_schema_validation_source_42_7");
    assert_eq!(insert_token, "wcschemainsert427");
    assert_eq!(update_token, "wcschemaupdate427");
    let combos = supported_source_combinations();
    assert_eq!(combos.len(), 12);
    assert_eq!(combos[0], ("directory", 0, "unknown"));
    assert_eq!(combos[4], ("directory", 1, "available"));
    assert_eq!(combos[11], ("wallpaper_engine_workshop", 1, "offline"));
    assert_eq!(invalid_source_updates()[1].0, "recursive");
    assert!(matches!(
        rejected_combination("CHECK constraint failed"),
        WcError::Other(m) if m == "current schema rejects a supported source value combination: CHECK constraint failed"
    ));
    assert!(check_typed_sources(0).is_ok());
    assert_eq!(
        message(check_typed_sources(2)),
        "current schema contains invalid typed source values"
    );
    assert!(check_domain_enforced("kind", false).is_ok());
    assert_eq!(
        message(check_domain_enforced("kind", true)),
        "current schema does not enforce the sources.kind value domain"
    );
    assert!(check_monotonic_source_id(3, 4).is_ok());
    assert!(check_monotonic_source_id(4, 4).is_err());
    assert!(check_monotonic_wallpaper_id(1, 9).is_ok());
    assert!(check_monotonic_wallpaper_id(9, 1).is_err());
    assert!(check_added_at("2025-01-01 00:00:00").is_ok());
    assert_eq!(
        message(check_added_at("")),
        "current schema does not populate wallpapers.added_at"
    );
    assert!(check_defaults("/walls/a.jpg", "", "a.jpg").is_ok());
    assert!(check_defaults("/walls/a.jpg", "someone", "a.jpg").is_err());
    assert!(check_defaults("/walls/a.jpg", "", "walls").is_err());
    assert!(check_inserted_indexed(1).is_ok());
    assert!(check_inserted_indexed(0).is_err());
    assert!(check_unique_paths(false).is_ok());
    assert!(check_unique_paths(true).is_err());
    assert!(check_updated_indexed(0, 1).is_ok());
    assert!(check_updated_indexed(1, 1).is_err());
    assert!(check_deleted_unindexed(0).is_ok());
    assert!(check_deleted_unindexed(1).is_err());
}

#[test]
fn cursor_boundaries_extend_the_predicate_for_their_sort() {
    let query = LibraryBrowserQuery::default();
    let mut predicate = browser_predicate(&query, false);
    let before = predicate.where_sql.clone();
    let boundary = BrowserCursorBoundary::RecentlyAdded {
        added_at: "2025-01-02".into(),
        id: 9,
    };
    assert!(matches!(
        append_cursor_boundary(&mut predicate, LibraryBrowserSort::NameAsc, &boundary),
        Err(WcError::InvalidCursor { reason: "sort boundary mismatch" })
    ));
    assert_eq!(predicate.where_sql, before);
    append_cursor_boundary(&mut predicate, LibraryBrowserSort::RecentlyAdded, &boundary).unwrap();
    assert_eq!(
        predicate.where_sql,
        format!("{before} AND (w.added_at < ?1 OR (w.added_at = ?1 AND w.id < ?2))")
    );
    assert_eq!(
        predicate.params,
        vec![SqlValue::Text("2025-01-02".into()), SqlValue::Integer(9)]
    );
    let (page_sql, page_params) =
        browser_page_statement(&predicate, LibraryBrowserSort::RecentlyAdded, 20);
    assert!(page_sql.ends_with("ORDER BY w.added_at DESC, w.id DESC\n         LIMIT ?3"));
    assert_eq!(page_params.last(), Some(&SqlValue::Integer(21)));
    let (random_sql, random_params) = browser_random_statement(&predicate, 4);
    assert!(random_sql.ends_with("ORDER BY w.id\n         LIMIT 1 OFFSET ?3"));
    assert_eq!(random_params.len(), 3);
    assert_eq!(random_params[2], SqlValue::Integer(4));
}

#[test]
fn legacy_pages_plan_their_statements() {
    let plain = library_page_plan(
        &LibraryPageQuery {
            filter: LibraryFilter::Image,
            sort: LibrarySort::Name,
            search: "   ".into(),
            offset: 10,
            limit: 5,
        },
        LibraryRowScope::AllPhysicalRows,
    );
    assert_eq!(plain.fts, None);
    assert_eq!(plain.count_sql, "SELECT COUNT(*) FROM wallpapers WHERE type = 'image'");
    assert_eq!((plain.limit, plain.offset), (5, 10));
    assert!(plain.page_sql.contains("FROM wallpapers\n             WHERE type = 'image'\n"));
    assert!(plain.page_sql.ends_with("LIMIT ?1 OFFSET ?2"));

    let search = library_page_plan(
        &LibraryPageQuery {
            filter: LibraryFilter::All,
            sort: LibrarySort::Newest,
            search: " forest ".into(),
            offset: 0,
            limit: usize::MAX,
        },
        LibraryRowScope::SourceBackedRows,
    );
    assert_eq!(search.fts, Some("\"forest\"*".to_string()));
    assert!(search
        .count_sql
        .starts_with("SELECT COUNT(*) FROM wallpapers w JOIN wallpapers_fts ON wallpapers_fts.rowid = w.id WHERE wallpapers_fts MATCH ?1 AND EXISTS ("));
    assert_eq!(search.limit, i64::MAX);
    assert!(search.page_sql.ends_with("LIMIT ?2 OFFSET ?3"));

    assert!(library_where_clause(LibraryFilter::Video).starts_with("type = 'video' AND (?1 = ''"));
}

#[test]
fn small_helpers_name_their_outputs() {
    assert_eq!(recursive_marker_text(true), "1");
    assert_eq!(recursive_marker_text(false), "0");
    assert!(is_stale_scan_artifact("wc-scan-12.sqlite"));
    assert!(is_stale_scan_artifact("wc-scan-12.request.json"));
    assert!(!is_stale_scan_artifact("wc-scan-12.log"));
    assert!(!is_stale_scan_artifact("other.sqlite"));
    assert_eq!(
        export_directory_names("20250101-000000"),
        (
            "export-20250101-000000".to_string(),
            "export-tmp-20250101-000000".to_string()
        )
    );
    assert!(expect_no_foreign_key_orphans("restore", false).is_ok());
    assert_eq!(
        message(expect_no_foreign_key_orphans("restore", true)),
        "restore: foreign_key_check failed"
    );
    assert_eq!(string_from_chars(&['a', '森', 'b']), "a森b");
}
