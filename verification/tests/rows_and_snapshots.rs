use wc_storage::error::WcError;
use wc_storage::sqlite::connection::{check_runtime_schema_version, database_not_found};
use wc_storage::sqlite::legacy::{library_order_by as legacy_order_by, sqlite_escape};
use wc_storage::sqlite::library_page::{
    empty_library_page, library_counts_from_rows, library_counts_sql, library_filter_condition,
    library_order_by, sql_where_clause, usize_to_i64_saturating, LibraryRowScope,
};
use wc_storage::sqlite::library_revision::{
    parse_library_revision, require_library_revision, LibraryRevisionObserver,
};
use wc_storage::sqlite::row_map::{
    entry_columns, metadata_cache_entry, wallpaper_entry_from_row, StoredWallpaperRow,
};
use wc_storage::sqlite::scan_snapshot::{
    check_clean_exit, check_complete, check_format_version, check_quick_check, check_source,
    item_count_of, meta_i64, meta_u32, recursive_marker, ScanSnapshotError, SnapshotPathPresence,
    ValidatedScanSnapshot, validate_snapshot_markers, accept_snapshot_contents,
};
use wc_storage::sqlite::source_migration::{
    containment_memberships, default_source_name, group_aliases, migrated_source_settings,
};
use wc_storage::sqlite::timestamp::{
    chrono_now, chrono_now_compact, civil_from_days, compact_timestamp_of, timestamp_of,
};
use wc_storage::sqlite::tsv_import::parse_library_tsv;
use wc_storage::sqlite::{LibraryFilter, LibrarySort};
use wc_storage::types::{Backend, FileType, WallpaperEntry, WallpaperProject};

fn row(path: &str, file_type: &str, backend: &str) -> StoredWallpaperRow {
    StoredWallpaperRow {
        path: path.into(),
        file_type: file_type.into(),
        ext: "jpg".into(),
        backend: backend.into(),
        size: 100,
        mtime: 7,
        resolution: "1920x1080".into(),
        project_type: String::new(),
        preview_path: String::new(),
        workshop_id: String::new(),
        title: String::new(),
        we_file: String::new(),
        unsupported_reason: String::new(),
    }
}

#[test]
fn revision_text_parses_like_an_unsigned_integer() {
    assert_eq!(parse_library_revision("42").unwrap(), 42);
    assert_eq!(parse_library_revision("+7").unwrap(), 7);
    let message = |value: &str| match parse_library_revision(value) {
        Err(WcError::Sqlite(m)) => m,
        other => panic!("unexpected {other:?}"),
    };
    assert_eq!(
        message(""),
        "invalid library revision stored in database: cannot parse integer from empty string"
    );
    assert_eq!(
        message("12x"),
        "invalid library revision stored in database: invalid digit found in string"
    );
    assert_eq!(
        message("-1"),
        "invalid library revision stored in database: invalid digit found in string"
    );
    assert_eq!(
        message("18446744073709551616"),
        "invalid library revision stored in database: number too large to fit in target type"
    );
    assert!(require_library_revision(3, 3).is_ok());
    assert!(matches!(
        require_library_revision(3, 4),
        Err(WcError::RevisionChanged {
            expected: 3,
            observed: 4
        })
    ));
}

#[test]
fn observer_reports_each_new_revision_once() {
    let mut observer = LibraryRevisionObserver::from_state(1, 10);
    assert!(!observer.observe_data_version(1));
    assert!(observer.observe_data_version(2));
    // A config commit moves the data version but not the revision.
    assert_eq!(observer.observe_revision(10), None);
    assert!(observer.observe_data_version(3));
    assert_eq!(observer.observe_revision(11), Some(11));
    assert_eq!(observer.observe_revision(11), None);
    assert_eq!(observer.library_revision(), 11);
    assert_eq!(observer.data_version(), 3);
}

#[test]
fn days_map_to_civil_dates() {
    assert_eq!(civil_from_days(0), (1970, 1, 1));
    assert_eq!(civil_from_days(-1), (1969, 12, 31));
    assert_eq!(civil_from_days(11016), (2000, 2, 29));
    assert_eq!(civil_from_days(19723), (2024, 1, 1));
    assert_eq!(timestamp_of(0), "1970-01-01T00:00:00");
    assert_eq!(timestamp_of(1_700_000_000), "2023-11-14T22:13:20");
    assert_eq!(compact_timestamp_of(1_700_000_000), "20231114-221320");
}

#[test]
fn current_time_has_the_timestamp_shape() {
    let now = chrono_now();
    assert_eq!(now.len(), 19);
    assert_eq!(&now[4..5], "-");
    assert_eq!(&now[10..11], "T");
    assert!(now.as_str() > "2024-01-01T00:00:00");
    let compact = chrono_now_compact();
    assert_eq!(compact.len(), 15);
    assert_eq!(&compact[8..9], "-");
    assert!(compact.as_str() > "20240101-000000");
}

#[test]
fn stored_rows_map_to_entries() {
    let entry = wallpaper_entry_from_row(row("/walls/a.jpg", "image", "swww"));
    assert_eq!(entry.path, "/walls/a.jpg");
    assert_eq!(entry.file_type, FileType::Image);
    assert_eq!(entry.backend, Backend::Awww);
    assert_eq!(entry.size, 100);
    assert_eq!(entry.project, None);

    let mut negative = row("/walls/b.jpg", "mystery", "feh");
    negative.size = -5;
    let odd = wallpaper_entry_from_row(negative);
    assert_eq!(odd.file_type, FileType::WeApplication);
    assert_eq!(odd.backend, Backend::Unsupported);
    assert_eq!(odd.size, 0);

    let cached = metadata_cache_entry(row("/walls/c.jpg", "mystery", "feh"));
    assert_eq!(cached.file_type, FileType::Image);
    assert_eq!(cached.backend, Backend::Feh);
}

#[test]
fn an_entry_written_as_columns_reads_back_unchanged() {
    let entry = WallpaperEntry {
        path: "/steam/3558034522".into(),
        file_type: FileType::WeScene,
        ext: "scene".into(),
        backend: Backend::LinuxWallpaperEngine,
        size: 1234,
        mtime: 42,
        resolution: String::new(),
        project: Some(WallpaperProject {
            project_type: "scene".into(),
            preview_path: Some("/steam/3558034522/preview.gif".into()),
            workshop_id: Some("3558034522".into()),
            title: Some("Scene title".into()),
            we_file: Some("scene.json".into()),
            backend: Some("linux-wallpaperengine".into()),
            unsupported_reason: None,
        }),
    };
    let columns = entry_columns(&entry);
    assert_eq!(columns.file_type, "we_scene");
    assert_eq!(columns.backend, "linux-wallpaperengine");
    assert_eq!(columns.unsupported_reason, "");
    assert_eq!(wallpaper_entry_from_row(columns), entry);
}

#[test]
fn snapshot_markers_are_checked() {
    assert!(check_clean_exit(true).is_ok());
    assert!(matches!(check_clean_exit(false), Err(ScanSnapshotError::UncleanExit)));
    assert!(check_quick_check("ok").is_ok());
    assert!(matches!(
        check_quick_check("corrupt"),
        Err(ScanSnapshotError::Invalid(m)) if m == "snapshot failed SQLite structural validation"
    ));
    assert_eq!(meta_u32("format_version", Some("2".into())).unwrap(), 2);
    assert!(matches!(
        meta_u32("format_version", None),
        Err(ScanSnapshotError::Invalid(m)) if m == "missing format_version marker"
    ));
    assert!(matches!(
        meta_u32("format_version", Some("x".into())),
        Err(ScanSnapshotError::Invalid(m)) if m == "invalid format_version marker"
    ));
    assert_eq!(meta_i64("source_id", Some("-4".into())).unwrap(), -4);
    assert!(check_format_version(2).is_ok());
    assert!(matches!(
        check_format_version(1),
        Err(ScanSnapshotError::UnsupportedVersion {
            expected: 2,
            actual: 1
        })
    ));
    assert!(check_source(5, 5).is_ok());
    assert!(matches!(
        check_source(5, 6),
        Err(ScanSnapshotError::WrongSource {
            expected: 5,
            actual: 6
        })
    ));
    assert!(check_complete(Some("1".into())).is_ok());
    assert!(matches!(check_complete(Some("0".into())), Err(ScanSnapshotError::Incomplete)));
    assert!(matches!(check_complete(None), Err(ScanSnapshotError::Incomplete)));
    assert_eq!(item_count_of(3).unwrap(), 3);
    assert!(item_count_of(-1).is_err());
    assert_eq!(recursive_marker(None).unwrap(), None);
    assert_eq!(recursive_marker(Some("1".into())).unwrap(), Some(true));
    assert_eq!(recursive_marker(Some("0".into())).unwrap(), Some(false));
    assert!(recursive_marker(Some("yes".into())).is_err());
}

#[test]
fn prior_presence_values_round_trip() {
    for p in [
        SnapshotPathPresence::Present,
        SnapshotPathPresence::Missing,
        SnapshotPathPresence::Unknown,
    ] {
        assert_eq!(SnapshotPathPresence::parse(p.as_str()).unwrap(), p);
    }
    assert!(SnapshotPathPresence::parse("maybe").is_err());
    let snapshot = accepted_snapshot();
    assert_eq!(snapshot.path(), "/tmp/snap.db");
    assert_eq!(snapshot.source_id(), 7);
    assert_eq!(snapshot.item_count(), 2);
    assert_eq!(snapshot.source_config(), Some(("/walls", "directory", true)));
    let read = snapshot
        .read_prior_presence(vec![
            ("/walls/a.jpg".into(), "present".into()),
            ("/walls/b.jpg".into(), "missing".into()),
        ])
        .unwrap();
    assert_eq!(
        read,
        vec![
            ("/walls/a.jpg".to_string(), SnapshotPathPresence::Present),
            ("/walls/b.jpg".to_string(), SnapshotPathPresence::Missing),
        ]
    );
    assert!(snapshot
        .read_prior_presence(vec![("/walls/a.jpg".into(), "gone".into())])
        .is_err());
}

#[test]
fn catalogue_lines_with_seven_fields_become_rows() {
    let text = "image\tjpg\tawww\t100\t7\t1920x1080\t/walls/a.jpg\r\nshort\tline\n\
                video\tmp4\tmpvpaper\tbig\t8\t1x1\t/walls/b.mp4\textra\n";
    let rows = parse_library_tsv(text);
    assert_eq!(rows.len(), 2);
    assert_eq!(rows[0].path, "/walls/a.jpg");
    assert_eq!(rows[0].file_type, "image");
    assert_eq!(rows[0].size, 100);
    assert_eq!(rows[0].mtime, 7);
    assert_eq!(rows[1].path, "/walls/b.mp4");
    assert_eq!(rows[1].size, 0);
    assert_eq!(rows[1].backend, "mpvpaper");
    assert!(parse_library_tsv("").is_empty());
}

#[test]
fn legacy_sql_text_escapes_and_orders() {
    assert_eq!(sqlite_escape("artist's"), "artist''s");
    assert_eq!(
        legacy_order_by(LibrarySort::Name),
        "CASE WHEN type = 'we_web' THEN 1 WHEN type = 'unsupported' THEN 2 ELSE 0 END ASC,\n             path ASC"
    );
    assert_eq!(
        library_order_by(LibrarySort::Largest, Some("w")),
        "CASE WHEN w.type = 'we_web' THEN 1 WHEN w.type = 'unsupported' THEN 2 ELSE 0 END ASC,\n             w.size DESC, w.path ASC"
    );
    assert_eq!(library_filter_condition(LibraryFilter::All), "");
    assert_eq!(
        library_filter_condition(LibraryFilter::We),
        "type IN ('we_scene', 'we_web')"
    );
    assert_eq!(sql_where_clause(Vec::new()), "");
    assert_eq!(
        sql_where_clause(vec!["a = 1".into(), "b = 2".into()]),
        "WHERE a = 1 AND b = 2"
    );
    assert_eq!(
        library_counts_sql(LibraryRowScope::AllPhysicalRows),
        "SELECT type, COUNT(*) FROM wallpapers  GROUP BY type"
    );
    assert!(library_counts_sql(LibraryRowScope::SourceBackedRows)
        .contains("WHERE EXISTS (\n                     SELECT 1 FROM wallpaper_sources membership"));
    assert_eq!(usize_to_i64_saturating(usize::MAX), i64::MAX);
    assert_eq!(usize_to_i64_saturating(5), 5);
    assert_eq!(empty_library_page().total, 0);
}

#[test]
fn filter_and_sort_names_parse() {
    assert_eq!(LibraryFilter::parse("videos").unwrap(), LibraryFilter::Video);
    assert_eq!(LibraryFilter::parse("").unwrap(), LibraryFilter::All);
    assert!(matches!(
        LibraryFilter::parse("movies"),
        Err(WcError::Other(m)) if m == "unknown library filter: movies"
    ));
    assert_eq!(LibrarySort::parse("size").unwrap(), LibrarySort::Largest);
    assert!(matches!(
        LibrarySort::parse("oldest"),
        Err(WcError::Other(m)) if m == "unknown library sort: oldest"
    ));
}

#[test]
fn grouped_counts_fill_each_kind() {
    let counts = library_counts_from_rows(&vec![
        ("image".to_string(), 3),
        ("video".to_string(), 2),
        ("we_web".to_string(), 1),
        ("gif".to_string(), -4),
    ]);
    assert_eq!(counts.total, 6);
    assert_eq!(counts.images, 3);
    assert_eq!(counts.videos, 2);
    assert_eq!(counts.gifs, 0);
}

#[test]
fn runtime_rejects_newer_schema_and_missing_database() {
    assert!(check_runtime_schema_version(6, 6).is_ok());
    assert!(matches!(
        check_runtime_schema_version(7, 6),
        Err(WcError::Sqlite(m)) if m == "database schema version 7 is newer than supported version 6"
    ));
    assert!(matches!(
        database_not_found("/db/wc.db"),
        WcError::Sqlite(m) if m == "database not found: /db/wc.db"
    ));
}

#[test]
fn migrated_sources_get_kind_name_and_memberships() {
    assert_eq!(default_source_name("/home/u/walls", "directory"), "walls");
    assert_eq!(default_source_name("/", "directory"), "/");
    assert_eq!(
        default_source_name("/steam/431960", "wallpaper_engine_workshop"),
        "Wallpaper Engine"
    );
    let (kind, name, recursive) = migrated_source_settings("/steam/431960", true);
    assert_eq!((kind, name.as_str(), recursive), ("wallpaper_engine_workshop", "Wallpaper Engine", 0));
    let (kind, name, recursive) = migrated_source_settings("/home/u/walls", false);
    assert_eq!((kind, name.as_str(), recursive), ("directory", "walls", 1));

    let memberships = containment_memberships(
        &vec![
            (1, "/home/u/walls/a.jpg".to_string(), "t1".to_string()),
            (2, "/home/u/wallsx/b.jpg".to_string(), "t2".to_string()),
        ],
        &vec![(10, "/home/u/walls".to_string()), (11, "/home/u".to_string())],
    );
    assert_eq!(
        memberships,
        vec![
            (1, 10, "t1".to_string()),
            (1, 11, "t1".to_string()),
            (2, 11, "t2".to_string()),
        ]
    );

    let groups = group_aliases(
        &vec![(5, "/w/./b".to_string()), (2, "/w/a".to_string()), (3, "/w/b".to_string())],
        &vec!["/w/b".to_string(), "/w/a".to_string(), "/w/b".to_string()],
    );
    assert_eq!(groups.len(), 2);
    assert_eq!(groups[0].canonical, "/w/a");
    assert_eq!(groups[0].rows, vec![(2, "/w/a".to_string())]);
    assert_eq!(groups[1].canonical, "/w/b");
    assert_eq!(
        groups[1].rows,
        vec![(3, "/w/b".to_string()), (5, "/w/./b".to_string())]
    );
}

#[test]
fn snapshot_refusals_read_as_text() {
    assert_eq!(
        ScanSnapshotError::Invalid("bad".into()).to_string(),
        "invalid scan snapshot: bad"
    );
    assert_eq!(
        ScanSnapshotError::Incomplete.to_string(),
        "scan snapshot is incomplete"
    );
    assert_eq!(
        ScanSnapshotError::UncleanExit.to_string(),
        "scan worker did not exit cleanly"
    );
    assert_eq!(
        ScanSnapshotError::WrongSource {
            expected: 5,
            actual: -6
        }
        .to_string(),
        "scan snapshot source mismatch: expected 5, got -6"
    );
    assert_eq!(
        ScanSnapshotError::UnsupportedVersion {
            expected: 2,
            actual: 1
        }
        .to_string(),
        "unsupported scan snapshot format: expected 2, got 1"
    );
    let io = ScanSnapshotError::Io(std::io::Error::new(std::io::ErrorKind::Other, "gone"));
    assert_eq!(io.to_string(), "scan snapshot I/O failed: gone");
    let sqlite = ScanSnapshotError::Sqlite(rusqlite::Error::QueryReturnedNoRows);
    assert_eq!(
        sqlite.to_string(),
        format!("scan snapshot SQLite failed: {}", rusqlite::Error::QueryReturnedNoRows)
    );
}

fn test_next_date((y, m, d): (i64, u32, u32)) -> (i64, u32, u32) {
    let leap = y % 4 == 0 && (y % 100 != 0 || y % 400 == 0);
    let len = match m {
        2 => {
            if leap {
                29
            } else {
                28
            }
        }
        4 | 6 | 9 | 11 => 30,
        _ => 31,
    };
    if d < len {
        (y, m, d + 1)
    } else if m < 12 {
        (y, m + 1, 1)
    } else {
        (y + 1, 1, 1)
    }
}

#[test]
fn consecutive_days_are_consecutive_calendar_dates() {
    assert_eq!(civil_from_days(0), (1970, 1, 1));
    let mut date = civil_from_days(-146097 * 2);
    assert_eq!(date, (1170, 1, 1));
    for days in (-146097 * 2 + 1)..(146097 * 2) {
        let next = civil_from_days(days);
        assert_eq!(next, test_next_date(date), "day {days}");
        date = next;
    }
    assert_eq!(civil_from_days(-719468), (0, 3, 1));
    assert_eq!(civil_from_days(10957 + 59), (2000, 2, 29));
    assert_eq!(civil_from_days(-25508), (1900, 3, 1));
}

#[test]
fn every_day_falls_inside_its_month() {
    let month_len = |y: i64, m: u32| -> u32 {
        match m {
            2 if (y % 4 == 0 && y % 100 != 0) || y % 400 == 0 => 29,
            2 => 28,
            4 | 6 | 9 | 11 => 30,
            _ => 31,
        }
    };
    for days in -800_000i64..800_000 {
        let (y, m, d) = civil_from_days(days);
        assert!((1..=12).contains(&m), "day {days}");
        assert!(d >= 1 && d <= month_len(y, m), "day {days}");
    }
    assert_eq!(civil_from_days(11016 + 1), (2000, 3, 1));
    assert_eq!(civil_from_days(-1), (1969, 12, 31));
}

fn marker(v: &str) -> Result<Option<String>, ScanSnapshotError> {
    Ok(Some(v.to_string()))
}

fn accepted_snapshot() -> ValidatedScanSnapshot {
    validate_snapshot_markers(
        "/tmp/snap.db".into(),
        7,
        Ok("ok".into()),
        marker("2"),
        marker("7"),
        marker("1"),
        Ok(2),
        marker("/walls"),
        marker("directory"),
        marker("1"),
    )
    .unwrap()
}

#[test]
fn snapshot_markers_are_checked_in_order() {
    let snapshot = accepted_snapshot();
    assert_eq!(snapshot.source_config(), Some(("/walls", "directory", true)));
    // A bad quick check wins over every later marker.
    let refused = validate_snapshot_markers(
        "/tmp/snap.db".into(),
        7,
        Ok("corrupt".into()),
        marker("9"),
        marker("8"),
        Ok(None),
        Ok(-1),
        marker("/walls"),
        marker("directory"),
        marker("maybe"),
    );
    assert_eq!(
        refused.unwrap_err().to_string(),
        "invalid scan snapshot: snapshot failed SQLite structural validation"
    );
    // The format version is checked before the source.
    let refused = validate_snapshot_markers(
        "/tmp/snap.db".into(),
        7,
        Ok("ok".into()),
        marker("9"),
        marker("8"),
        marker("1"),
        Ok(2),
        Ok(None),
        Ok(None),
        Ok(None),
    );
    assert!(matches!(
        refused,
        Err(ScanSnapshotError::UnsupportedVersion { expected: 2, actual: 9 })
    ));
    let refused = validate_snapshot_markers(
        "/tmp/snap.db".into(),
        7,
        Ok("ok".into()),
        marker("2"),
        marker("8"),
        Ok(None),
        Ok(2),
        Ok(None),
        Ok(None),
        Ok(None),
    );
    assert!(matches!(
        refused,
        Err(ScanSnapshotError::WrongSource { expected: 7, actual: 8 })
    ));
    let refused = validate_snapshot_markers(
        "/tmp/snap.db".into(),
        7,
        Ok("ok".into()),
        marker("2"),
        marker("7"),
        marker("0"),
        Ok(-1),
        Ok(None),
        Ok(None),
        Ok(None),
    );
    assert!(matches!(refused, Err(ScanSnapshotError::Incomplete)));
    let refused = validate_snapshot_markers(
        "/tmp/snap.db".into(),
        7,
        Ok("ok".into()),
        marker("2"),
        marker("7"),
        marker("1"),
        Ok(-1),
        Ok(None),
        Ok(None),
        marker("maybe"),
    );
    assert_eq!(
        refused.unwrap_err().to_string(),
        "invalid scan snapshot: negative or oversized item count"
    );
    // Without all three source markers there is no source configuration.
    let partial = validate_snapshot_markers(
        "/tmp/snap.db".into(),
        7,
        Ok("ok".into()),
        marker("2"),
        marker("7"),
        marker("1"),
        Ok(0),
        marker("/walls"),
        Ok(None),
        marker("0"),
    )
    .unwrap();
    assert_eq!(partial.source_config(), None);
    assert_eq!(partial.item_count(), 0);
}

#[test]
fn snapshot_contents_must_match_the_markers() {
    let accepted = accept_snapshot_contents(
        accepted_snapshot(),
        Ok(2),
        Ok(vec![("/walls/a.jpg".into(), "unknown".into())]),
    )
    .unwrap();
    assert_eq!(accepted.item_count(), 2);
    let refused = accept_snapshot_contents(
        accepted_snapshot(),
        Ok(3),
        Ok(vec![("/walls/a.jpg".into(), "gone".into())]),
    );
    assert_eq!(
        refused.unwrap_err().to_string(),
        "invalid scan snapshot: scan item count changed during validation"
    );
    let refused = accept_snapshot_contents(
        accepted_snapshot(),
        Ok(2),
        Ok(vec![("/walls/a.jpg".into(), "gone".into())]),
    );
    assert_eq!(
        refused.unwrap_err().to_string(),
        "invalid scan snapshot: invalid prior-path presence value"
    );
}
