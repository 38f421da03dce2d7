use wc_storage::error::WcError;
use wc_storage::sqlite::library_browser::{
    browser_count_sql, browser_order_by, browser_page_limit, browser_predicate,
    browser_query_fingerprint, browser_sort_key, browser_type_condition, browser_type_key,
    check_cursor_position, check_cursor_version, count_to_total, escape_like_term,
    exact_total_without_database, hex_decode, hex_encode, next_browser_cursor,
    normalized_browser_search, push_browser_param, split_browser_page, BrowserCursorBoundary,
    BrowserCursorV1, SqlValue, MAX_BROWSER_PAGE_SIZE,
};
use wc_storage::sqlite::{
    LibraryBrowserItem, LibraryBrowserQuery, LibraryBrowserSort, LibraryBrowserType,
};
use wc_storage::types::{Backend, FileType, WallpaperEntry};
use wc_storage::sqlite::library_browser::hydration_sql;
use wc_storage::sqlite::library_browser::group_sources_by_item;
use wc_storage::sqlite::library_browser::browser_item_from_row;
use wc_storage::sqlite::row_map::StoredWallpaperRow;

fn fnv1a_hex(text: &str) -> String {
    let mut hash: u64 = 0xcbf29ce484222325;
    for b in text.as_bytes() {
        hash ^= *b as u64;
        hash = hash.wrapping_mul(0x100000001b3);
    }
    format!("{hash:016x}")
}

fn item(id: i64, path: &str, added_at: &str) -> LibraryBrowserItem {
    LibraryBrowserItem {
        wallpaper_id: id,
        entry: WallpaperEntry {
            path: path.to_string(),
            file_type: FileType::Image,
            ext: "jpg".into(),
            backend: Backend::Awww,
            size: 1,
            mtime: 1,
            resolution: "1x1".into(),
            project: None,
        },
        favorite: false,
        author: None,
        added_at: added_at.to_string(),
        sources: Vec::new(),
    }
}

#[test]
fn hex_tokens_round_trip_and_malformed_ones_are_refused() {
    let bytes = vec![0u8, 1, 0xab, 0xff, 0x10];
    let token = hex_encode(&bytes);
    assert_eq!(token, "0001abff10");
    assert_eq!(hex_decode(&token).unwrap(), bytes);
    assert_eq!(hex_decode("ABff").unwrap(), vec![0xab, 0xff]);
    assert_eq!(hex_decode("").unwrap(), Vec::<u8>::new());
    assert!(matches!(
        hex_decode("not-hex"),
        Err(WcError::InvalidCursor { reason: "malformed token" })
    ));
    assert!(matches!(
        hex_decode("abc"),
        Err(WcError::InvalidCursor { reason: "malformed token" })
    ));
    let long = "0".repeat(8194);
    assert!(matches!(
        hex_decode(&long),
        Err(WcError::InvalidCursor { reason: "token too long" })
    ));
}

#[test]
fn like_terms_escape_metacharacters_and_backslash() {
    assert_eq!(escape_like_term("%_back\\slash"), "%\\%\\_back\\\\slash%");
    assert_eq!(escape_like_term("artist's"), "%artist's%");
    assert_eq!(escape_like_term(""), "%%");
}

#[test]
fn fingerprint_hashes_the_criteria_and_ignores_paging() {
    let query = LibraryBrowserQuery::default();
    assert_eq!(
        browser_query_fingerprint(&query),
        fnv1a_hex("source=None\ntype=usable\nfavorite=false\nsearch=\nsort=recently_added")
    );
    let mut paged = query.clone();
    paged.cursor = Some("00".into());
    paged.limit = 7;
    paged.search = "  ".into();
    assert_eq!(
        browser_query_fingerprint(&paged),
        browser_query_fingerprint(&query)
    );
    let mut other = query.clone();
    other.source_id = Some(-3);
    other.type_filter = LibraryBrowserType::Video;
    other.favorites_only = true;
    other.search = " Ocean   Mira ".into();
    other.sort = LibraryBrowserSort::NameDesc;
    assert_eq!(
        browser_query_fingerprint(&other),
        fnv1a_hex("source=Some(-3)\ntype=video\nfavorite=true\nsearch=Ocean Mira\nsort=name_desc")
    );
    assert_ne!(
        browser_query_fingerprint(&other),
        browser_query_fingerprint(&query)
    );
}

#[test]
fn search_text_is_normalized_to_single_spaces() {
    assert_eq!(normalized_browser_search("  a \t b\u{3000}c "), "a b c");
    assert_eq!(normalized_browser_search(""), "");
}

#[test]
fn keys_and_conditions_name_each_choice() {
    assert_eq!(browser_type_key(LibraryBrowserType::WeScene), "we_scene");
    assert_eq!(browser_sort_key(LibraryBrowserSort::NameAsc), "name_asc");
    assert_eq!(
        browser_type_condition(LibraryBrowserType::Unsupported),
        "w.type IN ('we_web', 'unsupported')"
    );
    assert_eq!(
        browser_order_by(LibraryBrowserSort::RecentlyAdded),
        "w.added_at DESC, w.id DESC"
    );
}

#[test]
fn predicate_binds_source_then_search_words_in_order() {
    let query = LibraryBrowserQuery {
        source_id: Some(12),
        type_filter: LibraryBrowserType::Image,
        favorites_only: true,
        search: "ab forest".into(),
        ..LibraryBrowserQuery::default()
    };
    let with_fts = browser_predicate(&query, true);
    assert_eq!(
        with_fts.params,
        vec![
            SqlValue::Integer(12),
            SqlValue::Text("%ab%".into()),
            SqlValue::Text("\"forest\"".into()),
            SqlValue::Text("%forest%".into()),
        ]
    );
    assert!(with_fts.where_sql.starts_with("WHERE EXISTS ("));
    assert!(with_fts.where_sql.contains("w.type = 'image'"));
    assert!(with_fts.where_sql.contains("selected_membership.source_id = ?1"));
    assert!(with_fts.where_sql.contains("favorite_filter.path = w.path"));
    assert!(with_fts.where_sql.contains("MATCH ?3"));
    assert!(with_fts.where_sql.contains("LIKE ?4 ESCAPE"));

    let without_fts = browser_predicate(&query, false);
    assert_eq!(
        without_fts.params,
        vec![
            SqlValue::Integer(12),
            SqlValue::Text("%ab%".into()),
            SqlValue::Text("%forest%".into()),
        ]
    );
    assert!(!without_fts.where_sql.contains("MATCH"));
    assert_eq!(
        browser_count_sql(&without_fts),
        format!("SELECT COUNT(*) FROM wallpapers w {}", without_fts.where_sql)
    );
}

#[test]
fn placeholders_count_bound_parameters() {
    let mut params = Vec::new();
    assert_eq!(push_browser_param(&mut params, SqlValue::Integer(5)), "?1");
    assert_eq!(push_browser_param(&mut params, SqlValue::Text("x".into())), "?2");
    assert_eq!(params.len(), 2);
}

#[test]
fn page_limit_is_capped() {
    assert_eq!(browser_page_limit(20), 20);
    assert_eq!(browser_page_limit(MAX_BROWSER_PAGE_SIZE + 10), MAX_BROWSER_PAGE_SIZE);
    assert_eq!(browser_page_limit(MAX_BROWSER_PAGE_SIZE), MAX_BROWSER_PAGE_SIZE);
    assert_eq!(count_to_total(-1), 0);
    assert_eq!(count_to_total(42), 42);
}

#[test]
fn cursors_must_match_version_revision_and_query() {
    let cursor = BrowserCursorV1 {
        version: 1,
        revision: 9,
        fingerprint: "abc".into(),
        boundary: BrowserCursorBoundary::RecentlyAdded {
            added_at: "2025-01-01".into(),
            id: 3,
        },
    };
    assert!(check_cursor_position(&cursor, 9, "abc").is_ok());
    assert!(matches!(
        check_cursor_position(&cursor, 10, "abc"),
        Err(WcError::RevisionChanged {
            expected: 9,
            observed: 10
        })
    ));
    assert!(matches!(
        check_cursor_position(&cursor, 9, "different"),
        Err(WcError::RevisionChanged {
            expected: 9,
            observed: 9
        })
    ));
    assert!(check_cursor_version(cursor.clone()).is_ok());
    let mut future = cursor;
    future.version = 2;
    assert!(matches!(
        check_cursor_version(future),
        Err(WcError::InvalidCursor {
            reason: "unsupported version"
        })
    ));
    assert!(exact_total_without_database(0).unwrap().total == 0);
    assert!(matches!(
        exact_total_without_database(4),
        Err(WcError::RevisionChanged {
            expected: 4,
            observed: 0
        })
    ));
}

#[test]
fn a_page_with_more_rows_yields_a_cursor_at_its_last_item() {
    let rows = vec![
        item(1, "/walls/a.jpg", "2025-01-03"),
        item(2, "/walls/b.jpg", "2025-01-02"),
        item(3, "/walls/c.jpg", "2025-01-01"),
    ];
    let (page, has_more) = split_browser_page(rows, 2);
    assert!(has_more);
    assert_eq!(page.len(), 2);
    let cursor =
        next_browser_cursor(LibraryBrowserSort::RecentlyAdded, 5, "fp", &page, has_more).unwrap();
    assert_eq!(cursor.version, 1);
    assert_eq!(cursor.revision, 5);
    assert_eq!(cursor.fingerprint, "fp");
    match cursor.boundary {
        BrowserCursorBoundary::RecentlyAdded { added_at, id } => {
            assert_eq!(added_at, "2025-01-02");
            assert_eq!(id, 2);
        }
        other => panic!("unexpected boundary {other:?}"),
    }
    let name_cursor =
        next_browser_cursor(LibraryBrowserSort::NameAsc, 5, "fp", &page, true).unwrap();
    match name_cursor.boundary {
        BrowserCursorBoundary::NameAsc { name, path, id } => {
            assert_eq!(name, "b.jpg");
            assert_eq!(path, "/walls/b.jpg");
            assert_eq!(id, 2);
        }
        other => panic!("unexpected boundary {other:?}"),
    }
    let (last, more) = split_browser_page(page, 5);
    assert!(!more);
    assert!(next_browser_cursor(LibraryBrowserSort::RecentlyAdded, 5, "fp", &last, more).is_none());
}

#[test]
fn hydration_binds_one_placeholder_per_item() {
    assert_eq!(
        hydration_sql(3),
        "SELECT membership.wallpaper_id, source.id, source.display_name\n         FROM wallpaper_sources membership\n         JOIN sources source ON source.id = membership.source_id\n         WHERE membership.wallpaper_id IN (?1, ?2, ?3)\n         ORDER BY membership.wallpaper_id ASC, source.id ASC"
    );
    assert!(hydration_sql(1).contains("IN (?1)\n"));
    assert!(hydration_sql(12).contains("?11, ?12)"));
}

#[test]
fn sources_attach_to_their_wallpaper_in_row_order() {
    let rows = vec![
        (1, 10, "Alpha".to_string()),
        (1, 11, "Beta".to_string()),
        (3, 10, "Alpha".to_string()),
    ];
    let grouped = group_sources_by_item(&vec![3, 2, 1, 3], &rows);
    assert_eq!(grouped.len(), 4);
    let names = |i: usize| -> Vec<(i64, String)> {
        grouped[i]
            .iter()
            .map(|s| (s.id, s.display_name.clone()))
            .collect()
    };
    assert_eq!(names(0), vec![(10, "Alpha".to_string())]);
    assert_eq!(names(1), Vec::<(i64, String)>::new());
    assert_eq!(
        names(2),
        vec![(10, "Alpha".to_string()), (11, "Beta".to_string())]
    );
    // A repeated id got its sources at its first occurrence.
    assert_eq!(names(3), Vec::<(i64, String)>::new());
}

#[test]
fn page_rows_become_items_without_sources() {
    let row = StoredWallpaperRow {
        path: "/walls/a.jpg".into(),
        file_type: "image".into(),
        ext: "jpg".into(),
        backend: "awww".into(),
        size: 10,
        mtime: 20,
        resolution: "1x1".into(),
        project_type: String::new(),
        preview_path: String::new(),
        workshop_id: String::new(),
        title: String::new(),
        we_file: String::new(),
        unsupported_reason: String::new(),
    };
    let item = browser_item_from_row(row, 41, true, String::new(), "2025-01-01".into());
    assert_eq!(item.wallpaper_id, 41);
    assert!(item.favorite);
    assert_eq!(item.author, None);
    assert_eq!(item.added_at, "2025-01-01");
    assert!(item.sources.is_empty());
    assert_eq!(item.entry.path, "/walls/a.jpg");
    let mut row2 = StoredWallpaperRow {
        path: "/walls/b.jpg".into(),
        ..item_row_template()
    };
    row2.size = 3;
    let named = browser_item_from_row(row2, 2, false, "Mira".into(), String::new());
    assert_eq!(named.author, Some("Mira".to_string()));
    assert_eq!(named.entry.size, 3);
}

fn item_row_template() -> wc_storage::sqlite::row_map::StoredWallpaperRow {
    wc_storage::sqlite::row_map::StoredWallpaperRow {
        path: String::new(),
        file_type: "video".into(),
        ext: "mp4".into(),
        backend: "mpvpaper".into(),
        size: 0,
        mtime: 0,
        resolution: String::new(),
        project_type: String::new(),
        preview_path: String::new(),
        workshop_id: String::new(),
        title: String::new(),
        we_file: String::new(),
        unsupported_reason: String::new(),
    }
}
