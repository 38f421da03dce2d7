use wc_storage::error::WcError;
use wc_storage::sqlite::schema::{
    column_upgrade_statements, fts_rebuild_needed, source_v2_columns, wallpaper_metadata_columns, wallpaper_v3_columns,
};
use wc_storage::sqlite::schema::{
    check_schema_not_newer, check_search_table, check_table_definition,
    current_persistent_tables, migration_plan, normalize_schema_fragment, warm_start_ready,
    CURRENT_SCHEMA_VERSION,
};

#[test]
fn schema_normalization_ignores_formatting_and_comments_but_not_constraint_tokens() {
    let canonical = "CREATE TABLE sample (type TEXT CHECK (type IN ('image', 'video')))";
    let formatted =
        "create table sample(type text CHECK/**/(type IN ('image','video'))) -- harmless\n";
    let narrowed = "create table sample(type text CHECK/**/(type = 'image'))";

    assert_eq!(
        normalize_schema_fragment(canonical),
        normalize_schema_fragment(formatted)
    );
    assert_ne!(
        normalize_schema_fragment(canonical),
        normalize_schema_fragment(narrowed)
    );
}

#[test]
fn normalized_tokens_are_space_separated_and_words_lower_cased() {
    assert_eq!(
        normalize_schema_fragment("CREATE TABLE t(a INT)"),
        "create table t ( a int )"
    );
    // Quoted text keeps its case and doubled quotes; brackets stay one token.
    assert_eq!(
        normalize_schema_fragment("DEFAULT 'It''s' [Odd Name]"),
        "default 'It''s' [Odd Name]"
    );
    assert_eq!(normalize_schema_fragment("  -- only a comment"), "");
    assert_eq!(normalize_schema_fragment("a /* never closed"), "a");
    // Unicode white space separates tokens like ASCII white space does.
    assert_eq!(normalize_schema_fragment("a\u{3000}b"), "a b");
}

#[test]
fn future_schema_versions_are_rejected_with_both_versions() {
    assert!(check_schema_not_newer(CURRENT_SCHEMA_VERSION).is_ok());
    assert!(check_schema_not_newer(0).is_ok());
    match check_schema_not_newer(CURRENT_SCHEMA_VERSION + 1) {
        Err(WcError::SchemaTooNew {
            supported,
            observed,
        }) => {
            assert_eq!(supported, 6);
            assert_eq!(observed, 7);
        }
        other => panic!("expected SchemaTooNew, got {other:?}"),
    }
    let err = check_schema_not_newer(7).unwrap_err();
    assert_eq!(
        err.to_string(),
        "database schema version 7 is newer than supported version 6"
    );
}

#[test]
fn migration_plan_depends_on_version() {
    assert_eq!(migration_plan(0), (true, true));
    assert_eq!(migration_plan(2), (false, true));
    assert_eq!(migration_plan(6), (false, false));
    assert!(warm_start_ready(6));
    assert!(!warm_start_ready(5));
    assert!(!warm_start_ready(7));
}

#[test]
fn persistent_tables_are_listed_in_copy_order() {
    assert_eq!(
        current_persistent_tables(),
        vec![
            "config",
            "sources",
            "wallpapers",
            "wallpaper_sources",
            "favorites",
            "history",
            "state",
            "display_state",
            "source_refresh_state",
            "db_meta",
        ]
    );
}

#[test]
fn wallpapers_table_accepts_the_migrated_added_at_default_only() {
    let expected = normalize_schema_fragment(
        "CREATE TABLE wallpapers (id INTEGER PRIMARY KEY, added_at TEXT NOT NULL DEFAULT (datetime('now')))",
    );
    let migrated = normalize_schema_fragment(
        "CREATE TABLE wallpapers (id INTEGER PRIMARY KEY, added_at TEXT NOT NULL DEFAULT '')",
    );
    assert!(check_table_definition("wallpapers", &expected, &expected).is_ok());
    assert!(check_table_definition("wallpapers", &expected, &migrated).is_ok());
    let err = check_table_definition("favorites", &expected, &migrated).unwrap_err();
    match err {
        WcError::Other(m) => assert_eq!(
            m,
            "current schema table favorites definition differs from the current schema"
        ),
        other => panic!("unexpected {other:?}"),
    }
}

#[test]
fn search_table_definition_must_match_exactly() {
    assert!(check_search_table("a b", "a b").is_ok());
    assert!(matches!(
        check_search_table("a b", "a c"),
        Err(WcError::Other(m)) if m == "current schema has an invalid wallpapers_fts virtual table definition"
    ));
}

#[test]
fn missing_columns_are_added_once_in_order() {
    let existing = vec!["id".to_string(), "path".to_string(), "kind".to_string()];
    let statements = column_upgrade_statements("sources", &existing, &source_v2_columns());
    assert_eq!(
        statements,
        vec![
            "ALTER TABLE sources ADD COLUMN display_name TEXT NOT NULL DEFAULT '';".to_string(),
            "ALTER TABLE sources ADD COLUMN recursive INTEGER NOT NULL DEFAULT 1 CHECK (recursive IN (0, 1));".to_string(),
            "ALTER TABLE sources ADD COLUMN availability TEXT NOT NULL DEFAULT 'unknown' CHECK (availability IN ('unknown', 'available', 'offline'));".to_string(),
        ]
    );
    let mut upgraded = existing.clone();
    upgraded.extend(["display_name", "recursive", "availability"].map(String::from));
    assert!(column_upgrade_statements("sources", &upgraded, &source_v2_columns()).is_empty());
    assert_eq!(wallpaper_metadata_columns().len(), 6);
    assert_eq!(
        column_upgrade_statements("wallpapers", &vec!["author".to_string()], &wallpaper_v3_columns()).len(),
        1
    );
}

#[test]
fn search_index_is_rebuilt_unless_marked_current() {
    assert!(fts_rebuild_needed(None));
    assert!(fts_rebuild_needed(Some("1".into())));
    assert!(!fts_rebuild_needed(Some("2".into())));
}

#[test]
fn one_more_space_between_tokens_leaves_the_normal_form() {
    let base = "CREATE TABLE t (id INTEGER PRIMARY KEY, name TEXT DEFAULT 'a  b')";
    let spaced = "CREATE  TABLE t ( id INTEGER\tPRIMARY KEY, name TEXT DEFAULT\n'a  b')";
    assert_eq!(normalize_schema_fragment(base), normalize_schema_fragment(spaced));
    assert_eq!(
        normalize_schema_fragment(base),
        "create table t ( id integer primary key , name text default 'a  b' )"
    );
    // White space inside a quoted token is part of the token.
    assert_ne!(
        normalize_schema_fragment(base),
        normalize_schema_fragment("CREATE TABLE t (id INTEGER PRIMARY KEY, name TEXT DEFAULT 'a b')")
    );
}

#[test]
fn letter_case_of_words_leaves_the_normal_form() {
    let lower = "create table t (id integer primary key, name text default 'Ab')";
    let upper = "CREATE TABLE T (ID INTEGER PRIMARY KEY, NAME TEXT DEFAULT 'Ab')";
    assert_eq!(normalize_schema_fragment(lower), normalize_schema_fragment(upper));
    assert_eq!(
        normalize_schema_fragment("a -- Note\nb /* Why */"),
        normalize_schema_fragment("A -- NOTE\nB /* wHY */")
    );
    // Letters inside a quoted or bracketed token keep their case.
    assert_ne!(
        normalize_schema_fragment("DEFAULT 'Ab'"),
        normalize_schema_fragment("DEFAULT 'ab'")
    );
    assert_ne!(
        normalize_schema_fragment("[Odd Name]"),
        normalize_schema_fragment("[odd name]")
    );
}

#[test]
fn comments_between_tokens_leave_the_normal_form() {
    let base = "CREATE TABLE t (id INTEGER, name TEXT)";
    let with_line = "-- header\nCREATE TABLE t ( -- key\nid INTEGER, name TEXT)";
    let with_block = "/* header */CREATE TABLE t ( /* key */id INTEGER, name TEXT)";
    assert_eq!(normalize_schema_fragment(base), normalize_schema_fragment(with_line));
    assert_eq!(normalize_schema_fragment(base), normalize_schema_fragment(with_block));
    // Right after a token, with no white space before the comment.
    let tight = "CREATE TABLE t(--key\nid INTEGER/* int */, name TEXT)/**/";
    assert_eq!(normalize_schema_fragment(base), normalize_schema_fragment(tight));
    // A `-` followed by a line comment becomes part of the comment.
    assert_ne!(
        normalize_schema_fragment("a - b"),
        normalize_schema_fragment("a ---x\n b")
    );
    // Inside a quoted token, comment marks are text.
    assert_ne!(
        normalize_schema_fragment("DEFAULT 'a'"),
        normalize_schema_fragment("DEFAULT '/* x */a'")
    );
}
