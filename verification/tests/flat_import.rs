use wc_storage::error::WcError;
use wc_storage::sqlite::flat_import::{
    check_resync_source_count, database_already_exists, database_missing_for_flat_work,
    history_import_order, migration_not_published, resync_backup_extension, resync_missing_table,
    resync_required_tables,
};

fn s(items: &[&str]) -> Vec<String> {
    items.iter().map(|x| x.to_string()).collect()
}

#[test]
fn history_is_imported_oldest_first_once_per_path() {
    let lines = s(&["/walls/c.jpg", "/walls/./a.jpg", "/walls/b.jpg", "/walls/a.jpg"]);
    let keys = s(&["/walls/c.jpg", "/walls/a.jpg", "/walls/b.jpg", "/walls/a.jpg"]);
    assert_eq!(
        history_import_order(&lines, &keys),
        s(&["/walls/b.jpg", "/walls/./a.jpg", "/walls/c.jpg"])
    );
    assert_eq!(history_import_order(&Vec::new(), &Vec::new()), Vec::<String>::new());
}

#[test]
fn rebuild_checks_report_what_is_wrong() {
    assert!(check_resync_source_count(3, 3).is_ok());
    assert!(matches!(
        check_resync_source_count(2, 3),
        Err(WcError::Other(m)) if m == "resync: temp DB sources count (2) != flat (3) (original DB preserved)"
    ));
    assert!(matches!(
        check_resync_source_count(-1, 0),
        Err(WcError::Other(m)) if m == "resync: temp DB sources count (-1) != flat (0) (original DB preserved)"
    ));
    assert!(matches!(
        resync_missing_table("state"),
        WcError::Other(m) if m == "resync: table 'state' missing in temp DB (original DB preserved)"
    ));
    assert_eq!(
        resync_required_tables(),
        vec!["config", "sources", "favorites", "history", "state", "db_meta"]
    );
    assert_eq!(resync_backup_extension("20250101-000000"), "db.bak.20250101-000000");
    assert!(matches!(
        database_already_exists(),
        WcError::Other(m) if m == "database already exists. Remove it manually to re-migrate."
    ));
    assert!(matches!(
        database_missing_for_flat_work(),
        WcError::Other(m) if m == "wallpapers.db not found. Run migrate-to-sqlite first."
    ));
}

#[test]
fn an_import_is_not_published_over_a_newer_database() {
    let e = migration_not_published("/cfg/wallpapers.db");
    assert!(matches!(e, WcError::Other(_)));
    assert_eq!(
        e.to_string(),
        "database already exists; completed migration was not published: /cfg/wallpapers.db"
    );
}
