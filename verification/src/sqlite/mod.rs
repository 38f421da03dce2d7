//! SQLite storage logic: the SQL text the storage layer runs, the rules it
//! applies to what SQLite returns, and the decisions between statements.

pub mod backup;
pub mod connection;
pub mod display_state;
pub mod flat_import;
pub mod legacy;
pub mod library_browser;
pub mod library_fts;
pub mod library_page;
pub mod library_revision;
pub mod row_map;
pub mod scan_snapshot;
pub mod schema;
pub mod schema_format;
pub mod schema_probe;
pub mod source_migration;
pub mod timestamp;
pub mod tsv_import;

pub use backup::VerifyResult;
pub use connection::RUNTIME_BUSY_TIMEOUT_MS;
pub use display_state::{
    DisplayStateRow, DisplayStateTarget, ALL_DISPLAYS_TARGET_KEY,
    LEGACY_DISPLAY_STATE_MIGRATED_META_KEY,
};
pub use legacy::sqlite_escape;
pub use library_browser::{
    LibraryBrowserItem, LibraryBrowserPage, LibraryBrowserQuery, LibraryBrowserSort,
    LibraryBrowserSource, LibraryBrowserTotal, LibraryBrowserType,
};
pub use library_fts::library_fts_match_term;
pub use library_page::{LibraryFilter, LibraryPage, LibraryPageQuery, LibrarySort};
pub use library_revision::{LibraryRevisionObserver, LIBRARY_REVISION_KEY};
pub use row_map::wallpaper_entry_from_row;
pub use scan_snapshot::{
    ScanSnapshotError, SnapshotPathPresence, ValidatedScanSnapshot, SCAN_SNAPSHOT_FORMAT_VERSION,
};
pub use schema::{normalize_schema_fragment, CURRENT_SCHEMA_VERSION, FTS_SCHEMA_VERSION};
pub use timestamp::{chrono_now, chrono_now_compact, civil_from_days};
