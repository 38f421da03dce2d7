//! Runtime connections: how long a statement waits for a lock, where the
//! lock files live, and which databases a runtime connection may open.

use vstd::prelude::*;

use crate::error::WcError;
use crate::text::{append_str, i64_to_decimal, signed_decimal};

verus! {

/// How long a runtime statement waits for SQLite's lock, in milliseconds.
pub const RUNTIME_BUSY_TIMEOUT_MS: u64 = 5000;

/// The lock file that maintenance holds exclusively and ordinary access
/// holds shared, inside the configuration directory.
pub const MAINTENANCE_LOCK_FILE: &'static str = ".wallpapers.db.maintenance.lock";

/// The lock file that serializes schema bootstrap and migration.
pub const SCHEMA_LOCK_FILE: &'static str = ".wallpapers.db.schema.lock";

/// A runtime connection refuses a database written by a newer build.
pub fn check_runtime_schema_version(schema_version: i64, supported: i64) -> (r: Result<(), WcError>)
    ensures
        schema_version <= supported ==> r is Ok,
        schema_version > supported ==> (r matches Err(WcError::Sqlite(m)) && m@
            == "database schema version "@ + signed_decimal(schema_version as int)
            + " is newer than supported version "@ + signed_decimal(supported as int)),
{
    if schema_version > supported {
        let mut m = String::new();
        append_str(&mut m, "database schema version ");
        append_str(&mut m, i64_to_decimal(schema_version).as_str());
        append_str(&mut m, " is newer than supported version ");
        append_str(&mut m, i64_to_decimal(supported).as_str());
        return Err(WcError::Sqlite(m));
    }
    Ok(())
}

/// The error for a runtime open without a database file.
pub fn database_not_found(db_path: &str) -> (r: WcError)
    ensures
        r matches WcError::Sqlite(m) && m@ == "database not found: "@ + db_path@,
{
    let mut m = String::new();
    append_str(&mut m, "database not found: ");
    append_str(&mut m, db_path);
    WcError::Sqlite(m)
}

} // verus!
