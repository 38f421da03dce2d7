//! Importing the runtime flat files into a new database: the order history
//! rows go in, and the checks a rebuilt database must pass before it may
//! replace the old one.

use vstd::prelude::*;

use crate::error::WcError;
use crate::flat::{dedupe_by_keys, first_by_key};
use crate::text::{append_str, i64_to_decimal, signed_decimal, views};

verus! {

/// History rows to insert: each canonical path once (the first line, which
/// is the newest, kept) and oldest first, so that the newest entry gets the
/// highest id. `keys[i]` is the canonical form of `lines[i]`.
pub fn history_import_order(lines: &Vec<String>, keys: &Vec<String>) -> (r: Vec<String>)
    requires
        keys@.len() == lines@.len(),
    ensures
        views(r@) == first_by_key(views(lines@), views(keys@)).reverse(),
{
    let kept = dedupe_by_keys(lines, keys);
    let ghost kv = views(kept@);
    let n = kept.len();
    let mut out: Vec<String> = Vec::new();
    let mut i: usize = 0;
    while i < n
        invariant
            i <= n == kept@.len(),
            kv == views(kept@),
            views(out@) == kv.reverse().take(i as int),
        decreases n - i,
    {
        let ghost before = views(out@);
        out.push(kept[n - 1 - i].clone());
        assert(views(out@) == before.push(kept@[n - 1 - i]@));
        assert(kv.reverse().take(i + 1) == kv.reverse().take(i as int).push(kv.reverse()[i as int]));
        i = i + 1;
    }
    assert(kv.reverse().take(n as int) == kv.reverse());
    out
}

/// Migrating refuses to overwrite an existing database.
pub fn database_already_exists() -> (e: WcError)
    ensures
        e matches WcError::Other(m) && m@
            == "database already exists. Remove it manually to re-migrate."@,
{
    crate::error::other_error("database already exists. Remove it manually to re-migrate.")
}

/// Rebuilding and exporting need an existing database.
pub fn database_missing_for_flat_work() -> (e: WcError)
    ensures
        e matches WcError::Other(m) && m@ == "wallpapers.db not found. Run migrate-to-sqlite first."@,
{
    crate::error::other_error("wallpapers.db not found. Run migrate-to-sqlite first.")
}

/// The tables a rebuilt database must hold before it replaces the old one.
pub fn resync_required_tables() -> (r: Vec<&'static str>)
    ensures
        r@.len() == 6,
        r@[0]@ == "config"@,
        r@[1]@ == "sources"@,
        r@[2]@ == "favorites"@,
        r@[3]@ == "history"@,
        r@[4]@ == "state"@,
        r@[5]@ == "db_meta"@,
{
    let mut v: Vec<&'static str> = Vec::new();
    v.push("config");
    v.push("sources");
    v.push("favorites");
    v.push("history");
    v.push("state");
    v.push("db_meta");
    v
}

/// A rebuilt database without a required table is discarded.
pub fn resync_missing_table(table: &str) -> (e: WcError)
    ensures
        e matches WcError::Other(m) && m@ == "resync: table '"@ + table@
            + "' missing in temp DB (original DB preserved)"@,
{
    let mut m = String::new();
    append_str(&mut m, "resync: table '");
    append_str(&mut m, table);
    append_str(&mut m, "' missing in temp DB (original DB preserved)");
    WcError::Other(m)
}

/// A rebuilt database must list as many sources as the flat file.
pub fn check_resync_source_count(db_count: i64, flat_count: i64) -> (r: Result<(), WcError>)
    ensures
        db_count == flat_count ==> r is Ok,
        db_count != flat_count ==> (r matches Err(WcError::Other(m)) && m@
            == "resync: temp DB sources count ("@ + signed_decimal(db_count as int) + ") != flat ("@
            + signed_decimal(flat_count as int) + ") (original DB preserved)"@),
{
    if db_count != flat_count {
        let mut m = String::new();
        append_str(&mut m, "resync: temp DB sources count (");
        append_str(&mut m, i64_to_decimal(db_count).as_str());
        append_str(&mut m, ") != flat (");
        append_str(&mut m, i64_to_decimal(flat_count).as_str());
        append_str(&mut m, ") (original DB preserved)");
        return Err(WcError::Other(m));
    }
    Ok(())
}

/// A finished import is not published over a database that another process
/// created meanwhile.
pub fn migration_not_published(final_path: &str) -> (e: WcError)
    ensures
        e matches WcError::Other(m) && m@
            == "database already exists; completed migration was not published: "@ + final_path@,
{
    crate::error::other_error_with(
        "database already exists; completed migration was not published: ",
        final_path,
    )
}

/// The extension of the copy kept before a rebuild: `db.bak.{timestamp}`.
pub fn resync_backup_extension(timestamp: &str) -> (r: String)
    ensures
        r@ == "db.bak."@ + timestamp@,
{
    let mut s = String::new();
    append_str(&mut s, "db.bak.");
    append_str(&mut s, timestamp);
    s
}

} // verus!
