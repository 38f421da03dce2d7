//! The write-time probe of the current schema: names of the throw-away rows
//! it writes inside a rolled-back transaction, and what each observation
//! must be for the schema's constraints, defaults and triggers to hold.

use vstd::prelude::*;

use crate::error::{is_other_error, other_error, WcError};
use crate::text::{append_str, decimal, u64_to_decimal};

verus! {

/// The probe's wallpaper path, source path and the two search tokens, for a
/// process id and a counter.
pub open spec fn probe_names_text(pid: nat, counter: nat) -> (Seq<char>, Seq<char>, Seq<char>, Seq<char>) {
    (
        "/__wc_schema_validation_"@ + decimal(pid) + "_"@ + decimal(counter) + ".jpg"@,
        "/__wc_schema_validation_source_"@ + decimal(pid) + "_"@ + decimal(counter),
        "wcschemainsert"@ + decimal(pid) + decimal(counter),
        "wcschemaupdate"@ + decimal(pid) + decimal(counter),
    )
}

pub fn probe_names(pid: u32, counter: u64) -> (r: (String, String, String, String))
    ensures
        (r.0@, r.1@, r.2@, r.3@) == probe_names_text(pid as nat, counter as nat),
{
    let p = u64_to_decimal(pid as u64);
    let c = u64_to_decimal(counter);
    let mut path = String::new();
    append_str(&mut path, "/__wc_schema_validation_");
    append_str(&mut path, p.as_str());
    append_str(&mut path, "_");
    append_str(&mut path, c.as_str());
    append_str(&mut path, ".jpg");
    let mut source = String::new();
    append_str(&mut source, "/__wc_schema_validation_source_");
    append_str(&mut source, p.as_str());
    append_str(&mut source, "_");
    append_str(&mut source, c.as_str());
    let mut inserted = String::new();
    append_str(&mut inserted, "wcschemainsert");
    append_str(&mut inserted, p.as_str());
    append_str(&mut inserted, c.as_str());
    let mut updated = String::new();
    append_str(&mut updated, "wcschemaupdate");
    append_str(&mut updated, p.as_str());
    append_str(&mut updated, c.as_str());
    (path, source, inserted, updated)
}

fn failure(message: &str) -> (r: Result<(), WcError>)
    ensures
        is_other_error(r, message@),
{
    Err(other_error(message))
}

/// No stored source may carry a kind, recursion flag or availability
/// outside its domain.
pub fn check_typed_sources(invalid_sources: i64) -> (r: Result<(), WcError>)
    ensures
        invalid_sources == 0 ==> r is Ok,
        invalid_sources != 0 ==> is_other_error(r, "current schema contains invalid typed source values"@),
{
    if invalid_sources != 0 {
        return failure("current schema contains invalid typed source values");
    }
    Ok(())
}

/// The supported source value combinations, in the order they are tried:
/// every kind, recursion flag and availability.
pub fn supported_source_combinations() -> (r: Vec<(&'static str, i64, &'static str)>)
    ensures
        r@.len() == 12,
        forall|i: int| 0 <= i < 12 ==> {
            &&& (#[trigger] r@[i]).0@ == if i < 6 {
                "directory"@
            } else {
                "wallpaper_engine_workshop"@
            }
            &&& r@[i].1 == (i / 3) % 2
            &&& r@[i].2@ == if i % 3 == 0 {
                "unknown"@
            } else if i % 3 == 1 {
                "available"@
            } else {
                "offline"@
            }
        },
{
    let mut v: Vec<(&'static str, i64, &'static str)> = Vec::new();
    v.push(("directory", 0, "unknown"));
    v.push(("directory", 0, "available"));
    v.push(("directory", 0, "offline"));
    v.push(("directory", 1, "unknown"));
    v.push(("directory", 1, "available"));
    v.push(("directory", 1, "offline"));
    v.push(("wallpaper_engine_workshop", 0, "unknown"));
    v.push(("wallpaper_engine_workshop", 0, "available"));
    v.push(("wallpaper_engine_workshop", 0, "offline"));
    v.push(("wallpaper_engine_workshop", 1, "unknown"));
    v.push(("wallpaper_engine_workshop", 1, "available"));
    v.push(("wallpaper_engine_workshop", 1, "offline"));
    v
}

/// A supported combination that the schema refused, quoting SQLite.
pub fn rejected_combination(sqlite_message: &str) -> (r: WcError)
    ensures
        r matches WcError::Other(m) && m@
            == "current schema rejects a supported source value combination: "@ + sqlite_message@,
{
    crate::error::other_error_with(
        "current schema rejects a supported source value combination: ",
        sqlite_message,
    )
}

/// The out-of-domain updates tried on a probe source, by column.
pub fn invalid_source_updates() -> (r: Vec<(&'static str, &'static str)>)
    ensures
        r@.len() == 3,
        r@[0].0@ == "kind"@,
        r@[0].1@ == "UPDATE sources SET kind = '__invalid__' WHERE id = ?1"@,
        r@[1].0@ == "recursive"@,
        r@[1].1@ == "UPDATE sources SET recursive = 2 WHERE id = ?1"@,
        r@[2].0@ == "availability"@,
        r@[2].1@ == "UPDATE sources SET availability = '__invalid__' WHERE id = ?1"@,
{
    let mut v: Vec<(&'static str, &'static str)> = Vec::new();
    v.push(("kind", "UPDATE sources SET kind = '__invalid__' WHERE id = ?1"));
    v.push(("recursive", "UPDATE sources SET recursive = 2 WHERE id = ?1"));
    v.push(("availability", "UPDATE sources SET availability = '__invalid__' WHERE id = ?1"));
    v
}

/// An out-of-domain update must fail.
pub fn check_domain_enforced(column: &str, update_succeeded: bool) -> (r: Result<(), WcError>)
    ensures
        !update_succeeded ==> r is Ok,
        update_succeeded ==> is_other_error(
            r,
            "current schema does not enforce the sources."@ + column@ + " value domain"@,
        ),
{
    if update_succeeded {
        let mut m = String::new();
        append_str(&mut m, "current schema does not enforce the sources.");
        append_str(&mut m, column);
        append_str(&mut m, " value domain");
        return Err(WcError::Other(m));
    }
    Ok(())
}

/// Row ids must keep growing after a delete (`AUTOINCREMENT`).
pub fn check_monotonic_source_id(previous: i64, next: i64) -> (r: Result<(), WcError>)
    ensures
        next > previous ==> r is Ok,
        next <= previous ==> is_other_error(r, "current schema does not preserve monotonic source identities"@),
{
    if next <= previous {
        return failure("current schema does not preserve monotonic source identities");
    }
    Ok(())
}

pub fn check_monotonic_wallpaper_id(previous: i64, next: i64) -> (r: Result<(), WcError>)
    ensures
        next > previous ==> r is Ok,
        next <= previous ==> is_other_error(r, "current schema does not preserve monotonic wallpaper identities"@),
{
    if next <= previous {
        return failure("current schema does not preserve monotonic wallpaper identities");
    }
    Ok(())
}

/// The text after the last `/` of a path (the whole path when it has none).
pub open spec fn last_segment(path: Seq<char>) -> Seq<char>
    decreases path.len(),
{
    if path.len() == 0 {
        Seq::empty()
    } else if path.last() == '/' {
        Seq::empty()
    } else {
        last_segment(path.drop_last()).push(path.last())
    }
}

pub fn last_path_segment(path: &str) -> (r: String)
    ensures
        r@ == last_segment(path@),
{
    let v = crate::text::chars_of(path);
    let mut start: usize = v.len();
    assert(v@.take(start as int) == v@);
    assert(v@.subrange(start as int, v@.len() as int) =~= Seq::<char>::empty());
    assert(last_segment(v@) + Seq::<char>::empty() == last_segment(v@));
    while start > 0 && v[start - 1] != '/'
        invariant
            start <= v@.len(),
            v@ == path@,
            last_segment(path@) == last_segment(v@.take(start as int)) + v@.subrange(start as int, v@.len() as int),
        decreases start,
    {
        assert(v@.take(start as int).drop_last() == v@.take(start - 1));
        assert(v@.take(start as int).last() == v@[start - 1]);
        assert(v@.subrange(start - 1, v@.len() as int) == seq![v@[start - 1]] + v@.subrange(start as int, v@.len() as int));
        start = start - 1;
    }
    proof {
        if start > 0 {
            assert(v@.take(start as int).last() == v@[start - 1]);
        }
        assert(last_segment(v@.take(start as int)) =~= Seq::<char>::empty());
    }
    crate::text::string_from_subrange(&v, start, v.len())
}

/// A new wallpaper row must get an `added_at` time.
pub fn check_added_at(added_at: &str) -> (r: Result<(), WcError>)
    ensures
        added_at@.len() > 0 ==> r is Ok,
        added_at@.len() == 0 ==> is_other_error(r, "current schema does not populate wallpapers.added_at"@),
{
    if added_at.is_empty() {
        return failure("current schema does not populate wallpapers.added_at");
    }
    Ok(())
}

/// A new wallpaper row must have an empty author and the file name that its
/// path ends with.
pub fn check_defaults(path: &str, author: &str, filename: &str) -> (r: Result<(), WcError>)
    ensures
        (author@.len() == 0 && filename@ == last_segment(path@)) ==> r is Ok,
        !(author@.len() == 0 && filename@ == last_segment(path@)) ==> is_other_error(
            r,
            "current schema does not default author or derive filename"@,
        ),
{
    let expected = last_path_segment(path);
    if !author.is_empty() || !crate::text::str_eq(filename, expected.as_str()) {
        return failure("current schema does not default author or derive filename");
    }
    Ok(())
}

/// The inserted wallpaper must be found once by its title token.
pub fn check_inserted_indexed(matches: i64) -> (r: Result<(), WcError>)
    ensures
        matches == 1 ==> r is Ok,
        matches != 1 ==> is_other_error(r, "current schema does not index inserted wallpapers"@),
{
    if matches != 1 {
        return failure("current schema does not index inserted wallpapers");
    }
    Ok(())
}

/// A second row with the same path must be refused.
pub fn check_unique_paths(duplicate_inserted: bool) -> (r: Result<(), WcError>)
    ensures
        !duplicate_inserted ==> r is Ok,
        duplicate_inserted ==> is_other_error(r, "current schema does not enforce unique wallpaper paths"@),
{
    if duplicate_inserted {
        return failure("current schema does not enforce unique wallpaper paths");
    }
    Ok(())
}

/// After a title update, only the new token may find the row.
pub fn check_updated_indexed(old_matches: i64, new_matches: i64) -> (r: Result<(), WcError>)
    ensures
        (old_matches == 0 && new_matches == 1) ==> r is Ok,
        !(old_matches == 0 && new_matches == 1) ==> is_other_error(
            r,
            "current schema does not update wallpaper search rows"@,
        ),
{
    if old_matches != 0 || new_matches != 1 {
        return failure("current schema does not update wallpaper search rows");
    }
    Ok(())
}

/// After a delete, the row's token must find nothing.
pub fn check_deleted_unindexed(matches: i64) -> (r: Result<(), WcError>)
    ensures
        matches == 0 ==> r is Ok,
        matches != 0 ==> is_other_error(r, "current schema does not remove deleted wallpaper search rows"@),
{
    if matches != 0 {
        return failure("current schema does not remove deleted wallpaper search rows");
    }
    Ok(())
}

} // verus!
