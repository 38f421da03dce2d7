//! The rules of the unified storage API that do not depend on where the
//! data lives.

use vstd::prelude::*;

use crate::error::WcError;
use crate::text::{append_str, decimal, str_eq, u64_to_decimal};

verus! {

/// The storage backend is always SQLite; reading its configuration key
/// never consults stored configuration.
pub fn forced_config_value(key: &str) -> (r: Option<String>)
    ensures
        key@ == "storage_backend"@ ==> (r matches Some(v) && v@ == "sqlite"@),
        key@ != "storage_backend"@ ==> r is None,
{
    if str_eq(key, "storage_backend") {
        Some("sqlite".to_owned())
    } else {
        None
    }
}

/// A stored configuration value, or the caller's default when the key is
/// absent or could not be read.
pub fn config_value_or_default(stored: Option<String>, default: &str) -> (r: String)
    ensures
        match stored {
            Some(v) => r@ == v@,
            None => r@ == default@,
        },
{
    match stored {
        Some(v) => v,
        None => default.to_owned(),
    }
}

/// The renderer configuration keys, each with its default: images, GIFs
/// and videos.
pub fn backend_routing_keys() -> (r: Vec<(&'static str, &'static str)>)
    ensures
        r@.len() == 3,
        r@[0].0@ == "image_backend"@ && r@[0].1@ == "awww"@,
        r@[1].0@ == "gif_backend"@ && r@[1].1@ == "awww"@,
        r@[2].0@ == "video_backend"@ && r@[2].1@ == "mpvpaper"@,
{
    let mut v: Vec<(&'static str, &'static str)> = Vec::new();
    v.push(("image_backend", "awww"));
    v.push(("gif_backend", "awww"));
    v.push(("video_backend", "mpvpaper"));
    v
}

/// The statement that trims history to its newest `max_entries` rows.
pub fn history_trim_sql(max_entries: usize) -> (r: String)
    ensures
        r@ == "DELETE FROM history WHERE id NOT IN (SELECT id FROM history ORDER BY id DESC LIMIT "@
            + decimal(max_entries as nat) + ")"@,
{
    let mut s = String::new();
    append_str(&mut s, "DELETE FROM history WHERE id NOT IN (SELECT id FROM history ORDER BY id DESC LIMIT ");
    append_str(&mut s, u64_to_decimal(max_entries as u64).as_str());
    append_str(&mut s, ")");
    s
}

/// A settings update applies only to the revision it was made against.
pub fn check_config_revision(expected: &str, observed: String) -> (r: Result<(), WcError>)
    ensures
        observed@ == expected@ ==> r is Ok,
        observed@ != expected@ ==> (r matches Err(WcError::ConfigRevisionChanged { expected: e, observed: o })
            && e@ == expected@ && o@ == observed@),
{
    if !str_eq(observed.as_str(), expected) {
        return Err(WcError::ConfigRevisionChanged { expected: expected.to_owned(), observed });
    }
    Ok(())
}

/// A write raises the library revision only when it changed rows.
pub fn revision_bump_needed(changed_rows: usize) -> (r: bool)
    ensures
        r == (changed_rows > 0),
{
    changed_rows > 0
}

} // verus!
