//! Per-display wallpaper assignments: how a display target is keyed, which
//! assignments may be stored, how stored rows are read back, and when the
//! legacy single-display state seeds the All Displays row.

use vstd::prelude::*;

use crate::error::{is_other_error, other_error, other_error_with, WcError};
use crate::text::{
    append_str, blank, char_whitespace, is_blank, str_eq, trim, trim_left, trim_right, trimmed,
};

verus! {

/// Reserved storage key for the explicit All Displays target.
pub const ALL_DISPLAYS_TARGET_KEY: &'static str = "__all_displays__";

/// `db_meta` key marking that the one-time legacy display-state migration ran.
pub const LEGACY_DISPLAY_STATE_MIGRATED_META_KEY: &'static str = "legacy_display_state_migrated";

pub open spec fn all_displays_key() -> Seq<char> {
    "__all_displays__"@
}

/// Identity of a persisted display wallpaper assignment.
#[derive(Debug, Clone, PartialEq, Eq)]
pub enum DisplayStateTarget {
    /// Explicit all-display operation; never inferred from a named output.
    AllDisplays,
    /// Concrete Wayland/X output name (for example `eDP-1`).
    Output(String),
}

/// The primary key a target is stored under.
pub open spec fn target_key(t: DisplayStateTarget) -> Seq<char> {
    match t {
        DisplayStateTarget::AllDisplays => all_displays_key(),
        DisplayStateTarget::Output(name) => name@,
    }
}

/// Whether a caller-supplied target may be written: an output name must not
/// be blank and must not be the reserved All Displays key.
pub open spec fn target_valid(t: DisplayStateTarget) -> bool {
    match t {
        DisplayStateTarget::AllDisplays => true,
        DisplayStateTarget::Output(name) => !blank(name@) && name@ != all_displays_key(),
    }
}

/// Why a caller-supplied target may not be written, if it may not.
pub open spec fn target_fault(t: DisplayStateTarget) -> Option<Seq<char>> {
    match t {
        DisplayStateTarget::AllDisplays => None,
        DisplayStateTarget::Output(name) => if blank(name@) {
            Some("display state output name must not be blank"@)
        } else if name@ == all_displays_key() {
            Some("reserved All Displays key cannot be used as an output name"@)
        } else {
            None
        },
    }
}

impl DisplayStateTarget {
    /// Encode this target as the primary-key string stored in SQLite.
    pub fn storage_key(&self) -> (r: &str)
        ensures
            r@ == target_key(*self),
    {
        match self {
            DisplayStateTarget::AllDisplays => ALL_DISPLAYS_TARGET_KEY,
            DisplayStateTarget::Output(name) => name.as_str(),
        }
    }

    /// Parse a storage key into a typed target. Rejects blank names; the
    /// reserved All Displays key is never read as an output name.
    pub fn from_storage_key(key: &str) -> (r: Result<DisplayStateTarget, WcError>)
        ensures
            key@ == all_displays_key() ==> r == Ok::<DisplayStateTarget, WcError>(
                DisplayStateTarget::AllDisplays,
            ),
            key@ != all_displays_key() && blank(key@) ==> is_other_error(
                r,
                "display state target must not be blank"@,
            ),
            key@ != all_displays_key() && !blank(key@) ==> (r matches Ok(
                DisplayStateTarget::Output(name),
            ) && name@ == key@),
    {
        if str_eq(key, ALL_DISPLAYS_TARGET_KEY) {
            return Ok(DisplayStateTarget::AllDisplays);
        }
        if is_blank(key) {
            return Err(other_error("display state target must not be blank"));
        }
        Ok(DisplayStateTarget::Output(key.to_owned()))
    }

    /// Validate a caller-supplied target before a write.
    pub fn validate(&self) -> (r: Result<(), WcError>)
        ensures
            target_fault(*self) is None <==> target_valid(*self),
            match target_fault(*self) {
                None => r is Ok,
                Some(m) => is_other_error(r, m),
            },
    {
        match self {
            DisplayStateTarget::AllDisplays => Ok(()),
            DisplayStateTarget::Output(name) => {
                if is_blank(name.as_str()) {
                    return Err(other_error("display state output name must not be blank"));
                }
                if str_eq(name.as_str(), ALL_DISPLAYS_TARGET_KEY) {
                    return Err(
                        other_error("reserved All Displays key cannot be used as an output name"),
                    );
                }
                Ok(())
            },
        }
    }
}

/// One persisted display wallpaper assignment.
#[derive(Debug, Clone, PartialEq, Eq)]
pub struct DisplayStateRow {
    pub target: DisplayStateTarget,
    pub wallpaper_path: String,
    pub backend: String,
    pub updated_at: String,
}

/// The backend id stored for a requested one: the three supported backends,
/// with the legacy alias `swww` read as `awww`, surrounding white space
/// ignored; anything else is unsupported.
pub open spec fn supported_backend(raw: Seq<char>) -> Option<Seq<char>> {
    let t = trimmed(raw);
    if t == "awww"@ || t == "swww"@ {
        Some("awww"@)
    } else if t == "mpvpaper"@ {
        Some("mpvpaper"@)
    } else if t == "linux-wallpaperengine"@ {
        Some("linux-wallpaperengine"@)
    } else {
        None
    }
}

/// Normalize a backend identifier for display-state writes and migration.
pub fn normalize_supported_backend(raw: &str) -> (r: Result<&'static str, WcError>)
    ensures
        supported_backend(raw@) matches Some(b) ==> (r matches Ok(s) && s@ == b),
        supported_backend(raw@) is None ==> is_other_error(
            r,
            "unsupported display state backend: "@ + raw@,
        ),
{
    let t = trim(raw);
    let ts = t.as_str();
    if str_eq(ts, "awww") || str_eq(ts, "swww") {
        Ok("awww")
    } else if str_eq(ts, "mpvpaper") {
        Ok("mpvpaper")
    } else if str_eq(ts, "linux-wallpaperengine") {
        Ok("linux-wallpaperengine")
    } else {
        Err(other_error_with("unsupported display state backend: ", raw))
    }
}

/// Why an assignment may not be written, if it may not.
pub open spec fn assignment_fault(path: Seq<char>, backend: Seq<char>) -> Option<Seq<char>> {
    if blank(path) {
        Some("display state wallpaper path must not be blank"@)
    } else if blank(backend) {
        Some("display state backend must not be blank"@)
    } else if supported_backend(backend) is None {
        Some("unsupported display state backend: "@ + backend)
    } else {
        None
    }
}

/// Checks a wallpaper assignment and returns the backend id to store.
pub fn validate_assignment(path: &str, backend: &str) -> (r: Result<&'static str, WcError>)
    ensures
        match assignment_fault(path@, backend@) {
            None => r matches Ok(s) && s@ == supported_backend(backend@).unwrap(),
            Some(m) => is_other_error(r, m),
        },
{
    if is_blank(path) {
        return Err(other_error("display state wallpaper path must not be blank"));
    }
    if is_blank(backend) {
        return Err(other_error("display state backend must not be blank"));
    }
    normalize_supported_backend(backend)
}

/// Reads one stored row back. A blank path or backend, an unsupported
/// backend or a blank key means the table was corrupted; `swww` reads as
/// `awww`.
pub fn map_row(target_key_text: String, path: String, backend: String, updated_at: String) -> (r:
    Result<DisplayStateRow, WcError>)
    ensures
        blank(path@) ==> is_other_error(r, "corrupted display state: wallpaper path is blank"@),
        !blank(path@) && blank(backend@) ==> is_other_error(
            r,
            "corrupted display state: backend is blank"@,
        ),
        !blank(path@) && !blank(backend@) && supported_backend(backend@) is None ==> is_other_error(
            r,
            "corrupted display state: unsupported backend: "@ + backend@,
        ),
        !blank(path@) && !blank(backend@) && supported_backend(backend@) is Some ==> {
            &&& target_key_text@ != all_displays_key() && blank(target_key_text@) ==> is_other_error(
                r,
                "display state target must not be blank"@,
            )
            &&& (target_key_text@ == all_displays_key() || !blank(target_key_text@)) ==> (r matches Ok(
                row,
            ) && target_key(row.target) == target_key_text@ && row.wallpaper_path@ == path@
                && row.backend@ == supported_backend(backend@).unwrap() && row.updated_at@
                == updated_at@)
        },
{
    if is_blank(path.as_str()) {
        return Err(other_error("corrupted display state: wallpaper path is blank"));
    }
    if is_blank(backend.as_str()) {
        return Err(other_error("corrupted display state: backend is blank"));
    }
    let normalized = match normalize_supported_backend(backend.as_str()) {
        Ok(n) => n.to_owned(),
        Err(_) => {
            return Err(
                other_error_with("corrupted display state: unsupported backend: ", backend.as_str()),
            );
        },
    };
    let target = DisplayStateTarget::from_storage_key(target_key_text.as_str())?;
    Ok(DisplayStateRow { target, wallpaper_path: path, backend: normalized, updated_at })
}

/// A valid target reads back from its storage key as itself, so storage
/// keys of valid targets never collide.
pub proof fn lemma_target_key_roundtrip(a: DisplayStateTarget, b: DisplayStateTarget)
    requires
        target_valid(a),
        target_valid(b),
        target_key(a) == target_key(b),
    ensures
        a == b || (a matches DisplayStateTarget::Output(x) && b matches DisplayStateTarget::Output(y)
            && x@ == y@),
{
}

/// A stored backend id is its own normal form: it is not blank and reads
/// back as itself.
proof fn lemma_stored_backend_stable(b: Seq<char>)
    requires
        b == "awww"@ || b == "mpvpaper"@ || b == "linux-wallpaperengine"@,
    ensures
        trimmed(b) == b,
        !blank(b),
        supported_backend(b) == Some(b),
{
    reveal_strlit("awww");
    reveal_strlit("mpvpaper");
    reveal_strlit("linux-wallpaperengine");
    reveal_strlit("swww");
    assert(b.len() > 0);
    assert(!char_whitespace(b[0]));
    assert(!char_whitespace(b.last()));
    assert(trim_left(b) == b);
    assert(trim_right(b) == b);
}

/// A valid assignment reads back as it was stored: the row written for a
/// valid target and assignment (the target's key, the path and the stored
/// backend id) passes every check `map_row` makes, so reading it gives the
/// same target key, path and backend.
pub proof fn lemma_stored_assignment_reads_back(
    t: DisplayStateTarget,
    path: Seq<char>,
    backend: Seq<char>,
)
    requires
        target_valid(t),
        assignment_fault(path, backend) is None,
    ensures
        ({
            let stored = supported_backend(backend).unwrap();
            &&& !blank(path)
            &&& !blank(stored)
            &&& supported_backend(stored) == Some(stored)
            &&& (target_key(t) == all_displays_key() || !blank(target_key(t)))
        }),
{
    let stored = supported_backend(backend).unwrap();
    lemma_stored_backend_stable(stored);
}

// ── Legacy migration ─────────────────────────────────────────────────────

/// What the legacy migration does once it holds the write lock.
#[derive(Debug, Clone, Copy, PartialEq, Eq, Structural)]
pub enum LegacyMigrationPhase {
    /// The migration already ran: nothing to do.
    AlreadyMigrated,
    /// Display rows already exist: only record that the migration ran.
    MarkOnly,
    /// Read the legacy `current` and `last_backend` values and decide.
    ReadLegacyValues,
}

/// The first decision of the legacy migration, from the marker and the
/// number of display rows.
pub fn legacy_migration_phase(marker_present: bool, display_rows: i64) -> (r:
    LegacyMigrationPhase)
    ensures
        marker_present ==> r == LegacyMigrationPhase::AlreadyMigrated,
        !marker_present && display_rows > 0 ==> r == LegacyMigrationPhase::MarkOnly,
        !marker_present && display_rows <= 0 ==> r == LegacyMigrationPhase::ReadLegacyValues,
{
    if marker_present {
        LegacyMigrationPhase::AlreadyMigrated
    } else if display_rows > 0 {
        LegacyMigrationPhase::MarkOnly
    } else {
        LegacyMigrationPhase::ReadLegacyValues
    }
}

/// The All Displays assignment that legacy values seed, if they are
/// eligible: both present, neither blank, and the backend supported. When
/// none is returned the migration stays unmarked so that a later valid pair
/// can still migrate.
pub fn legacy_seed(current: Option<String>, last_backend: Option<String>) -> (r: Option<
    (String, &'static str),
>)
    ensures
        match (current, last_backend) {
            (Some(path), Some(backend)) => if !blank(path@) && !blank(backend@) && supported_backend(
                backend@,
            ) is Some {
                r matches Some((p, b)) && p@ == path@ && b@ == supported_backend(backend@).unwrap()
            } else {
                r is None
            },
            _ => r is None,
        },
{
    match (current, last_backend) {
        (Some(path), Some(backend)) => {
            if is_blank(path.as_str()) || is_blank(backend.as_str()) {
                return None;
            }
            match normalize_supported_backend(backend.as_str()) {
                Ok(normalized) => Some((path, normalized)),
                Err(_) => None,
            }
        },
        _ => None,
    }
}

// ── Replacing every row ──────────────────────────────────────────────────

/// The rows a replacement may store: every target valid, every assignment
/// valid, no target twice.
pub open spec fn replace_rows_valid(rows: Seq<(DisplayStateTarget, String, String)>) -> bool {
    &&& forall|i: int| 0 <= i < rows.len() ==> target_valid(#[trigger] rows[i].0)
    &&& forall|i: int|
        0 <= i < rows.len() ==> !blank(#[trigger] rows[i].1@) && !blank(rows[i].2@)
            && supported_backend(rows[i].2@) is Some
    &&& forall|i: int, j: int|
        0 <= i < j < rows.len() ==> target_key(#[trigger] rows[i].0) != target_key(
            #[trigger] rows[j].0,
        )
}

/// Why row `i` of a replacement may not be stored, given the rows before it.
pub open spec fn replace_row_fault(rows: Seq<(DisplayStateTarget, String, String)>, i: int) -> Option<
    Seq<char>,
> {
    let (target, path, backend) = rows[i];
    if target_fault(target) is Some {
        target_fault(target)
    } else if assignment_fault(path@, backend@) is Some {
        assignment_fault(path@, backend@)
    } else if exists|k: int| 0 <= k < i && target_key(#[trigger] rows[k].0) == target_key(target) {
        Some("duplicate display state target: "@ + target_key(target))
    } else {
        None
    }
}

/// The error of the first row of a replacement that may not be stored.
pub open spec fn replace_fault(rows: Seq<(DisplayStateTarget, String, String)>) -> Option<Seq<char>>
    decreases rows.len(),
{
    if rows.len() == 0 {
        None
    } else {
        match replace_fault(rows.drop_last()) {
            Some(m) => Some(m),
            None => replace_row_fault(rows, rows.len() - 1),
        }
    }
}

fn contains_key(keys: &Vec<String>, key: &str) -> (r: bool)
    ensures
        r == exists|k: int| 0 <= k < keys@.len() && keys@[k]@ == key@,
{
    let mut i: usize = 0;
    while i < keys.len()
        invariant
            i <= keys@.len(),
            forall|k: int| 0 <= k < i ==> keys@[k]@ != key@,
        decreases keys@.len() - i,
    {
        if str_eq(keys[i].as_str(), key) {
            return true;
        }
        i = i + 1;
    }
    false
}

/// Checks every row of a replacement, in order, before anything is written:
/// the first invalid target, invalid assignment or repeated target is the
/// error. On success returns each row's key, path and stored backend.
pub fn normalize_replace_rows(rows: &Vec<(DisplayStateTarget, String, String)>) -> (r: Result<
    Vec<(String, String, &'static str)>,
    WcError,
>)
    ensures
        r is Ok <==> replace_rows_valid(rows@),
        match replace_fault(rows@) {
            Some(m) => is_other_error(r, m),
            None => r is Ok,
        },
        r matches Ok(out) ==> {
            &&& out@.len() == rows@.len()
            &&& forall|i: int|
                0 <= i < rows@.len() ==> {
                    &&& (#[trigger] out@[i]).0@ == target_key(rows@[i].0)
                    &&& out@[i].1@ == rows@[i].1@
                    &&& out@[i].2@ == supported_backend(rows@[i].2@).unwrap()
                }
        },
{
    let mut keys: Vec<String> = Vec::new();
    let mut out: Vec<(String, String, &'static str)> = Vec::new();
    let mut i: usize = 0;
    while i < rows.len()
        invariant
            i <= rows@.len(),
            keys@.len() == i,
            out@.len() == i,
            replace_rows_valid(rows@.take(i as int)),
            replace_fault(rows@.take(i as int)) is None,
            forall|k: int| 0 <= k < i ==> (#[trigger] keys@[k])@ == target_key(rows@[k].0),
            forall|k: int|
                0 <= k < i ==> {
                    &&& (#[trigger] out@[k]).0@ == target_key(rows@[k].0)
                    &&& out@[k].1@ == rows@[k].1@
                    &&& supported_backend(rows@[k].2@) is Some
                    &&& out@[k].2@ == supported_backend(rows@[k].2@).unwrap()
                },
        decreases rows@.len() - i,
    {
        let (target, path, backend) = &rows[i];
        let ghost next = rows@.take(i + 1);
        proof {
            assert(next[i as int] == rows@[i as int]);
            assert(next.drop_last() == rows@.take(i as int));
            lemma_row_fault_prefix(rows@, i as int);
        }
        match target.validate() {
            Err(e) => {
                proof {
                    assert(!target_valid(rows@[i as int].0));
                    lemma_replace_fault_prefix(rows@, i + 1);
                }
                return Err(e);
            },
            Ok(()) => {},
        }
        let stored = match validate_assignment(path.as_str(), backend.as_str()) {
            Err(e) => {
                proof {
                    lemma_replace_fault_prefix(rows@, i + 1);
                }
                return Err(e);
            },
            Ok(b) => b,
        };
        let key = target.storage_key();
        if contains_key(&keys, key) {
            proof {
                let k = choose|k: int| 0 <= k < keys@.len() && keys@[k]@ == key@;
                assert(target_key(rows@[k].0) == target_key(rows@[i as int].0));
                assert(target_key(next[k].0) == target_key(next[i as int].0));
                lemma_replace_fault_prefix(rows@, i + 1);
            }
            return Err(other_error_with("duplicate display state target: ", key));
        }
        proof {
            assert forall|k: int| 0 <= k < i implies target_key(#[trigger] next[k].0) != target_key(
                next[i as int].0,
            ) by {
                assert(next[k] == rows@[k]);
                assert(keys@[k]@ == target_key(rows@[k].0));
            }
        }
        let key_text = key.to_owned();
        let path_text = path.clone();
        proof {
            assert(assignment_fault(rows@[i as int].1@, rows@[i as int].2@) is None);
            assert(stored@ == supported_backend(rows@[i as int].2@).unwrap());
        }
        let ghost before = out@;
        keys.push(key.to_owned());
        out.push((key_text, path_text, stored));
        proof {
            assert(out@[i as int].0@ == target_key(rows@[i as int].0));
            assert(out@[i as int].1@ == rows@[i as int].1@);
            assert forall|k: int| 0 <= k < i implies #[trigger] out@[k] == before[k] by {}
            assert forall|a: int| 0 <= a < next.len() implies target_valid(#[trigger] next[a].0) by {
                if a < i {
                    assert(next[a] == rows@.take(i as int)[a]);
                }
            }
            assert forall|a: int|
                0 <= a < next.len() implies !blank(#[trigger] next[a].1@) && !blank(next[a].2@)
                && supported_backend(next[a].2@) is Some by {
                if a < i {
                    assert(next[a] == rows@.take(i as int)[a]);
                }
            }
            assert forall|a: int, b: int|
                0 <= a < b < next.len() implies target_key(#[trigger] next[a].0) != target_key(
                #[trigger] next[b].0,
            ) by {
                if b < i {
                    assert(next[a] == rows@.take(i as int)[a]);
                    assert(next[b] == rows@.take(i as int)[b]);
                } else {
                    assert(keys@[a]@ == target_key(rows@[a].0));
                }
            }
        }
        i = i + 1;
    }
    assert(rows@.take(rows@.len() as int) == rows@);
    Ok(out)
}

/// Row `i`'s fault depends only on rows up to `i`.
proof fn lemma_row_fault_prefix(rows: Seq<(DisplayStateTarget, String, String)>, i: int)
    requires
        0 <= i < rows.len(),
    ensures
        replace_row_fault(rows.take(i + 1), i) == replace_row_fault(rows, i),
{
    let next = rows.take(i + 1);
    assert(next[i] == rows[i]);
    assert forall|k: int| 0 <= k < i implies #[trigger] next[k] == rows[k] by {}
    if exists|k: int| 0 <= k < i && target_key(#[trigger] rows[k].0) == target_key(rows[i].0) {
        let k = choose|k: int| 0 <= k < i && target_key(#[trigger] rows[k].0) == target_key(rows[i].0);
        assert(target_key(next[k].0) == target_key(next[i].0));
    }
    if exists|k: int| 0 <= k < i && target_key(#[trigger] next[k].0) == target_key(next[i].0) {
        let k = choose|k: int| 0 <= k < i && target_key(#[trigger] next[k].0) == target_key(next[i].0);
        assert(target_key(rows[k].0) == target_key(rows[i].0));
    }
}

/// Once a prefix holds a fault, the whole replacement reports that fault.
proof fn lemma_replace_fault_prefix(rows: Seq<(DisplayStateTarget, String, String)>, k: int)
    requires
        0 <= k <= rows.len(),
    ensures
        replace_fault(rows.take(k)) is Some ==> replace_fault(rows) == replace_fault(rows.take(k)),
    decreases rows.len() - k,
{
    if k < rows.len() {
        lemma_replace_fault_prefix(rows, k + 1);
        assert(rows.take(k + 1).drop_last() == rows.take(k));
    } else {
        assert(rows.take(k) == rows);
    }
}

} // verus!
