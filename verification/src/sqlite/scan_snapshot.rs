//! Scan snapshots: the SQLite files a scan worker fills and the storage
//! layer accepts only after checking them.

use vstd::prelude::*;

use crate::text::{
    append_str, decimal, ends_with, has_prefix, has_suffix, i64_to_decimal, parse_i64,
    parse_i64_spec, parse_u32, parse_unsigned, signed_decimal, starts_with, str_eq,
    u64_to_decimal,
};

verus! {

#[verifier::external_type_specification]
#[verifier::external_body]
pub struct ExSqliteError(rusqlite::Error);

/// The snapshot format this build writes and reads.
pub const SCAN_SNAPSHOT_FORMAT_VERSION: u32 = 2;

/// Why a scan snapshot was refused.
#[derive(Debug)]
#[allow(inconsistent_fields)]
pub enum ScanSnapshotError {
    Io(std::io::Error),
    Sqlite(rusqlite::Error),
    Invalid(String),
    Incomplete,
    UncleanExit,
    WrongSource { expected: i64, actual: i64 },
    UnsupportedVersion { expected: u32, actual: u32 },
}

/// What a refusal says, for a variant whose text is built from plain values.
pub open spec fn snapshot_error_text(e: ScanSnapshotError) -> Option<Seq<char>> {
    match e {
        ScanSnapshotError::Io(_) => None,
        ScanSnapshotError::Sqlite(_) => None,
        ScanSnapshotError::Invalid(reason) => Some("invalid scan snapshot: "@ + reason@),
        ScanSnapshotError::Incomplete => Some("scan snapshot is incomplete"@),
        ScanSnapshotError::UncleanExit => Some("scan worker did not exit cleanly"@),
        ScanSnapshotError::WrongSource { expected, actual } => Some(
            "scan snapshot source mismatch: expected "@ + signed_decimal(expected as int)
                + ", got "@ + signed_decimal(actual as int),
        ),
        ScanSnapshotError::UnsupportedVersion { expected, actual } => Some(
            "unsupported scan snapshot format: expected "@ + decimal(expected as nat) + ", got "@
                + decimal(actual as nat),
        ),
    }
}

impl ScanSnapshotError {
    /// The refusal as text: a fixed prefix naming the failure, then its
    /// details.
    pub fn to_string(&self) -> (s: String)
        ensures
            snapshot_error_text(*self) matches Some(t) ==> s@ == t,
            self is Io ==> has_prefix(s@, "scan snapshot I/O failed: "@),
            self is Sqlite ==> has_prefix(s@, "scan snapshot SQLite failed: "@),
    {
        match self {
            ScanSnapshotError::Io(e) => {
                let mut s = "scan snapshot I/O failed: ".to_owned();
                let ghost prefix = s@;
                append_str(&mut s, e.to_string().as_str());
                assert(s@.take(prefix.len() as int) == prefix);
                s
            },
            ScanSnapshotError::Sqlite(e) => {
                let mut s = "scan snapshot SQLite failed: ".to_owned();
                let ghost prefix = s@;
                append_str(&mut s, e.to_string().as_str());
                assert(s@.take(prefix.len() as int) == prefix);
                s
            },
            ScanSnapshotError::Invalid(reason) => {
                let mut s = "invalid scan snapshot: ".to_owned();
                append_str(&mut s, reason.as_str());
                s
            },
            ScanSnapshotError::Incomplete => "scan snapshot is incomplete".to_owned(),
            ScanSnapshotError::UncleanExit => "scan worker did not exit cleanly".to_owned(),
            ScanSnapshotError::WrongSource { expected, actual } => {
                let mut s = "scan snapshot source mismatch: expected ".to_owned();
                append_str(&mut s, i64_to_decimal(*expected).as_str());
                append_str(&mut s, ", got ");
                append_str(&mut s, i64_to_decimal(*actual).as_str());
                s
            },
            ScanSnapshotError::UnsupportedVersion { expected, actual } => {
                let mut s = "unsupported scan snapshot format: expected ".to_owned();
                append_str(&mut s, u64_to_decimal(*expected as u64).as_str());
                append_str(&mut s, ", got ");
                append_str(&mut s, u64_to_decimal(*actual as u64).as_str());
                s
            },
        }
    }
}

/// `Err(ScanSnapshotError::Invalid(message))` with exactly this message.
pub open spec fn is_invalid<T>(r: Result<T, ScanSnapshotError>, message: Seq<char>) -> bool {
    r matches Err(ScanSnapshotError::Invalid(m)) && m@ == message
}

/// Whether a prior path exists, as a scan saw it.
#[derive(Debug, Clone, Copy, PartialEq, Eq, Structural)]
pub enum SnapshotPathPresence {
    Present,
    Missing,
    Unknown,
}

pub open spec fn presence_name(p: SnapshotPathPresence) -> Seq<char> {
    match p {
        SnapshotPathPresence::Present => "present"@,
        SnapshotPathPresence::Missing => "missing"@,
        SnapshotPathPresence::Unknown => "unknown"@,
    }
}

pub open spec fn presence_named(s: Seq<char>) -> Option<SnapshotPathPresence> {
    if s == "present"@ {
        Some(SnapshotPathPresence::Present)
    } else if s == "missing"@ {
        Some(SnapshotPathPresence::Missing)
    } else if s == "unknown"@ {
        Some(SnapshotPathPresence::Unknown)
    } else {
        None
    }
}

impl SnapshotPathPresence {
    /// The stored marker of a presence.
    pub fn as_str(self) -> (r: &'static str)
        ensures
            r@ == presence_name(self),
    {
        match self {
            SnapshotPathPresence::Present => "present",
            SnapshotPathPresence::Missing => "missing",
            SnapshotPathPresence::Unknown => "unknown",
        }
    }

    /// Reads a stored presence marker.
    pub fn parse(value: &str) -> (r: Result<SnapshotPathPresence, ScanSnapshotError>)
        ensures
            presence_named(value@) matches Some(p) ==> (r matches Ok(q) && q == p),
            presence_named(value@) is None ==> is_invalid(r, "invalid prior-path presence value"@),
    {
        if str_eq(value, "present") {
            Ok(SnapshotPathPresence::Present)
        } else if str_eq(value, "missing") {
            Ok(SnapshotPathPresence::Missing)
        } else if str_eq(value, "unknown") {
            Ok(SnapshotPathPresence::Unknown)
        } else {
            Err(ScanSnapshotError::Invalid("invalid prior-path presence value".to_owned()))
        }
    }
}

/// Every presence reads back from its marker.
pub proof fn lemma_presence_roundtrip(p: SnapshotPathPresence)
    ensures
        presence_named(presence_name(p)) == Some(p),
{
    reveal_strlit("present");
    reveal_strlit("missing");
    reveal_strlit("unknown");
    assert("present"@[0] != "missing"@[0]);
    assert("present"@[0] != "unknown"@[0]);
    assert("missing"@[0] != "unknown"@[0]);
}

/// A snapshot that passed validation.
#[derive(Debug, Clone)]
pub struct ValidatedScanSnapshot {
    path: String,
    source_id: i64,
    item_count: usize,
    source_path: Option<String>,
    source_kind: Option<String>,
    source_recursive: Option<bool>,
}

impl ValidatedScanSnapshot {
    pub closed spec fn spec_path(&self) -> Seq<char> {
        self.path@
    }

    pub closed spec fn spec_source_id(&self) -> i64 {
        self.source_id
    }

    pub closed spec fn spec_item_count(&self) -> usize {
        self.item_count
    }

    /// The scanned source's path, kind and recursion flag, when the
    /// snapshot recorded all three.
    pub closed spec fn spec_source_config(&self) -> Option<(Seq<char>, Seq<char>, bool)> {
        match (self.source_path, self.source_kind, self.source_recursive) {
            (Some(p), Some(k), Some(r)) => Some((p@, k@, r)),
            _ => None,
        }
    }

    /// A snapshot accepted with the given facts.
    pub(crate) fn new(
        path: String,
        source_id: i64,
        item_count: usize,
        source_path: Option<String>,
        source_kind: Option<String>,
        source_recursive: Option<bool>,
    ) -> (r: Self)
        ensures
            r.spec_path() == path@,
            r.spec_source_id() == source_id,
            r.spec_item_count() == item_count,
            r.spec_source_config() == match (source_path, source_kind, source_recursive) {
                (Some(p), Some(k), Some(b)) => Some((p@, k@, b)),
                _ => None,
            },
    {
        ValidatedScanSnapshot {
            path,
            source_id,
            item_count,
            source_path,
            source_kind,
            source_recursive,
        }
    }

    pub fn path(&self) -> (r: &str)
        ensures
            r@ == self.spec_path(),
    {
        self.path.as_str()
    }

    pub fn source_id(&self) -> (r: i64)
        ensures
            r == self.spec_source_id(),
    {
        self.source_id
    }

    pub fn item_count(&self) -> (r: usize)
        ensures
            r == self.spec_item_count(),
    {
        self.item_count
    }

    pub fn source_config(&self) -> (r: Option<(&str, &str, bool)>)
        ensures
            match r {
                Some((p, k, b)) => self.spec_source_config() == Some((p@, k@, b)),
                None => self.spec_source_config() is None,
            },
    {
        match (&self.source_path, &self.source_kind, &self.source_recursive) {
            (Some(p), Some(k), Some(b)) => Some((p.as_str(), k.as_str(), *b)),
            _ => None,
        }
    }

    /// The prior-path presence rows read from the snapshot, each marker
    /// parsed; the first unknown marker refuses the snapshot.
    pub fn read_prior_presence(&self, rows: Vec<(String, String)>) -> (r: Result<
        Vec<(String, SnapshotPathPresence)>,
        ScanSnapshotError,
    >)
        ensures
            (forall|i: int| 0 <= i < rows@.len() ==> presence_named(#[trigger] rows@[i].1@) is Some)
                ==> (r matches Ok(out) && out@.len() == rows@.len() && forall|i: int|
                0 <= i < rows@.len() ==> (#[trigger] out@[i]).0@ == rows@[i].0@ && Some(out@[i].1)
                == presence_named(rows@[i].1@)),
            !(forall|i: int| 0 <= i < rows@.len() ==> presence_named(#[trigger] rows@[i].1@) is Some)
                ==> is_invalid(r, "invalid prior-path presence value"@),
    {
        let mut out: Vec<(String, SnapshotPathPresence)> = Vec::new();
        let mut i: usize = 0;
        while i < rows.len()
            invariant
                i <= rows@.len(),
                out@.len() == i,
                forall|k: int| 0 <= k < i ==> presence_named(#[trigger] rows@[k].1@) is Some,
                forall|k: int|
                    0 <= k < i ==> (#[trigger] out@[k]).0@ == rows@[k].0@ && Some(out@[k].1)
                        == presence_named(rows@[k].1@),
            decreases rows@.len() - i,
        {
            match SnapshotPathPresence::parse(rows[i].1.as_str()) {
                Ok(p) => {
                    out.push((rows[i].0.clone(), p));
                },
                Err(e) => {
                    return Err(e);
                },
            }
            i = i + 1;
        }
        Ok(out)
    }
}

// ── Validation steps, in the order they are applied ──────────────────────

/// A worker that did not exit cleanly leaves no snapshot to trust.
pub fn check_clean_exit(clean_exit: bool) -> (r: Result<(), ScanSnapshotError>)
    ensures
        clean_exit <==> r is Ok,
        !clean_exit ==> r matches Err(ScanSnapshotError::UncleanExit),
{
    if !clean_exit {
        Err(ScanSnapshotError::UncleanExit)
    } else {
        Ok(())
    }
}

/// The snapshot must be a regular file, not a link or a directory.
pub fn check_regular_file(is_file: bool) -> (r: Result<(), ScanSnapshotError>)
    ensures
        is_file ==> r is Ok,
        !is_file ==> is_invalid(r, "snapshot is not a regular file"@),
{
    if !is_file {
        Err(ScanSnapshotError::Invalid("snapshot is not a regular file".to_owned()))
    } else {
        Ok(())
    }
}

/// SQLite's quick check must report exactly `ok`.
pub fn check_quick_check(result: &str) -> (r: Result<(), ScanSnapshotError>)
    ensures
        result@ == "ok"@ ==> r is Ok,
        result@ != "ok"@ ==> is_invalid(r, "snapshot failed SQLite structural validation"@),
{
    if !str_eq(result, "ok") {
        Err(ScanSnapshotError::Invalid("snapshot failed SQLite structural validation".to_owned()))
    } else {
        Ok(())
    }
}

fn marker_error(prefix: &str, key: &str) -> (r: ScanSnapshotError)
    ensures
        r matches ScanSnapshotError::Invalid(m) && m@ == prefix@ + key@ + " marker"@,
{
    let mut m = String::new();
    append_str(&mut m, prefix);
    append_str(&mut m, key);
    append_str(&mut m, " marker");
    ScanSnapshotError::Invalid(m)
}

/// A numeric marker read as `u32`: a missing or non-numeric marker refuses
/// the snapshot.
pub fn meta_u32(key: &str, value: Option<String>) -> (r: Result<u32, ScanSnapshotError>)
    ensures
        match value {
            None => is_invalid(r, "missing "@ + key@ + " marker"@),
            Some(v) => match parse_unsigned(v@, u32::MAX as nat) {
                Some(n) => r == Ok::<u32, ScanSnapshotError>(n as u32),
                None => is_invalid(r, "invalid "@ + key@ + " marker"@),
            },
        },
{
    match value {
        None => Err(marker_error("missing ", key)),
        Some(v) => match parse_u32(v.as_str()) {
            Some(n) => Ok(n),
            None => Err(marker_error("invalid ", key)),
        },
    }
}

/// A numeric marker read as `i64`.
pub fn meta_i64(key: &str, value: Option<String>) -> (r: Result<i64, ScanSnapshotError>)
    ensures
        match value {
            None => is_invalid(r, "missing "@ + key@ + " marker"@),
            Some(v) => match parse_i64_spec(v@) {
                Some(n) => r == Ok::<i64, ScanSnapshotError>(n as i64),
                None => is_invalid(r, "invalid "@ + key@ + " marker"@),
            },
        },
{
    match value {
        None => Err(marker_error("missing ", key)),
        Some(v) => match parse_i64(v.as_str()) {
            Some(n) => Ok(n),
            None => Err(marker_error("invalid ", key)),
        },
    }
}

/// The snapshot must be in the current format.
pub fn check_format_version(actual: u32) -> (r: Result<(), ScanSnapshotError>)
    ensures
        actual == SCAN_SNAPSHOT_FORMAT_VERSION ==> r is Ok,
        actual != SCAN_SNAPSHOT_FORMAT_VERSION ==> (r matches Err(
            ScanSnapshotError::UnsupportedVersion { expected, actual: a },
        ) && expected == SCAN_SNAPSHOT_FORMAT_VERSION && a == actual),
{
    if actual != SCAN_SNAPSHOT_FORMAT_VERSION {
        Err(ScanSnapshotError::UnsupportedVersion { expected: SCAN_SNAPSHOT_FORMAT_VERSION, actual })
    } else {
        Ok(())
    }
}

/// The snapshot must belong to the expected source.
pub fn check_source(expected: i64, actual: i64) -> (r: Result<(), ScanSnapshotError>)
    ensures
        expected == actual ==> r is Ok,
        expected != actual ==> (r matches Err(ScanSnapshotError::WrongSource { expected: e, actual: a })
            && e == expected && a == actual),
{
    if actual != expected {
        Err(ScanSnapshotError::WrongSource { expected, actual })
    } else {
        Ok(())
    }
}

/// Only a snapshot marked complete (`1`) is accepted.
pub fn check_complete(marker: Option<String>) -> (r: Result<(), ScanSnapshotError>)
    ensures
        (marker matches Some(m) && m@ == "1"@) ==> r is Ok,
        !(marker matches Some(m) && m@ == "1"@) ==> r matches Err(ScanSnapshotError::Incomplete),
{
    match marker {
        Some(m) => if str_eq(m.as_str(), "1") {
            Ok(())
        } else {
            Err(ScanSnapshotError::Incomplete)
        },
        None => Err(ScanSnapshotError::Incomplete),
    }
}

/// The stored item count as a length.
pub fn item_count_of(count: i64) -> (r: Result<usize, ScanSnapshotError>)
    ensures
        0 <= count <= usize::MAX ==> r == Ok::<usize, ScanSnapshotError>(count as usize),
        !(0 <= count <= usize::MAX) ==> is_invalid(r, "negative or oversized item count"@),
{
    if count < 0 || count as u64 > usize::MAX as u64 {
        Err(ScanSnapshotError::Invalid("negative or oversized item count".to_owned()))
    } else {
        Ok(count as usize)
    }
}

/// The recursion marker: `0` or `1` when present.
pub fn recursive_marker(value: Option<String>) -> (r: Result<Option<bool>, ScanSnapshotError>)
    ensures
        match value {
            None => r == Ok::<Option<bool>, ScanSnapshotError>(None),
            Some(v) => if v@ == "0"@ {
                r == Ok::<Option<bool>, ScanSnapshotError>(Some(false))
            } else if v@ == "1"@ {
                r == Ok::<Option<bool>, ScanSnapshotError>(Some(true))
            } else {
                is_invalid(r, "invalid source_recursive marker"@)
            },
        },
{
    match value {
        None => Ok(None),
        Some(v) => if str_eq(v.as_str(), "0") {
            Ok(Some(false))
        } else if str_eq(v.as_str(), "1") {
            Ok(Some(true))
        } else {
            Err(ScanSnapshotError::Invalid("invalid source_recursive marker".to_owned()))
        },
    }
}

/// Every stored item must decode, and their number must not have changed.
pub fn check_entry_count(entries: usize, item_count: usize) -> (r: Result<(), ScanSnapshotError>)
    ensures
        entries == item_count ==> r is Ok,
        entries != item_count ==> is_invalid(r, "scan item count changed during validation"@),
{
    if entries != item_count {
        Err(ScanSnapshotError::Invalid("scan item count changed during validation".to_owned()))
    } else {
        Ok(())
    }
}

/// The recursion flag as stored: `1` or `0`.
pub fn recursive_marker_text(recursive: bool) -> (r: &'static str)
    ensures
        r@ == if recursive {
            "1"@
        } else {
            "0"@
        },
{
    if recursive {
        "1"
    } else {
        "0"
    }
}

/// Whether a directory entry is a leftover of a scan: named `wc-scan-…`
/// and ending in `.sqlite` or `.request.json`.
pub fn is_stale_scan_artifact(name: &str) -> (r: bool)
    ensures
        r == (has_prefix(name@, "wc-scan-"@) && (has_suffix(name@, ".sqlite"@) || has_suffix(
            name@,
            ".request.json"@,
        ))),
{
    starts_with(name, "wc-scan-") && (ends_with(name, ".sqlite") || ends_with(name, ".request.json"))
}

// ── Validation as a whole ───────────────────────────────────────────────

/// `r` accepts the snapshot at `path` with the given facts.
pub open spec fn accepted_as(
    r: Result<ValidatedScanSnapshot, ScanSnapshotError>,
    path: Seq<char>,
    source_id: i64,
    item_count: int,
    source_path: Option<String>,
    source_kind: Option<String>,
    source_recursive: Option<bool>,
) -> bool {
    r matches Ok(v) && v.spec_path() == path && v.spec_source_id() == source_id
        && v.spec_item_count() == item_count && v.spec_source_config() == match (
        source_path,
        source_kind,
        source_recursive,
    ) {
        (Some(p), Some(k), Some(b)) => Some((p@, k@, b)),
        _ => None,
    }
}

/// The last markers: the source's path, kind and recursion flag, each as
/// read or the error that stopped the read.
pub open spec fn source_markers_outcome(
    r: Result<ValidatedScanSnapshot, ScanSnapshotError>,
    path: Seq<char>,
    source_id: i64,
    item_count: int,
    source_path: Result<Option<String>, ScanSnapshotError>,
    source_kind: Result<Option<String>, ScanSnapshotError>,
    source_recursive: Result<Option<String>, ScanSnapshotError>,
) -> bool {
    match source_path {
        Err(e) => r == Err::<ValidatedScanSnapshot, ScanSnapshotError>(e),
        Ok(p) => match source_kind {
            Err(e) => r == Err::<ValidatedScanSnapshot, ScanSnapshotError>(e),
            Ok(k) => match source_recursive {
                Err(e) => r == Err::<ValidatedScanSnapshot, ScanSnapshotError>(e),
                Ok(None) => accepted_as(r, path, source_id, item_count, p, k, None),
                Ok(Some(v)) => if v@ == "0"@ {
                    accepted_as(r, path, source_id, item_count, p, k, Some(false))
                } else if v@ == "1"@ {
                    accepted_as(r, path, source_id, item_count, p, k, Some(true))
                } else {
                    is_invalid(r, "invalid source_recursive marker"@)
                },
            },
        },
    }
}

/// The markers after the source id: the completion marker and the item
/// count, then the source markers.
pub open spec fn completion_outcome(
    r: Result<ValidatedScanSnapshot, ScanSnapshotError>,
    path: Seq<char>,
    source_id: i64,
    complete: Result<Option<String>, ScanSnapshotError>,
    count: Result<i64, ScanSnapshotError>,
    source_path: Result<Option<String>, ScanSnapshotError>,
    source_kind: Result<Option<String>, ScanSnapshotError>,
    source_recursive: Result<Option<String>, ScanSnapshotError>,
) -> bool {
    match complete {
        Err(e) => r == Err::<ValidatedScanSnapshot, ScanSnapshotError>(e),
        Ok(m) => if !(m matches Some(x) && x@ == "1"@) {
            r matches Err(ScanSnapshotError::Incomplete)
        } else {
            match count {
                Err(e) => r == Err::<ValidatedScanSnapshot, ScanSnapshotError>(e),
                Ok(c) => if !(0 <= c <= usize::MAX) {
                    is_invalid(r, "negative or oversized item count"@)
                } else {
                    source_markers_outcome(
                        r,
                        path,
                        source_id,
                        c as int,
                        source_path,
                        source_kind,
                        source_recursive,
                    )
                },
            }
        },
    }
}

/// Validation of a snapshot that opened: the quick check, then each marker
/// in turn, each as read or the error that stopped the read. The first
/// step that fails refuses the snapshot; a snapshot that passes them all
/// is accepted with the markers it holds.
pub fn validate_snapshot_markers(
    path: String,
    expected_source_id: i64,
    integrity: Result<String, ScanSnapshotError>,
    format_version: Result<Option<String>, ScanSnapshotError>,
    source_id: Result<Option<String>, ScanSnapshotError>,
    complete: Result<Option<String>, ScanSnapshotError>,
    count: Result<i64, ScanSnapshotError>,
    source_path: Result<Option<String>, ScanSnapshotError>,
    source_kind: Result<Option<String>, ScanSnapshotError>,
    source_recursive: Result<Option<String>, ScanSnapshotError>,
) -> (r: Result<ValidatedScanSnapshot, ScanSnapshotError>)
    ensures
        match integrity {
            Err(e) => r == Err::<ValidatedScanSnapshot, ScanSnapshotError>(e),
            Ok(text) => if text@ != "ok"@ {
                is_invalid(r, "snapshot failed SQLite structural validation"@)
            } else {
                match format_version {
                    Err(e) => r == Err::<ValidatedScanSnapshot, ScanSnapshotError>(e),
                    Ok(None) => is_invalid(r, "missing format_version marker"@),
                    Ok(Some(v)) => match parse_unsigned(v@, u32::MAX as nat) {
                        None => is_invalid(r, "invalid format_version marker"@),
                        Some(n) => if n != SCAN_SNAPSHOT_FORMAT_VERSION {
                            r matches Err(ScanSnapshotError::UnsupportedVersion { expected, actual })
                                && expected == SCAN_SNAPSHOT_FORMAT_VERSION && actual == n
                        } else {
                            match source_id {
                                Err(e) => r == Err::<ValidatedScanSnapshot, ScanSnapshotError>(e),
                                Ok(None) => is_invalid(r, "missing source_id marker"@),
                                Ok(Some(v)) => match parse_i64_spec(v@) {
                                    None => is_invalid(r, "invalid source_id marker"@),
                                    Some(sid) => if sid != expected_source_id {
                                        r matches Err(ScanSnapshotError::WrongSource { expected, actual })
                                            && expected == expected_source_id && actual == sid
                                    } else {
                                        completion_outcome(
                                            r,
                                            path@,
                                            expected_source_id,
                                            complete,
                                            count,
                                            source_path,
                                            source_kind,
                                            source_recursive,
                                        )
                                    },
                                },
                            }
                        },
                    },
                }
            },
        },
{
    proof {
        reveal_strlit("missing ");
        reveal_strlit("invalid ");
        reveal_strlit(" marker");
        reveal_strlit("format_version");
        reveal_strlit("source_id");
        reveal_strlit("missing format_version marker");
        reveal_strlit("invalid format_version marker");
        reveal_strlit("missing source_id marker");
        reveal_strlit("invalid source_id marker");
    }
    assert("missing "@ + "format_version"@ + " marker"@ =~= "missing format_version marker"@);
    assert("invalid "@ + "format_version"@ + " marker"@ =~= "invalid format_version marker"@);
    assert("missing "@ + "source_id"@ + " marker"@ =~= "missing source_id marker"@);
    assert("invalid "@ + "source_id"@ + " marker"@ =~= "invalid source_id marker"@);
    let text = integrity?;
    check_quick_check(text.as_str())?;
    let version = meta_u32("format_version", format_version?)?;
    check_format_version(version)?;
    let sid = meta_i64("source_id", source_id?)?;
    check_source(expected_source_id, sid)?;
    check_complete(complete?)?;
    let item_count = item_count_of(count?)?;
    let source_path = source_path?;
    let source_kind = source_kind?;
    let recursive = recursive_marker(source_recursive?)?;
    Ok(ValidatedScanSnapshot::new(path, sid, item_count, source_path, source_kind, recursive))
}

/// The last steps of validation: every stored item decoded (their number,
/// or the error that stopped decoding) and matching the item count, then
/// every prior-path presence row (as read, or the read's error) naming a
/// known marker. The snapshot passes unchanged.
pub fn accept_snapshot_contents(
    snapshot: ValidatedScanSnapshot,
    entries: Result<usize, ScanSnapshotError>,
    presence: Result<Vec<(String, String)>, ScanSnapshotError>,
) -> (r: Result<ValidatedScanSnapshot, ScanSnapshotError>)
    ensures
        match entries {
            Err(e) => r == Err::<ValidatedScanSnapshot, ScanSnapshotError>(e),
            Ok(n) => if n != snapshot.spec_item_count() {
                is_invalid(r, "scan item count changed during validation"@)
            } else {
                match presence {
                    Err(e) => r == Err::<ValidatedScanSnapshot, ScanSnapshotError>(e),
                    Ok(rows) => if forall|i: int|
                        0 <= i < rows@.len() ==> presence_named(#[trigger] rows@[i].1@) is Some {
                        r == Ok::<ValidatedScanSnapshot, ScanSnapshotError>(snapshot)
                    } else {
                        is_invalid(r, "invalid prior-path presence value"@)
                    },
                }
            },
        },
{
    let n = entries?;
    check_entry_count(n, snapshot.item_count())?;
    let rows = presence?;
    snapshot.read_prior_presence(rows)?;
    Ok(snapshot)
}

} // verus!
