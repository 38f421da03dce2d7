//! The error type shared by all storage operations.

use vstd::prelude::*;

use crate::text::{append_str, decimal, has_prefix, i64_to_decimal, signed_decimal, u64_to_decimal};

verus! {

#[verifier::external_type_specification]
#[verifier::external_body]
pub struct ExIoError(std::io::Error);

/// Errors reported by storage operations.
#[derive(Debug)]
#[allow(inconsistent_fields)]
pub enum WcError {
    /// A file-system operation failed.
    Io(std::io::Error),
    /// SQLite reported an error, or stored data is not what the schema promises.
    Sqlite(String),
    /// Any other failure, with a human-readable explanation.
    Other(String),
    /// A library browser cursor could not be accepted.
    InvalidCursor { reason: &'static str },
    /// The library changed between two reads that must see the same revision.
    RevisionChanged { expected: u64, observed: u64 },
    /// The database was written by a newer build.
    SchemaTooNew { supported: i64, observed: i64 },
    /// Behavior settings changed between read and write.
    ConfigRevisionChanged { expected: String, observed: String },
}

/// What an error says, for a variant whose text is built from plain values.
pub open spec fn error_text(e: WcError) -> Option<Seq<char>> {
    match e {
        WcError::Io(_) => None,
        WcError::Sqlite(m) => Some("SQLite error: "@ + m@),
        WcError::Other(m) => Some(m@),
        WcError::InvalidCursor { reason } => Some("invalid library cursor: "@ + reason@),
        WcError::RevisionChanged { expected, observed } => Some(
            "library changed: expected revision "@ + decimal(expected as nat) + ", observed "@
                + decimal(observed as nat),
        ),
        WcError::SchemaTooNew { supported, observed } => Some(
            "database schema version "@ + signed_decimal(observed as int)
                + " is newer than supported version "@ + signed_decimal(supported as int),
        ),
        WcError::ConfigRevisionChanged { expected, observed } => Some(
            "behavior settings changed: expected revision "@ + expected@ + ", observed "@
                + observed@,
        ),
    }
}

impl WcError {
    /// The error as text: the message of `Other`, a prefix naming the kind
    /// of failure for the others.
    pub fn to_string(&self) -> (s: String)
        ensures
            error_text(*self) matches Some(t) ==> s@ == t,
            self is Io ==> has_prefix(s@, "I/O error: "@),
    {
        match self {
            WcError::Io(e) => {
                let mut s = "I/O error: ".to_owned();
                let ghost prefix = s@;
                let detail = e.to_string();
                append_str(&mut s, detail.as_str());
                assert(s@.take(prefix.len() as int) == prefix);
                s
            },
            WcError::Sqlite(m) => {
                let mut s = "SQLite error: ".to_owned();
                append_str(&mut s, m.as_str());
                s
            },
            WcError::Other(m) => m.clone(),
            WcError::InvalidCursor { reason } => {
                let mut s = "invalid library cursor: ".to_owned();
                append_str(&mut s, reason);
                s
            },
            WcError::RevisionChanged { expected, observed } => {
                let mut s = "library changed: expected revision ".to_owned();
                append_str(&mut s, u64_to_decimal(*expected).as_str());
                append_str(&mut s, ", observed ");
                append_str(&mut s, u64_to_decimal(*observed).as_str());
                s
            },
            WcError::SchemaTooNew { supported, observed } => {
                let mut s = "database schema version ".to_owned();
                append_str(&mut s, i64_to_decimal(*observed).as_str());
                append_str(&mut s, " is newer than supported version ");
                append_str(&mut s, i64_to_decimal(*supported).as_str());
                s
            },
            WcError::ConfigRevisionChanged { expected, observed } => {
                let mut s = "behavior settings changed: expected revision ".to_owned();
                append_str(&mut s, expected.as_str());
                append_str(&mut s, ", observed ");
                append_str(&mut s, observed.as_str());
                s
            },
        }
    }
}

/// `Err(WcError::Other(message))` with exactly this message.
pub open spec fn is_other_error<T>(r: Result<T, WcError>, message: Seq<char>) -> bool {
    match r {
        Err(WcError::Other(m)) => m@ == message,
        _ => false,
    }
}

/// `WcError::Other` with the given text.
pub fn other_error(message: &str) -> (e: WcError)
    ensures
        e matches WcError::Other(m) && m@ == message@,
{
    WcError::Other(message.to_owned())
}

/// `WcError::Other` whose text is `prefix` followed by `detail`.
pub fn other_error_with(prefix: &str, detail: &str) -> (e: WcError)
    ensures
        e matches WcError::Other(m) && m@ == prefix@ + detail@,
{
    let mut message = prefix.to_owned();
    crate::text::append_str(&mut message, detail);
    WcError::Other(message)
}

} // verus!
