//! Schema constants and the comparison rules used to decide whether a
//! database already holds the current schema.

use vstd::prelude::*;

use crate::error::{is_other_error, WcError};
use crate::sqlite::row_map::opt_view;
use crate::text::{
    append_str, ascii_lower, join, join_strings, push_char, chars_of, is_alphanumeric,
    is_whitespace, replace_all, replaced, str_eq, to_ascii_lower, to_ascii_uppercase, trim, trimmed,
    char_alphanumeric, char_whitespace, uppercased, views,
};

verus! {

// ── Normalizing schema SQL ───────────────────────────────────────────────

/// Characters that continue an identifier or keyword token.
pub open spec fn ident_char(c: char) -> bool {
    char_alphanumeric(c) || c == '_' || c == '$'
}

/// Characters that open a quoted token.
pub open spec fn quote_char(c: char) -> bool {
    c == '\'' || c == '"' || c == '`'
}

/// Position of the first line feed at or after `i`, or the end.
pub open spec fn line_end(s: Seq<char>, i: int) -> int
    decreases s.len() - i,
{
    if i >= s.len() || i < 0 {
        s.len() as int
    } else if s[i] == '\n' {
        i
    } else {
        line_end(s, i + 1)
    }
}

/// Where scanning resumes after a block comment whose body starts at `i`:
/// just past the first `*/`, or the end when it is never closed.
pub open spec fn block_end(s: Seq<char>, i: int) -> int
    decreases s.len() - i,
{
    if i < 0 || i + 1 >= s.len() {
        s.len() as int
    } else if s[i] == '*' && s[i + 1] == '/' {
        i + 2
    } else {
        block_end(s, i + 1)
    }
}

/// Where a quoted token whose body starts at `i` ends: just past the closing
/// quote `q` (a doubled quote stays inside), or the end when unclosed.
pub open spec fn quote_end(s: Seq<char>, i: int, q: char) -> int
    decreases s.len() - i,
{
    if i < 0 || i >= s.len() {
        s.len() as int
    } else if s[i] == q {
        if i + 1 < s.len() && s[i + 1] == q {
            quote_end(s, i + 2, q)
        } else {
            i + 1
        }
    } else {
        quote_end(s, i + 1, q)
    }
}

/// Where a bracketed identifier whose body starts at `i` ends: just past the
/// first `]`, or the end.
pub open spec fn bracket_end(s: Seq<char>, i: int) -> int
    decreases s.len() - i,
{
    if i < 0 || i >= s.len() {
        s.len() as int
    } else if s[i] == ']' {
        i + 1
    } else {
        bracket_end(s, i + 1)
    }
}

/// The end of the run of identifier characters starting at `i`.
pub open spec fn ident_end(s: Seq<char>, i: int) -> int
    decreases s.len() - i,
{
    if 0 <= i < s.len() && ident_char(s[i]) {
        ident_end(s, i + 1)
    } else {
        i
    }
}

pub proof fn lemma_scan_ends(s: Seq<char>, i: int, q: char)
    requires
        0 <= i <= s.len(),
    ensures
        i <= line_end(s, i) <= s.len(),
        i <= block_end(s, i) <= s.len(),
        i <= quote_end(s, i, q) <= s.len(),
        i <= bracket_end(s, i) <= s.len(),
        i <= ident_end(s, i) <= s.len(),
    decreases s.len() - i,
{
    if i < s.len() {
        lemma_scan_ends(s, i + 1, q);
        if i + 2 <= s.len() {
            lemma_scan_ends(s, i + 2, q);
        }
    }
}

/// ASCII letters lowered, everything else kept.
pub open spec fn lowered(s: Seq<char>) -> Seq<char> {
    s.map_values(|c: char| ascii_lower(c))
}

/// The tokens of schema SQL from position `i` on. White space and comments
/// separate tokens and vanish; quoted strings and bracketed names are kept
/// verbatim; identifiers and keywords are lowered; any other character is a
/// token of its own.
pub open spec fn schema_tokens_from(s: Seq<char>, i: int) -> Seq<Seq<char>>
    decreases s.len() - i,
{
    if i < 0 || i >= s.len() {
        Seq::empty()
    } else {
        proof {
            lemma_scan_ends(s, i + 1, s[i]);
            if i + 2 <= s.len() {
                lemma_scan_ends(s, i + 2, s[i]);
            }
        }
        let c = s[i];
        if char_whitespace(c) {
            schema_tokens_from(s, i + 1)
        } else if c == '-' && i + 1 < s.len() && s[i + 1] == '-' {
            schema_tokens_from(s, line_end(s, i + 2))
        } else if c == '/' && i + 1 < s.len() && s[i + 1] == '*' {
            schema_tokens_from(s, block_end(s, i + 2))
        } else if quote_char(c) {
            seq![s.subrange(i, quote_end(s, i + 1, c))] + schema_tokens_from(
                s,
                quote_end(s, i + 1, c),
            )
        } else if c == '[' {
            seq![s.subrange(i, bracket_end(s, i + 1))] + schema_tokens_from(
                s,
                bracket_end(s, i + 1),
            )
        } else if ident_char(c) {
            seq![lowered(s.subrange(i, ident_end(s, i + 1)))] + schema_tokens_from(
                s,
                ident_end(s, i + 1),
            )
        } else {
            seq![seq![c]] + schema_tokens_from(s, i + 1)
        }
    }
}

/// Schema SQL in a form that ignores formatting, comments and the case of
/// keywords and identifiers: its tokens joined by single spaces.
pub open spec fn normalized_schema(s: Seq<char>) -> Seq<char> {
    join(schema_tokens_from(s, 0), seq![' '])
}

fn is_ident_char(c: char) -> (r: bool)
    ensures
        r == ident_char(c),
{
    is_alphanumeric(c) || c == '_' || c == '$'
}

fn lowered_subrange(v: &Vec<char>, start: usize, end: usize) -> (r: String)
    requires
        start <= end <= v@.len(),
    ensures
        r@ == lowered(v@.subrange(start as int, end as int)),
{
    let mut out = String::new();
    let mut i: usize = start;
    while i < end
        invariant
            start <= i <= end <= v@.len(),
            out@ == lowered(v@.subrange(start as int, i as int)),
        decreases end - i,
    {
        let c = to_ascii_lower(v[i]);
        push_char(&mut out, c);
        assert(lowered(v@.subrange(start as int, i + 1)) =~= lowered(
            v@.subrange(start as int, i as int),
        ).push(ascii_lower(v@[i as int])));
        i = i + 1;
    }
    out
}

/// Normalizes a schema fragment so that two definitions compare equal
/// exactly when they have the same tokens.
pub fn normalize_schema_fragment(fragment: &str) -> (r: String)
    ensures
        r@ == normalized_schema(fragment@),
{
    let chars = chars_of(fragment);
    let n = chars.len();
    let ghost s = chars@;
    let mut tokens: Vec<String> = Vec::new();
    let mut index: usize = 0;
    while index < n
        invariant
            n == s.len(),
            s == chars@,
            s == fragment@,
            index <= n,
            views(tokens@) + schema_tokens_from(s, index as int) == schema_tokens_from(s, 0),
        decreases n - index,
    {
        let current = chars[index];
        let ghost before = views(tokens@);
        let ghost at = index as int;
        proof {
            lemma_scan_ends(s, at + 1, current);
            if at + 2 <= s.len() {
                lemma_scan_ends(s, at + 2, current);
            }
        }
        if is_whitespace(current) {
            index = index + 1;
            assert(schema_tokens_from(s, at) == schema_tokens_from(s, index as int));
        } else if current == '-' && index + 1 < n && chars[index + 1] == '-' {
            index = index + 2;
            while index < n && chars[index] != '\n'
                invariant
                    at + 2 <= index <= n == s.len(),
                    s == chars@,
                    line_end(s, index as int) == line_end(s, at + 2),
                decreases n - index,
            {
                index = index + 1;
            }
            assert(index == line_end(s, at + 2));
            assert(schema_tokens_from(s, at) == schema_tokens_from(s, index as int));
        } else if current == '/' && index + 1 < n && chars[index + 1] == '*' {
            index = index + 2;
            while index < n && index + 1 < n && !(chars[index] == '*' && chars[index + 1] == '/')
                invariant
                    at + 2 <= index <= n == s.len(),
                    s == chars@,
                    block_end(s, index as int) == block_end(s, at + 2),
                decreases n - index,
            {
                index = index + 1;
            }
            if index < n && index + 1 < n {
                index = index + 2;
            } else {
                index = n;
            }
            assert(index == block_end(s, at + 2));
            assert(schema_tokens_from(s, at) == schema_tokens_from(s, index as int));
        } else if current == '\'' || current == '"' || current == '`' {
            let quote = current;
            let start = index;
            index = index + 1;
            let mut closed = false;
            while index < n && !closed
                invariant
                    at + 1 <= index <= n == s.len(),
                    s == chars@,
                    !closed ==> quote_end(s, index as int, quote) == quote_end(s, at + 1, quote),
                    closed ==> index == quote_end(s, at + 1, quote),
                decreases n - index,
            {
                if chars[index] == quote {
                    if index + 1 < n && chars[index + 1] == quote {
                        index = index + 2;
                    } else {
                        index = index + 1;
                        closed = true;
                    }
                } else {
                    index = index + 1;
                }
            }
            assert(index == quote_end(s, at + 1, quote));
            let tok = crate::text::string_from_subrange(&chars, start, index);
            tokens.push(tok);
            proof {
                assert(views(tokens@) == before.push(s.subrange(at, index as int)));
                assert(schema_tokens_from(s, at) == seq![s.subrange(at, index as int)]
                    + schema_tokens_from(s, index as int));
                assert(before.push(s.subrange(at, index as int)) + schema_tokens_from(
                    s,
                    index as int,
                ) == before + (seq![s.subrange(at, index as int)] + schema_tokens_from(
                    s,
                    index as int,
                )));
            }
        } else if current == '[' {
            let start = index;
            index = index + 1;
            while index < n && chars[index] != ']'
                invariant
                    at + 1 <= index <= n == s.len(),
                    s == chars@,
                    bracket_end(s, index as int) == bracket_end(s, at + 1),
                decreases n - index,
            {
                index = index + 1;
            }
            if index < n {
                index = index + 1;
            }
            assert(index == bracket_end(s, at + 1));
            let tok = crate::text::string_from_subrange(&chars, start, index);
            tokens.push(tok);
            proof {
                assert(views(tokens@) == before.push(s.subrange(at, index as int)));
                assert(schema_tokens_from(s, at) == seq![s.subrange(at, index as int)]
                    + schema_tokens_from(s, index as int));
                assert(before.push(s.subrange(at, index as int)) + schema_tokens_from(
                    s,
                    index as int,
                ) == before + (seq![s.subrange(at, index as int)] + schema_tokens_from(
                    s,
                    index as int,
                )));
            }
        } else if is_ident_char(current) {
            let start = index;
            index = index + 1;
            while index < n && is_ident_char(chars[index])
                invariant
                    at + 1 <= index <= n == s.len(),
                    s == chars@,
                    ident_end(s, index as int) == ident_end(s, at + 1),
                decreases n - index,
            {
                index = index + 1;
            }
            assert(index == ident_end(s, at + 1));
            let tok = lowered_subrange(&chars, start, index);
            tokens.push(tok);
            proof {
                let t = lowered(s.subrange(at, index as int));
                assert(views(tokens@) == before.push(t));
                assert(schema_tokens_from(s, at) == seq![t] + schema_tokens_from(s, index as int));
                assert(before.push(t) + schema_tokens_from(s, index as int) == before + (seq![t]
                    + schema_tokens_from(s, index as int)));
            }
        } else {
            let mut single = String::new();
            push_char(&mut single, current);
            tokens.push(single);
            index = index + 1;
            proof {
                let t = seq![current];
                assert(single@ =~= t);
                assert(views(tokens@) == before.push(t));
                assert(schema_tokens_from(s, at) == seq![t] + schema_tokens_from(s, index as int));
                assert(before.push(t) + schema_tokens_from(s, index as int) == before + (seq![t]
                    + schema_tokens_from(s, index as int)));
            }
        }
    }
    assert(views(tokens@) + schema_tokens_from(s, n as int) == views(tokens@));
    let mut sep = String::new();
    push_char(&mut sep, ' ');
    join_strings(&tokens, sep.as_str())
}

// ── Schema versions and required objects ─────────────────────────────────

/// The schema version this build writes and reads.
pub const CURRENT_SCHEMA_VERSION: i64 = 6;

/// The version of the wallpaper search index layout.
pub const FTS_SCHEMA_VERSION: &'static str = "2";

/// The tables whose rows a repair preserves, in copy order.
pub fn current_persistent_tables() -> (r: Vec<&'static str>)
    ensures
        r@.len() == 10,
        r@[0]@ == "config"@,
        r@[1]@ == "sources"@,
        r@[2]@ == "wallpapers"@,
        r@[3]@ == "wallpaper_sources"@,
        r@[4]@ == "favorites"@,
        r@[5]@ == "history"@,
        r@[6]@ == "state"@,
        r@[7]@ == "display_state"@,
        r@[8]@ == "source_refresh_state"@,
        r@[9]@ == "db_meta"@,
{
    let mut v: Vec<&'static str> = Vec::new();
    v.push("config");
    v.push("sources");
    v.push("wallpapers");
    v.push("wallpaper_sources");
    v.push("favorites");
    v.push("history");
    v.push("state");
    v.push("display_state");
    v.push("source_refresh_state");
    v.push("db_meta");
    v
}

/// The indexes the current schema must hold.
pub fn required_current_indexes() -> (r: Vec<&'static str>)
    ensures
        r@.len() == 8,
        r@[0]@ == "idx_wallpapers_path"@,
        r@[1]@ == "idx_wallpapers_type"@,
        r@[2]@ == "idx_wallpapers_mtime"@,
        r@[3]@ == "idx_wallpapers_size"@,
        r@[4]@ == "idx_wallpapers_type_mtime"@,
        r@[5]@ == "idx_wallpapers_type_size"@,
        r@[6]@ == "idx_wallpapers_added_at"@,
        r@[7]@ == "idx_wallpaper_sources_source"@,
{
    let mut v: Vec<&'static str> = Vec::new();
    v.push("idx_wallpapers_path");
    v.push("idx_wallpapers_type");
    v.push("idx_wallpapers_mtime");
    v.push("idx_wallpapers_size");
    v.push("idx_wallpapers_type_mtime");
    v.push("idx_wallpapers_type_size");
    v.push("idx_wallpapers_added_at");
    v.push("idx_wallpaper_sources_source");
    v
}

/// A database written by a newer build is never migrated or opened.
pub fn check_schema_not_newer(version: i64) -> (r: Result<(), WcError>)
    ensures
        version <= CURRENT_SCHEMA_VERSION ==> r is Ok,
        version > CURRENT_SCHEMA_VERSION ==> r == Err::<(), WcError>(
            WcError::SchemaTooNew { supported: CURRENT_SCHEMA_VERSION, observed: version },
        ),
{
    if version > CURRENT_SCHEMA_VERSION {
        Err(WcError::SchemaTooNew { supported: CURRENT_SCHEMA_VERSION, observed: version })
    } else {
        Ok(())
    }
}

/// The work a schema migration does for a database at `version`: whether
/// sources and memberships must be rebuilt from the first layout, and
/// whether the stored version must be raised.
pub fn migration_plan(version: i64) -> (r: (bool, bool))
    ensures
        r.0 == (version < 2),
        r.1 == (version < CURRENT_SCHEMA_VERSION),
{
    (version < 2, version < CURRENT_SCHEMA_VERSION)
}

/// A warm start needs no migration only at the current version.
pub fn warm_start_ready(version: i64) -> (r: bool)
    ensures
        r == (version == CURRENT_SCHEMA_VERSION),
{
    version == CURRENT_SCHEMA_VERSION
}

// ── Table shapes ─────────────────────────────────────────────────────────

/// One column as `pragma_table_xinfo` describes it, normalized: the
/// declared type trimmed and upper-cased, the default trimmed.
#[derive(Debug, Clone)]
pub struct ColumnSignature {
    pub name: String,
    pub declared_type: String,
    pub not_null: bool,
    pub default_value: Option<String>,
    pub primary_key_position: i64,
    pub hidden: i64,
}

/// The signature of a column from its pragma fields.
pub fn column_signature(
    name: String,
    declared_type: &str,
    not_null: i64,
    default_value: Option<String>,
    primary_key_position: i64,
    hidden: i64,
) -> (r: ColumnSignature)
    ensures
        r.name@ == name@,
        r.declared_type@ == uppercased(trimmed(declared_type@)),
        r.not_null == (not_null != 0),
        opt_view(r.default_value) == match default_value {
            Some(v) => Some(trimmed(v@)),
            None => None,
        },
        r.primary_key_position == primary_key_position,
        r.hidden == hidden,
{
    let t = trim(declared_type);
    let declared = to_ascii_uppercase(t.as_str());
    let default_value = match default_value {
        Some(v) => Some(trim(v.as_str())),
        None => None,
    };
    ColumnSignature {
        name,
        declared_type: declared,
        not_null: not_null != 0,
        default_value,
        primary_key_position,
        hidden,
    }
}

pub open spec fn column_eq(a: ColumnSignature, b: ColumnSignature) -> bool {
    &&& a.name@ == b.name@
    &&& a.declared_type@ == b.declared_type@
    &&& a.not_null == b.not_null
    &&& opt_view(a.default_value) == opt_view(b.default_value)
    &&& a.primary_key_position == b.primary_key_position
    &&& a.hidden == b.hidden
}

/// The first column with the given name.
pub open spec fn column_named(cols: Seq<ColumnSignature>, name: Seq<char>) -> Option<ColumnSignature>
    decreases cols.len(),
{
    if cols.len() == 0 {
        None
    } else if cols[0].name@ == name {
        Some(cols[0])
    } else {
        column_named(cols.drop_first(), name)
    }
}

/// Whether the database's column stands for an expected one: identical, or
/// the `wallpapers.added_at` column that migrated databases keep with an
/// empty-string default.
pub open spec fn column_accepted(table: Seq<char>, e: ColumnSignature, actual: Seq<ColumnSignature>) -> bool {
    match column_named(actual, e.name@) {
        None => false,
        Some(c) => column_eq(c, e) || (table == "wallpapers"@ && e.name@ == "added_at"@
            && c.declared_type@ == e.declared_type@ && c.not_null == e.not_null
            && c.primary_key_position == e.primary_key_position && opt_view(c.default_value)
            == Some("''"@) && c.hidden == e.hidden),
    }
}

/// The first expected column that the database lacks or changes.
pub open spec fn columns_fault(table: Seq<char>, expected: Seq<ColumnSignature>, actual: Seq<ColumnSignature>) -> Option<Seq<char>>
    decreases expected.len(),
{
    if expected.len() == 0 {
        None
    } else {
        match columns_fault(table, expected.drop_last(), actual) {
            Some(m) => Some(m),
            None => if column_accepted(table, expected.last(), actual) {
                None
            } else {
                Some(
                    "current schema table "@ + table + " is missing or changes required column "@
                        + expected.last().name@,
                )
            },
        }
    }
}

fn opt_str_eq(a: &Option<String>, b: &Option<String>) -> (r: bool)
    ensures
        r == (opt_view(*a) == opt_view(*b)),
{
    match (a, b) {
        (Some(x), Some(y)) => str_eq(x.as_str(), y.as_str()),
        (None, None) => true,
        _ => false,
    }
}

fn find_column(cols: &Vec<ColumnSignature>, name: &str) -> (r: Option<usize>)
    ensures
        match r {
            Some(i) => i < cols@.len() && column_named(cols@, name@) == Some(cols@[i as int]),
            None => column_named(cols@, name@) is None,
        },
{
    let mut i: usize = 0;
    assert(cols@.skip(0) == cols@);
    while i < cols.len()
        invariant
            i <= cols@.len(),
            column_named(cols@, name@) == column_named(cols@.skip(i as int), name@),
        decreases cols@.len() - i,
    {
        assert(cols@.skip(i as int)[0] == cols@[i as int]);
        assert(cols@.skip(i as int).drop_first() == cols@.skip(i + 1));
        if str_eq(cols[i].name.as_str(), name) {
            return Some(i);
        }
        i = i + 1;
    }
    None
}

/// Checks the columns of a table against the current schema's.
pub fn check_table_columns(table: &str, expected: &Vec<ColumnSignature>, actual: &Vec<ColumnSignature>) -> (r: Result<(), WcError>)
    ensures
        actual@.len() != expected@.len() ==> is_other_error(
            r,
            "current schema table "@ + table@ + " has unexpected columns"@,
        ),
        actual@.len() == expected@.len() ==> match columns_fault(table@, expected@, actual@) {
            Some(m) => is_other_error(r, m),
            None => r is Ok,
        },
{
    if actual.len() != expected.len() {
        let mut m = String::new();
        append_str(&mut m, "current schema table ");
        append_str(&mut m, table);
        append_str(&mut m, " has unexpected columns");
        return Err(WcError::Other(m));
    }
    assert(actual@.skip(0) == actual@);
    let mut i: usize = 0;
    while i < expected.len()
        invariant
            i <= expected@.len(),
            actual@.len() == expected@.len(),
            columns_fault(table@, expected@.take(i as int), actual@) is None,
        decreases expected@.len() - i,
    {
        let e = &expected[i];
        assert(expected@.take(i + 1).drop_last() == expected@.take(i as int));
        assert(expected@.take(i + 1).last() == expected@[i as int]);
        let accepted = match find_column(actual, e.name.as_str()) {
            None => false,
            Some(j) => {
                let c = &actual[j];
                let same = str_eq(c.name.as_str(), e.name.as_str()) && str_eq(
                    c.declared_type.as_str(),
                    e.declared_type.as_str(),
                ) && c.not_null == e.not_null && opt_str_eq(&c.default_value, &e.default_value)
                    && c.primary_key_position == e.primary_key_position && c.hidden == e.hidden;
                let migrated = str_eq(table, "wallpapers") && str_eq(e.name.as_str(), "added_at")
                    && str_eq(c.declared_type.as_str(), e.declared_type.as_str()) && c.not_null
                    == e.not_null && c.primary_key_position == e.primary_key_position && match &c.default_value {
                    Some(d) => str_eq(d.as_str(), "''"),
                    None => false,
                } && c.hidden == e.hidden;
                same || migrated
            },
        };
        assert(accepted == column_accepted(table@, expected@[i as int], actual@));
        if !accepted {
            proof {
                lemma_columns_fault_prefix(table@, expected@, actual@, i + 1);
            }
            let mut m = String::new();
            append_str(&mut m, "current schema table ");
            append_str(&mut m, table);
            append_str(&mut m, " is missing or changes required column ");
            append_str(&mut m, e.name.as_str());
            return Err(WcError::Other(m));
        }
        i = i + 1;
    }
    assert(expected@.take(expected@.len() as int) == expected@);
    Ok(())
}

proof fn lemma_columns_fault_prefix(
    table: Seq<char>,
    expected: Seq<ColumnSignature>,
    actual: Seq<ColumnSignature>,
    k: int,
)
    requires
        0 <= k <= expected.len(),
    ensures
        columns_fault(table, expected.take(k), actual) is Some ==> columns_fault(table, expected, actual)
            == columns_fault(table, expected.take(k), actual),
    decreases expected.len() - k,
{
    if k < expected.len() {
        lemma_columns_fault_prefix(table, expected, actual, k + 1);
        assert(expected.take(k + 1).drop_last() == expected.take(k));
    } else {
        assert(expected.take(k) == expected);
    }
}

/// The normalized definition of the `added_at` column in the current
/// schema, and as databases migrated from the first layout hold it.
pub fn added_at_definitions() -> (r: (String, String))
    ensures
        r.0@ == normalized_schema("added_at TEXT NOT NULL DEFAULT (datetime('now'))"@),
        r.1@ == normalized_schema("added_at TEXT NOT NULL DEFAULT ''"@),
{
    (
        normalize_schema_fragment("added_at TEXT NOT NULL DEFAULT (datetime('now'))"),
        normalize_schema_fragment("added_at TEXT NOT NULL DEFAULT ''"),
    )
}

/// The current definition of a table, normalized, with a migrated
/// `wallpapers.added_at` default accepted.
pub open spec fn table_definition_accepted(table: Seq<char>, expected: Seq<char>, actual: Seq<char>, current_added_at: Seq<char>, migrated_added_at: Seq<char>) -> bool {
    actual == expected || (table == "wallpapers"@ && actual == replaced(
        expected,
        current_added_at,
        migrated_added_at,
    ))
}

/// Checks a table's normalized definition against the current schema's.
pub fn check_table_definition(table: &str, expected: &str, actual: &str) -> (r: Result<(), WcError>)
    ensures
        table_definition_accepted(
            table@,
            expected@,
            actual@,
            normalized_schema("added_at TEXT NOT NULL DEFAULT (datetime('now'))"@),
            normalized_schema("added_at TEXT NOT NULL DEFAULT ''"@),
        ) ==> r is Ok,
        !table_definition_accepted(
            table@,
            expected@,
            actual@,
            normalized_schema("added_at TEXT NOT NULL DEFAULT (datetime('now'))"@),
            normalized_schema("added_at TEXT NOT NULL DEFAULT ''"@),
        ) ==> is_other_error(
            r,
            "current schema table "@ + table@ + " definition differs from the current schema"@,
        ),
{
    let (current, migrated) = added_at_definitions();
    let accepted = if str_eq(actual, expected) {
        true
    } else if str_eq(table, "wallpapers") {
        if current.as_str().is_empty() {
            false
        } else {
            let rewritten = replace_all(expected, current.as_str(), migrated.as_str());
            str_eq(actual, rewritten.as_str())
        }
    } else {
        false
    };
    proof {
        if current@.len() == 0 {
            assert(current@ =~= Seq::<char>::empty());
            assert(replaced(expected@, current@, migrated@) == expected@) by {
                lemma_replace_empty_pattern(expected@, 0, migrated@);
                assert(expected@.skip(0) == expected@);
            }
        }
    }
    if !accepted {
        let mut m = String::new();
        append_str(&mut m, "current schema table ");
        append_str(&mut m, table);
        append_str(&mut m, " definition differs from the current schema");
        return Err(WcError::Other(m));
    }
    Ok(())
}

/// Replacing an empty pattern leaves text as it is.
proof fn lemma_replace_empty_pattern(s: Seq<char>, i: int, to: Seq<char>)
    requires
        0 <= i <= s.len(),
    ensures
        crate::text::replaced_from(s, i, Seq::empty(), to) == s.skip(i),
    decreases s.len() - i,
{
    if i < s.len() {
        lemma_replace_empty_pattern(s, i + 1, to);
        assert(s.skip(i) == seq![s[i]] + s.skip(i + 1));
    } else {
        assert(s.skip(i) == Seq::<char>::empty());
    }
}

// ── Keys, indexes and triggers ───────────────────────────────────────────

/// How often `x` occurs in `s`.
pub open spec fn count_in<T>(s: Seq<T>, x: T) -> nat
    decreases s.len(),
{
    if s.len() == 0 {
        0
    } else {
        count_in(s.drop_last(), x) + if s.last() == x {
            1nat
        } else {
            0nat
        }
    }
}

/// Two lists hold the same elements with the same multiplicities, in any
/// order: what comparing them after sorting both decides.
pub open spec fn same_elements<T>(a: Seq<T>, b: Seq<T>) -> bool {
    forall|x: T| #[trigger] count_in(a, x) == count_in(b, x)
}

proof fn lemma_count_in_zero<T>(s: Seq<T>, x: T)
    ensures
        count_in(s, x) == 0 <==> !s.contains(x),
    decreases s.len(),
{
    if s.len() > 0 {
        lemma_count_in_zero(s.drop_last(), x);
        if s.drop_last().contains(x) {
            let k = choose|k: int| 0 <= k < s.drop_last().len() && s.drop_last()[k] == x;
            assert(s[k] == x);
        }
        if s.contains(x) {
            let k = choose|k: int| 0 <= k < s.len() && s[k] == x;
            if k < s.len() - 1 {
                assert(s.drop_last()[k] == x);
            }
        }
    }
}

/// One foreign key of a table.
#[derive(Debug, Clone)]
pub struct ForeignKeySignature {
    pub target_table: String,
    pub from_column: String,
    pub to_column: String,
    pub on_update: String,
    pub on_delete: String,
    pub match_mode: String,
}

pub open spec fn fk_view(f: ForeignKeySignature) -> Seq<Seq<char>> {
    seq![f.target_table@, f.from_column@, f.to_column@, f.on_update@, f.on_delete@, f.match_mode@]
}

pub open spec fn fk_views(v: Seq<ForeignKeySignature>) -> Seq<Seq<Seq<char>>> {
    v.map_values(|f: ForeignKeySignature| fk_view(f))
}

fn fk_eq(a: &ForeignKeySignature, b: &ForeignKeySignature) -> (r: bool)
    ensures
        r == (fk_view(*a) == fk_view(*b)),
{
    let r = str_eq(a.target_table.as_str(), b.target_table.as_str()) && str_eq(
        a.from_column.as_str(),
        b.from_column.as_str(),
    ) && str_eq(a.to_column.as_str(), b.to_column.as_str()) && str_eq(
        a.on_update.as_str(),
        b.on_update.as_str(),
    ) && str_eq(a.on_delete.as_str(), b.on_delete.as_str()) && str_eq(
        a.match_mode.as_str(),
        b.match_mode.as_str(),
    );
    proof {
        if !r {
            if fk_view(*a) == fk_view(*b) {
                assert(fk_view(*a)[0] == fk_view(*b)[0]);
                assert(fk_view(*a)[1] == fk_view(*b)[1]);
                assert(fk_view(*a)[2] == fk_view(*b)[2]);
                assert(fk_view(*a)[3] == fk_view(*b)[3]);
                assert(fk_view(*a)[4] == fk_view(*b)[4]);
                assert(fk_view(*a)[5] == fk_view(*b)[5]);
            }
        } else {
            assert(fk_view(*a) =~= fk_view(*b));
        }
    }
    r
}

fn fk_count(v: &Vec<ForeignKeySignature>, x: &ForeignKeySignature) -> (r: usize)
    ensures
        r == count_in(fk_views(v@), fk_view(*x)),
{
    let ghost vs = fk_views(v@);
    let mut n: usize = 0;
    let mut i: usize = 0;
    while i < v.len()
        invariant
            i <= v@.len(),
            vs == fk_views(v@),
            n == count_in(vs.take(i as int), fk_view(*x)),
            n <= i,
        decreases v@.len() - i,
    {
        assert(vs.take(i + 1).drop_last() == vs.take(i as int));
        assert(vs.take(i + 1).last() == fk_view(v@[i as int]));
        if fk_eq(&v[i], x) {
            n = n + 1;
        }
        i = i + 1;
    }
    assert(vs.take(v@.len() as int) == vs);
    n
}

/// Whether two tables declare the same foreign keys, in any order.
pub fn same_foreign_keys(a: &Vec<ForeignKeySignature>, b: &Vec<ForeignKeySignature>) -> (r: bool)
    ensures
        r == same_elements(fk_views(a@), fk_views(b@)),
{
    let ghost av = fk_views(a@);
    let ghost bv = fk_views(b@);
    let mut i: usize = 0;
    while i < a.len()
        invariant
            i <= a@.len(),
            av == fk_views(a@),
            bv == fk_views(b@),
            forall|k: int| 0 <= k < i ==> count_in(av, #[trigger] av[k]) == count_in(bv, av[k]),
        decreases a@.len() - i,
    {
        if fk_count(a, &a[i]) != fk_count(b, &a[i]) {
            assert(av[i as int] == fk_view(a@[i as int]));
            return false;
        }
        i = i + 1;
    }
    let mut j: usize = 0;
    while j < b.len()
        invariant
            j <= b@.len(),
            av == fk_views(a@),
            bv == fk_views(b@),
            forall|k: int| 0 <= k < a@.len() ==> count_in(av, #[trigger] av[k]) == count_in(bv, av[k]),
            forall|k: int| 0 <= k < j ==> count_in(av, #[trigger] bv[k]) == count_in(bv, bv[k]),
        decreases b@.len() - j,
    {
        if fk_count(a, &b[j]) != fk_count(b, &b[j]) {
            assert(bv[j as int] == fk_view(b@[j as int]));
            return false;
        }
        j = j + 1;
    }
    proof {
        assert forall|x: Seq<Seq<char>>| #[trigger] count_in(av, x) == count_in(bv, x) by {
            lemma_count_in_zero(av, x);
            lemma_count_in_zero(bv, x);
            if av.contains(x) {
                let k = choose|k: int| 0 <= k < av.len() && av[k] == x;
                assert(count_in(av, av[k]) == count_in(bv, av[k]));
            } else if bv.contains(x) {
                let k = choose|k: int| 0 <= k < bv.len() && bv[k] == x;
                assert(count_in(av, bv[k]) == count_in(bv, bv[k]));
            }
        }
    }
    true
}

/// The foreign keys of a table must be those of the current schema.
pub fn check_foreign_keys(table: &str, expected: &Vec<ForeignKeySignature>, actual: &Vec<ForeignKeySignature>) -> (r: Result<(), WcError>)
    ensures
        same_elements(fk_views(actual@), fk_views(expected@)) ==> r is Ok,
        !same_elements(fk_views(actual@), fk_views(expected@)) ==> is_other_error(
            r,
            "current schema table "@ + table@ + " has invalid foreign keys"@,
        ),
{
    if !same_foreign_keys(actual, expected) {
        let mut m = String::new();
        append_str(&mut m, "current schema table ");
        append_str(&mut m, table);
        append_str(&mut m, " has invalid foreign keys");
        return Err(WcError::Other(m));
    }
    Ok(())
}

/// One key column of an index.
#[derive(Debug, Clone)]
pub struct IndexColumnSignature {
    pub column_id: i64,
    pub name: Option<String>,
    pub descending: bool,
    pub collation: String,
}

/// An index: its table, uniqueness, origin, partiality and key columns.
#[derive(Debug, Clone)]
pub struct IndexSignature {
    pub table_name: String,
    pub unique: bool,
    pub origin: String,
    pub partial: bool,
    pub columns: Vec<IndexColumnSignature>,
}

pub open spec fn index_column_view(c: IndexColumnSignature) -> (i64, Option<Seq<char>>, bool, Seq<char>) {
    (c.column_id, opt_view(c.name), c.descending, c.collation@)
}

pub open spec fn index_view(s: IndexSignature) -> (Seq<char>, bool, Seq<char>, bool, Seq<(i64, Option<Seq<char>>, bool, Seq<char>)>) {
    (
        s.table_name@,
        s.unique,
        s.origin@,
        s.partial,
        s.columns@.map_values(|c: IndexColumnSignature| index_column_view(c)),
    )
}

pub open spec fn index_views(v: Seq<IndexSignature>) -> Seq<(Seq<char>, bool, Seq<char>, bool, Seq<(i64, Option<Seq<char>>, bool, Seq<char>)>)> {
    v.map_values(|s: IndexSignature| index_view(s))
}

fn index_column_eq(a: &IndexColumnSignature, b: &IndexColumnSignature) -> (r: bool)
    ensures
        r == (index_column_view(*a) == index_column_view(*b)),
{
    a.column_id == b.column_id && opt_str_eq(&a.name, &b.name) && a.descending == b.descending
        && str_eq(a.collation.as_str(), b.collation.as_str())
}

fn index_eq(a: &IndexSignature, b: &IndexSignature) -> (r: bool)
    ensures
        r == (index_view(*a) == index_view(*b)),
{
    let ghost ac = a.columns@.map_values(|c: IndexColumnSignature| index_column_view(c));
    let ghost bc = b.columns@.map_values(|c: IndexColumnSignature| index_column_view(c));
    if !(str_eq(a.table_name.as_str(), b.table_name.as_str()) && a.unique == b.unique && str_eq(
        a.origin.as_str(),
        b.origin.as_str(),
    ) && a.partial == b.partial) {
        return false;
    }
    if a.columns.len() != b.columns.len() {
        assert(ac.len() != bc.len());
        return false;
    }
    let mut i: usize = 0;
    while i < a.columns.len()
        invariant
            i <= a.columns@.len() == b.columns@.len(),
            ac == a.columns@.map_values(|c: IndexColumnSignature| index_column_view(c)),
            bc == b.columns@.map_values(|c: IndexColumnSignature| index_column_view(c)),
            forall|k: int| 0 <= k < i ==> ac[k] == bc[k],
        decreases a.columns@.len() - i,
    {
        if !index_column_eq(&a.columns[i], &b.columns[i]) {
            assert(ac[i as int] != bc[i as int]);
            return false;
        }
        i = i + 1;
    }
    assert(ac =~= bc);
    true
}

fn index_count(v: &Vec<IndexSignature>, x: &IndexSignature) -> (r: usize)
    ensures
        r == count_in(index_views(v@), index_view(*x)),
{
    let ghost vs = index_views(v@);
    let mut n: usize = 0;
    let mut i: usize = 0;
    while i < v.len()
        invariant
            i <= v@.len(),
            vs == index_views(v@),
            n == count_in(vs.take(i as int), index_view(*x)),
            n <= i,
        decreases v@.len() - i,
    {
        assert(vs.take(i + 1).drop_last() == vs.take(i as int));
        assert(vs.take(i + 1).last() == index_view(v@[i as int]));
        if index_eq(&v[i], x) {
            n = n + 1;
        }
        i = i + 1;
    }
    assert(vs.take(v@.len() as int) == vs);
    n
}

/// Whether two tables have the same unique indexes, in any order.
pub fn same_indexes(a: &Vec<IndexSignature>, b: &Vec<IndexSignature>) -> (r: bool)
    ensures
        r == same_elements(index_views(a@), index_views(b@)),
{
    let ghost av = index_views(a@);
    let ghost bv = index_views(b@);
    let mut i: usize = 0;
    while i < a.len()
        invariant
            i <= a@.len(),
            av == index_views(a@),
            bv == index_views(b@),
            forall|k: int| 0 <= k < i ==> count_in(av, #[trigger] av[k]) == count_in(bv, av[k]),
        decreases a@.len() - i,
    {
        if index_count(a, &a[i]) != index_count(b, &a[i]) {
            assert(av[i as int] == index_view(a@[i as int]));
            return false;
        }
        i = i + 1;
    }
    let mut j: usize = 0;
    while j < b.len()
        invariant
            j <= b@.len(),
            av == index_views(a@),
            bv == index_views(b@),
            forall|k: int| 0 <= k < a@.len() ==> count_in(av, #[trigger] av[k]) == count_in(bv, av[k]),
            forall|k: int| 0 <= k < j ==> count_in(av, #[trigger] bv[k]) == count_in(bv, bv[k]),
        decreases b@.len() - j,
    {
        if index_count(a, &b[j]) != index_count(b, &b[j]) {
            assert(bv[j as int] == index_view(b@[j as int]));
            return false;
        }
        j = j + 1;
    }
    proof {
        assert forall|x| #[trigger] count_in(av, x) == count_in(bv, x) by {
            lemma_count_in_zero(av, x);
            lemma_count_in_zero(bv, x);
            if av.contains(x) {
                let k = choose|k: int| 0 <= k < av.len() && av[k] == x;
                assert(count_in(av, av[k]) == count_in(bv, av[k]));
            } else if bv.contains(x) {
                let k = choose|k: int| 0 <= k < bv.len() && bv[k] == x;
                assert(count_in(av, bv[k]) == count_in(bv, bv[k]));
            }
        }
    }
    true
}

/// The unique indexes of a table must be those of the current schema.
pub fn check_unique_indexes(table: &str, expected: &Vec<IndexSignature>, actual: &Vec<IndexSignature>) -> (r: Result<(), WcError>)
    ensures
        same_elements(index_views(actual@), index_views(expected@)) ==> r is Ok,
        !same_elements(index_views(actual@), index_views(expected@)) ==> is_other_error(
            r,
            "current schema table "@ + table@ + " has invalid unique indexes"@,
        ),
{
    if !same_indexes(actual, expected) {
        let mut m = String::new();
        append_str(&mut m, "current schema table ");
        append_str(&mut m, table);
        append_str(&mut m, " has invalid unique indexes");
        return Err(WcError::Other(m));
    }
    Ok(())
}

pub open spec fn opt_index_view(s: Option<IndexSignature>) -> Option<(Seq<char>, bool, Seq<char>, bool, Seq<(i64, Option<Seq<char>>, bool, Seq<char>)>)> {
    match s {
        Some(i) => Some(index_view(i)),
        None => None,
    }
}

/// A required index must exist exactly as in the current schema.
pub fn check_required_index(name: &str, expected: &Option<IndexSignature>, actual: &Option<IndexSignature>) -> (r: Result<(), WcError>)
    ensures
        opt_index_view(*actual) == opt_index_view(*expected) ==> r is Ok,
        opt_index_view(*actual) != opt_index_view(*expected) ==> is_other_error(
            r,
            "current schema has a missing or invalid required index "@ + name@,
        ),
{
    let same = match (actual, expected) {
        (Some(a), Some(e)) => index_eq(a, e),
        (None, None) => true,
        _ => false,
    };
    if !same {
        let mut m = String::new();
        append_str(&mut m, "current schema has a missing or invalid required index ");
        append_str(&mut m, name);
        return Err(WcError::Other(m));
    }
    Ok(())
}

/// Two key columns are alike: same column, same name, same sort direction
/// and same collation.
pub open spec fn key_columns_alike(x: IndexColumnSignature, y: IndexColumnSignature) -> bool {
    &&& x.column_id == y.column_id
    &&& x.name is Some <==> y.name is Some
    &&& x.name is Some ==> x.name.unwrap()@ == y.name.unwrap()@
    &&& x.descending == y.descending
    &&& x.collation@ == y.collation@
}

/// Index signatures compare field by field: two indexes count as the same
/// exactly when their tables, uniqueness, origins and partiality agree and
/// their key columns agree one by one, sort direction included.
pub proof fn lemma_index_signatures_compare_fields(a: IndexSignature, b: IndexSignature)
    ensures
        index_view(a) == index_view(b) <==> {
            &&& a.table_name@ == b.table_name@
            &&& a.unique == b.unique
            &&& a.origin@ == b.origin@
            &&& a.partial == b.partial
            &&& a.columns@.len() == b.columns@.len()
            &&& forall|k: int|
                0 <= k < a.columns@.len() ==> key_columns_alike(#[trigger] a.columns@[k], b.columns@[k])
        },
{
    let ac = a.columns@.map_values(|c: IndexColumnSignature| index_column_view(c));
    let bc = b.columns@.map_values(|c: IndexColumnSignature| index_column_view(c));
    if index_view(a) == index_view(b) {
        assert(ac.len() == bc.len());
        assert forall|k: int| 0 <= k < a.columns@.len() implies key_columns_alike(
            #[trigger] a.columns@[k],
            b.columns@[k],
        ) by {
            assert(ac[k] == bc[k]);
            let x = a.columns@[k];
            let y = b.columns@[k];
            if x.name is Some {
                assert(opt_view(x.name) == opt_view(y.name));
            }
            if y.name is Some {
                assert(opt_view(x.name) == opt_view(y.name));
            }
        }
    }
    if a.table_name@ == b.table_name@ && a.unique == b.unique && a.origin@ == b.origin@ && a.partial
        == b.partial && a.columns@.len() == b.columns@.len() && forall|k: int|
        0 <= k < a.columns@.len() ==> key_columns_alike(#[trigger] a.columns@[k], b.columns@[k]) {
        assert forall|k: int| 0 <= k < ac.len() implies ac[k] == bc[k] by {
            assert(key_columns_alike(a.columns@[k], b.columns@[k]));
        }
        assert(ac =~= bc);
    }
}

/// An index whose key column runs the other way is not the current one:
/// neither as a required index nor among a table's unique indexes.
pub proof fn lemma_index_direction_matters(expected: IndexSignature, actual: IndexSignature, k: int)
    requires
        0 <= k < expected.columns@.len(),
        k < actual.columns@.len(),
        expected.columns@[k].descending != actual.columns@[k].descending,
    ensures
        opt_index_view(Some(actual)) != opt_index_view(Some(expected)),
        !same_elements(index_views(seq![actual]), index_views(seq![expected])),
{
    lemma_index_signatures_compare_fields(actual, expected);
    assert(!key_columns_alike(actual.columns@[k], expected.columns@[k]));
    let av = index_view(actual);
    assert(index_views(seq![actual]) =~= seq![av]);
    assert(index_views(seq![expected]) =~= seq![index_view(expected)]);
    assert(seq![av].drop_last() =~= Seq::<(Seq<char>, bool, Seq<char>, bool, Seq<(i64, Option<Seq<char>>, bool, Seq<char>)>)>::empty());
    assert(seq![index_view(expected)].drop_last() =~= Seq::<(Seq<char>, bool, Seq<char>, bool, Seq<(i64, Option<Seq<char>>, bool, Seq<char>)>)>::empty());
    let none = Seq::<(Seq<char>, bool, Seq<char>, bool, Seq<(i64, Option<Seq<char>>, bool, Seq<char>)>)>::empty();
    assert(count_in(none, av) == 0);
    assert(seq![av].len() == 1 && seq![av].last() == av);
    assert(count_in(seq![av], av) == count_in(seq![av].drop_last(), av) + 1);
    assert(count_in(seq![av], av) == 1);
    assert(count_in(seq![index_view(expected)], av) == 0);
}

/// A trigger: its name, table and definition with white space collapsed.
#[derive(Debug, Clone)]
pub struct TriggerSignature {
    pub name: String,
    pub table_name: String,
    pub normalized_sql: String,
}

pub open spec fn trigger_view(t: TriggerSignature) -> (Seq<char>, Seq<char>, Seq<char>) {
    (t.name@, t.table_name@, t.normalized_sql@)
}

pub open spec fn trigger_views(v: Seq<TriggerSignature>) -> Seq<(Seq<char>, Seq<char>, Seq<char>)> {
    v.map_values(|t: TriggerSignature| trigger_view(t))
}

/// The signature of a trigger from its stored definition.
pub fn trigger_signature(name: String, table_name: String, sql: &str) -> (r: TriggerSignature)
    ensures
        r.name@ == name@,
        r.table_name@ == table_name@,
        r.normalized_sql@ == join(crate::text::words(sql@), seq![' ']),
{
    let normalized_sql = crate::sqlite::library_browser::normalized_browser_search(sql);
    TriggerSignature { name, table_name, normalized_sql }
}

/// The triggers must be exactly the current schema's, in name order.
pub fn check_triggers(expected: &Vec<TriggerSignature>, actual: &Vec<TriggerSignature>) -> (r: Result<(), WcError>)
    ensures
        trigger_views(actual@) == trigger_views(expected@) ==> r is Ok,
        trigger_views(actual@) != trigger_views(expected@) ==> is_other_error(
            r,
            "current schema has invalid or unexpected trigger definitions"@,
        ),
{
    let ghost av = trigger_views(actual@);
    let ghost ev = trigger_views(expected@);
    let mut same = actual.len() == expected.len();
    if same {
        let mut i: usize = 0;
        while i < actual.len()
            invariant
                i <= actual@.len() == expected@.len(),
                av == trigger_views(actual@),
                ev == trigger_views(expected@),
                same ==> forall|k: int| 0 <= k < i ==> av[k] == ev[k],
                !same ==> av != ev,
            decreases actual@.len() - i,
        {
            if !(str_eq(actual[i].name.as_str(), expected[i].name.as_str()) && str_eq(
                actual[i].table_name.as_str(),
                expected[i].table_name.as_str(),
            ) && str_eq(actual[i].normalized_sql.as_str(), expected[i].normalized_sql.as_str())) {
                assert(av[i as int] != ev[i as int]);
                same = false;
            }
            i = i + 1;
        }
        if same {
            assert(av =~= ev);
        }
    } else {
        assert(av.len() != ev.len());
    }
    if !same {
        return Err(crate::error::other_error("current schema has invalid or unexpected trigger definitions"));
    }
    Ok(())
}

/// The search table's definition must be the current one.
pub fn check_search_table(expected: &str, actual: &str) -> (r: Result<(), WcError>)
    ensures
        actual@ == expected@ ==> r is Ok,
        actual@ != expected@ ==> is_other_error(
            r,
            "current schema has an invalid wallpapers_fts virtual table definition"@,
        ),
{
    if !str_eq(actual, expected) {
        return Err(crate::error::other_error("current schema has an invalid wallpapers_fts virtual table definition"));
    }
    Ok(())
}

// ── Legacy migration files ───────────────────────────────────────────────

/// How many names a legacy migration tries for its temporary database.
pub const MIGRATION_TEMP_ATTEMPTS: usize = 100;

/// The hidden temporary database a legacy migration builds beside the real
/// one: `.{file}.migrate-{pid}-{counter}.tmp`, `wallpapers.db` standing for
/// a path without a file name.
pub fn migration_temp_file_name(file_name: Option<&str>, pid: u32, counter: u64) -> (r: String)
    ensures
        r@ == "."@ + crate::sqlite::backup::database_file_name(
            match file_name {
                Some(n) => Some(n@),
                None => None,
            },
        ) + ".migrate-"@ + crate::text::decimal(pid as nat) + "-"@ + crate::text::decimal(
            counter as nat,
        ) + ".tmp"@,
{
    let mut s = String::new();
    append_str(&mut s, ".");
    match file_name {
        Some(n) => append_str(&mut s, n),
        None => append_str(&mut s, "wallpapers.db"),
    }
    append_str(&mut s, ".migrate-");
    append_str(&mut s, crate::text::u64_to_decimal(pid as u64).as_str());
    append_str(&mut s, "-");
    append_str(&mut s, crate::text::u64_to_decimal(counter).as_str());
    append_str(&mut s, ".tmp");
    s
}

/// The error when every temporary name was taken.
pub fn migration_temp_exhausted() -> (e: WcError)
    ensures
        e matches WcError::Other(m) && m@
            == "could not reserve a temporary database for legacy migration"@,
{
    crate::error::other_error("could not reserve a temporary database for legacy migration")
}

// ── Adding missing columns ───────────────────────────────────────────────

/// `ALTER TABLE {table} ADD COLUMN {name} {definition};`
pub open spec fn add_column_text(table: Seq<char>, name: Seq<char>, definition: Seq<char>) -> Seq<
    char,
> {
    "ALTER TABLE "@ + table + " ADD COLUMN "@ + name + " "@ + definition + ";"@
}

/// The required columns, in order, whose names the table lacks.
pub open spec fn missing_columns(
    existing: Seq<Seq<char>>,
    required: Seq<(Seq<char>, Seq<char>)>,
) -> Seq<(Seq<char>, Seq<char>)>
    decreases required.len(),
{
    if required.len() == 0 {
        Seq::empty()
    } else if existing.contains(required.last().0) {
        missing_columns(existing, required.drop_last())
    } else {
        missing_columns(existing, required.drop_last()).push(required.last())
    }
}

/// The statements that add each missing column.
pub open spec fn add_column_texts(table: Seq<char>, cols: Seq<(Seq<char>, Seq<char>)>) -> Seq<
    Seq<char>,
>
    decreases cols.len(),
{
    if cols.len() == 0 {
        Seq::empty()
    } else {
        add_column_texts(table, cols.drop_last()).push(
            add_column_text(table, cols.last().0, cols.last().1),
        )
    }
}

/// The names of columns.
pub open spec fn column_names(cols: Seq<(Seq<char>, Seq<char>)>) -> Seq<Seq<char>>
    decreases cols.len(),
{
    if cols.len() == 0 {
        Seq::empty()
    } else {
        column_names(cols.drop_last()).push(cols.last().0)
    }
}

pub open spec fn pair_views(v: Seq<(&str, &str)>) -> Seq<(Seq<char>, Seq<char>)> {
    v.map_values(|p: (&str, &str)| (p.0@, p.1@))
}

/// The statements that bring a table up to its required columns: one
/// `ALTER TABLE … ADD COLUMN` per required column the table lacks, in the
/// order the columns are required.
pub fn column_upgrade_statements(
    table: &str,
    existing: &Vec<String>,
    required: &Vec<(&str, &str)>,
) -> (r: Vec<String>)
    ensures
        views(r@) == add_column_texts(table@, missing_columns(views(existing@), pair_views(required@))),
{
    let ghost ev = views(existing@);
    let ghost rv = pair_views(required@);
    let mut out: Vec<String> = Vec::new();
    let mut i: usize = 0;
    while i < required.len()
        invariant
            i <= required@.len(),
            ev == views(existing@),
            rv == pair_views(required@),
            views(out@) == add_column_texts(table@, missing_columns(ev, pair_views(required@.take(i as int)))),
        decreases required@.len() - i,
    {
        let (name, definition) = required[i];
        let ghost prev = pair_views(required@.take(i as int));
        let ghost next = pair_views(required@.take(i + 1));
        assert(next =~= prev.push((name@, definition@)));
        assert(next.drop_last() == prev);
        assert(next.last() == (name@, definition@));
        let ghost m = missing_columns(ev, prev);
        let present = crate::flat::contains_line(existing, name);
        if present {
            assert(missing_columns(ev, next) == m);
        } else {
            assert(missing_columns(ev, next) == m.push((name@, definition@)));
            assert(m.push((name@, definition@)).drop_last() == m);
            let ghost before = views(out@);
            let mut sql = String::new();
            append_str(&mut sql, "ALTER TABLE ");
            append_str(&mut sql, table);
            append_str(&mut sql, " ADD COLUMN ");
            append_str(&mut sql, name);
            append_str(&mut sql, " ");
            append_str(&mut sql, definition);
            append_str(&mut sql, ";");
            out.push(sql);
            assert(views(out@) == before.push(add_column_text(table@, name@, definition@)));
        }
        i = i + 1;
    }
    assert(required@.take(required@.len() as int) == required@);
    out
}

proof fn lemma_missing_columns_cover(
    existing: Seq<Seq<char>>,
    required: Seq<(Seq<char>, Seq<char>)>,
    k: int,
)
    requires
        0 <= k < required.len(),
    ensures
        existing.contains(required[k].0) || column_names(missing_columns(existing, required)).contains(
            required[k].0,
        ),
    decreases required.len(),
{
    let init = required.drop_last();
    let m0 = missing_columns(existing, init);
    if !existing.contains(required.last().0) {
        assert(m0.push(required.last()).drop_last() == m0);
        assert(column_names(m0.push(required.last())) == column_names(m0).push(required.last().0));
    }
    if k < required.len() - 1 {
        assert(init[k] == required[k]);
        lemma_missing_columns_cover(existing, init, k);
        if column_names(m0).contains(required[k].0) {
            let w = choose|w: int| 0 <= w < column_names(m0).len() && column_names(m0)[w] == required[k].0;
            if !existing.contains(required.last().0) {
                assert(column_names(m0.push(required.last()))[w] == required[k].0);
            }
        }
    } else {
        if !existing.contains(required.last().0) {
            let names = column_names(m0.push(required.last()));
            assert(names[names.len() - 1] == required[k].0);
        }
    }
}

proof fn lemma_nothing_missing(existing: Seq<Seq<char>>, required: Seq<(Seq<char>, Seq<char>)>)
    requires
        forall|k: int| 0 <= k < required.len() ==> existing.contains(#[trigger] required[k].0),
    ensures
        missing_columns(existing, required) == Seq::<(Seq<char>, Seq<char>)>::empty(),
    decreases required.len(),
{
    if required.len() > 0 {
        let init = required.drop_last();
        assert forall|k: int| 0 <= k < init.len() implies existing.contains(#[trigger] init[k].0) by {
            assert(init[k] == required[k]);
        }
        lemma_nothing_missing(existing, init);
        assert(existing.contains(required[required.len() - 1].0));
    }
}

/// Upgrading columns is complete: once the added columns exist, no
/// required column is missing any more, so the upgrade adds nothing the
/// second time.
pub proof fn lemma_column_upgrade_complete(
    existing: Seq<Seq<char>>,
    required: Seq<(Seq<char>, Seq<char>)>,
)
    ensures
        missing_columns(existing + column_names(missing_columns(existing, required)), required)
            == Seq::<(Seq<char>, Seq<char>)>::empty(),
{
    let added = column_names(missing_columns(existing, required));
    let after = existing + added;
    assert forall|k: int| 0 <= k < required.len() implies after.contains(#[trigger] required[k].0) by {
        lemma_missing_columns_cover(existing, required, k);
        if existing.contains(required[k].0) {
            let w = choose|w: int| 0 <= w < existing.len() && existing[w] == required[k].0;
            assert(after[w] == required[k].0);
        } else {
            let w = choose|w: int| 0 <= w < added.len() && added[w] == required[k].0;
            assert(after[existing.len() + w] == required[k].0);
        }
    }
    lemma_nothing_missing(after, required);
}

/// The source columns the second schema added.
pub fn source_v2_columns() -> (r: Vec<(&'static str, &'static str)>)
    ensures
        r@.len() == 4,
        r@[0].0@ == "display_name"@,
        r@[0].1@ == "TEXT NOT NULL DEFAULT ''"@,
        r@[1].0@ == "kind"@,
        r@[1].1@ == "TEXT NOT NULL DEFAULT 'directory' CHECK (kind IN ('directory', 'wallpaper_engine_workshop'))"@,
        r@[2].0@ == "recursive"@,
        r@[2].1@ == "INTEGER NOT NULL DEFAULT 1 CHECK (recursive IN (0, 1))"@,
        r@[3].0@ == "availability"@,
        r@[3].1@ == "TEXT NOT NULL DEFAULT 'unknown' CHECK (availability IN ('unknown', 'available', 'offline'))"@,
{
    let mut v: Vec<(&'static str, &'static str)> = Vec::new();
    v.push(("display_name", "TEXT NOT NULL DEFAULT ''"));
    v.push(("kind", "TEXT NOT NULL DEFAULT 'directory' CHECK (kind IN ('directory', 'wallpaper_engine_workshop'))"));
    v.push(("recursive", "INTEGER NOT NULL DEFAULT 1 CHECK (recursive IN (0, 1))"));
    v.push(("availability", "TEXT NOT NULL DEFAULT 'unknown' CHECK (availability IN ('unknown', 'available', 'offline'))"));
    v
}

/// The Wallpaper Engine metadata columns of the wallpapers table.
pub fn wallpaper_metadata_columns() -> (r: Vec<(&'static str, &'static str)>)
    ensures
        r@.len() == 6,
        r@[0].0@ == "project_type"@,
        r@[0].1@ == "TEXT NOT NULL DEFAULT ''"@,
        r@[1].0@ == "preview_path"@,
        r@[1].1@ == "TEXT NOT NULL DEFAULT ''"@,
        r@[2].0@ == "workshop_id"@,
        r@[2].1@ == "TEXT NOT NULL DEFAULT ''"@,
        r@[3].0@ == "title"@,
        r@[3].1@ == "TEXT NOT NULL DEFAULT ''"@,
        r@[4].0@ == "we_file"@,
        r@[4].1@ == "TEXT NOT NULL DEFAULT ''"@,
        r@[5].0@ == "unsupported_reason"@,
        r@[5].1@ == "TEXT NOT NULL DEFAULT ''"@,
{
    let mut v: Vec<(&'static str, &'static str)> = Vec::new();
    v.push(("project_type", "TEXT NOT NULL DEFAULT ''"));
    v.push(("preview_path", "TEXT NOT NULL DEFAULT ''"));
    v.push(("workshop_id", "TEXT NOT NULL DEFAULT ''"));
    v.push(("title", "TEXT NOT NULL DEFAULT ''"));
    v.push(("we_file", "TEXT NOT NULL DEFAULT ''"));
    v.push(("unsupported_reason", "TEXT NOT NULL DEFAULT ''"));
    v
}

/// The wallpapers columns of the third schema: the author, and the file
/// name computed from the path.
pub fn wallpaper_v3_columns() -> (r: Vec<(&'static str, &'static str)>)
    ensures
        r@.len() == 2,
        r@[0].0@ == "author"@,
        r@[0].1@ == "TEXT NOT NULL DEFAULT ''"@,
        r@[1].0@ == "filename"@,
        r@[1].1@ == "TEXT GENERATED ALWAYS AS (\n                 substr(path, length(rtrim(path, replace(path, '/', ''))) + 1)\n             ) VIRTUAL"@,
{
    let mut v: Vec<(&'static str, &'static str)> = Vec::new();
    v.push(("author", "TEXT NOT NULL DEFAULT ''"));
    v.push(("filename", "TEXT GENERATED ALWAYS AS (\n                 substr(path, length(rtrim(path, replace(path, '/', ''))) + 1)\n             ) VIRTUAL"));
    v
}

/// The wallpaper search index is rebuilt unless its layout marker names the
/// current layout.
pub fn fts_rebuild_needed(marker: Option<String>) -> (r: bool)
    ensures
        r == !(marker matches Some(m) && m@ == "2"@),
{
    match marker {
        Some(m) => !str_eq(m.as_str(), FTS_SCHEMA_VERSION),
        None => true,
    }
}

} // verus!
