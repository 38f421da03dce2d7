//! The first SQLite layer's statements, kept for databases and callers that
//! still use them: literal escaping and the single-parameter page query.

use vstd::prelude::*;

use crate::sqlite::library_page::{LibraryFilter, LibrarySort};
use crate::text::push_char;

verus! {

/// `s` with every single quote written twice, as a single-quoted SQL
/// literal needs it.
pub open spec fn single_quotes_doubled(s: Seq<char>) -> Seq<char>
    decreases s.len(),
{
    if s.len() == 0 {
        Seq::empty()
    } else if s.last() == '\'' {
        single_quotes_doubled(s.drop_last()) + seq!['\'', '\'']
    } else {
        single_quotes_doubled(s.drop_last()).push(s.last())
    }
}

/// Reads a single-quoted literal's body back: two quotes are one.
pub open spec fn single_quotes_undoubled(s: Seq<char>) -> Seq<char>
    decreases s.len(),
{
    if s.len() >= 2 && s.last() == '\'' && s[s.len() - 2] == '\'' {
        single_quotes_undoubled(s.take(s.len() - 2)).push('\'')
    } else if s.len() == 0 {
        Seq::empty()
    } else {
        single_quotes_undoubled(s.drop_last()).push(s.last())
    }
}

/// Escaping loses nothing: the literal's body reads back as the original
/// text.
pub proof fn lemma_sqlite_escape_reversible(s: Seq<char>)
    ensures
        single_quotes_undoubled(single_quotes_doubled(s)) == s,
    decreases s.len(),
{
    if s.len() > 0 {
        let init = s.drop_last();
        lemma_sqlite_escape_reversible(init);
        let t = single_quotes_doubled(s);
        if s.last() == '\'' {
            assert(t.take(t.len() - 2) == single_quotes_doubled(init));
        } else {
            assert(t.drop_last() == single_quotes_doubled(init));
        }
        assert(s == init.push(s.last()));
    }
}

/// The number of single quotes in `s`.
pub open spec fn quote_count(s: Seq<char>) -> nat
    decreases s.len(),
{
    if s.len() == 0 {
        0
    } else if s.last() == '\'' {
        quote_count(s.drop_last()) + 1
    } else {
        quote_count(s.drop_last())
    }
}

/// Whether the single quotes of `s` come in adjacent pairs, read from the
/// end: a quote is always the second of two.
pub open spec fn quotes_paired(s: Seq<char>) -> bool
    decreases s.len(),
{
    if s.len() == 0 {
        true
    } else if s.last() == '\'' {
        s.len() >= 2 && s[s.len() - 2] == '\'' && quotes_paired(s.take(s.len() - 2))
    } else {
        quotes_paired(s.drop_last())
    }
}

/// What escaping makes of a text: one more character per single quote,
/// every single quote one of an adjacent pair, so that between two
/// enclosing quotes the escaped text is one SQLite literal whose body reads
/// back as the text.
pub proof fn lemma_sqlite_escape_shape(s: Seq<char>)
    ensures
        single_quotes_doubled(s).len() == s.len() + quote_count(s),
        quotes_paired(single_quotes_doubled(s)),
        forall|i: int|
            0 <= i < single_quotes_doubled(s).len() && #[trigger] single_quotes_doubled(s)[i]
                == '\'' ==> (i + 1 < single_quotes_doubled(s).len() && single_quotes_doubled(s)[i
                + 1] == '\'') || (i > 0 && single_quotes_doubled(s)[i - 1] == '\''),
        single_quotes_undoubled(single_quotes_doubled(s)) == s,
    decreases s.len(),
{
    lemma_sqlite_escape_reversible(s);
    if s.len() > 0 {
        let init = s.drop_last();
        lemma_sqlite_escape_shape(init);
        let p = single_quotes_doubled(init);
        let t = single_quotes_doubled(s);
        let n = p.len() as int;
        if s.last() == '\'' {
            assert(t == p + seq!['\'', '\'']);
            assert(t.take(t.len() - 2) =~= p);
            assert forall|i: int| 0 <= i < t.len() && #[trigger] t[i] == '\'' implies (i + 1
                < t.len() && t[i + 1] == '\'') || (i > 0 && t[i - 1] == '\'') by {
                if i < n {
                    assert(t[i] == p[i]);
                    if i + 1 < n {
                        assert(t[i + 1] == p[i + 1]);
                    }
                    if i > 0 {
                        assert(t[i - 1] == p[i - 1]);
                    }
                }
            }
        } else {
            assert(t == p.push(s.last()));
            assert(t.drop_last() =~= p);
            assert forall|i: int| 0 <= i < t.len() && #[trigger] t[i] == '\'' implies (i + 1
                < t.len() && t[i + 1] == '\'') || (i > 0 && t[i - 1] == '\'') by {
                assert(i < n);
                assert(t[i] == p[i]);
                if i + 1 < n {
                    assert(t[i + 1] == p[i + 1]);
                }
                if i > 0 {
                    assert(t[i - 1] == p[i - 1]);
                }
            }
        }
    }
}

/// Escape a string for safe use in a SQLite single-quoted literal.
pub fn sqlite_escape(s: &str) -> (r: String)
    ensures
        r@ == single_quotes_doubled(s@),
{
    let mut out = String::new();
    for c in it: s.chars()
        invariant
            it.seq() == s@,
            out@ == single_quotes_doubled(s@.take(it.index() as int)),
    {
        let ghost i = it.index();
        assert(s@.take(i + 1).drop_last() == s@.take(i as int));
        assert(s@.take(i + 1).last() == c);
        if c == '\'' {
            push_char(&mut out, '\'');
        }
        push_char(&mut out, c);
        assert(out@ =~= single_quotes_doubled(s@.take(i + 1)));
    }
    assert(s@.take(s@.len() as int) == s@);
    out
}

/// The `WHERE` condition of the first page query: the filter's kinds, and
/// `?1` either empty or found, case-insensitively, in the path, title,
/// workshop id or project type.
pub open spec fn legacy_where_text(filter: LibraryFilter) -> Seq<char> {
    match filter {
        LibraryFilter::All => "(?1 = ''\n              OR lower(path) LIKE '%' || lower(?1) || '%'\n              OR lower(title) LIKE '%' || lower(?1) || '%'\n              OR lower(workshop_id) LIKE '%' || lower(?1) || '%'\n              OR lower(project_type) LIKE '%' || lower(?1) || '%')"@,
        LibraryFilter::Image => "type = 'image' AND (?1 = ''\n              OR lower(path) LIKE '%' || lower(?1) || '%'\n              OR lower(title) LIKE '%' || lower(?1) || '%'\n              OR lower(workshop_id) LIKE '%' || lower(?1) || '%'\n              OR lower(project_type) LIKE '%' || lower(?1) || '%')"@,
        LibraryFilter::Gif => "type = 'gif' AND (?1 = ''\n              OR lower(path) LIKE '%' || lower(?1) || '%'\n              OR lower(title) LIKE '%' || lower(?1) || '%'\n              OR lower(workshop_id) LIKE '%' || lower(?1) || '%'\n              OR lower(project_type) LIKE '%' || lower(?1) || '%')"@,
        LibraryFilter::Video => "type = 'video' AND (?1 = ''\n              OR lower(path) LIKE '%' || lower(?1) || '%'\n              OR lower(title) LIKE '%' || lower(?1) || '%'\n              OR lower(workshop_id) LIKE '%' || lower(?1) || '%'\n              OR lower(project_type) LIKE '%' || lower(?1) || '%')"@,
        LibraryFilter::We => "type IN ('we_scene', 'we_web') AND (?1 = ''\n              OR lower(path) LIKE '%' || lower(?1) || '%'\n              OR lower(title) LIKE '%' || lower(?1) || '%'\n              OR lower(workshop_id) LIKE '%' || lower(?1) || '%'\n              OR lower(project_type) LIKE '%' || lower(?1) || '%')"@,
        LibraryFilter::WeScene => "type = 'we_scene' AND (?1 = ''\n              OR lower(path) LIKE '%' || lower(?1) || '%'\n              OR lower(title) LIKE '%' || lower(?1) || '%'\n              OR lower(workshop_id) LIKE '%' || lower(?1) || '%'\n              OR lower(project_type) LIKE '%' || lower(?1) || '%')"@,
        LibraryFilter::WeWeb => "type = 'we_web' AND (?1 = ''\n              OR lower(path) LIKE '%' || lower(?1) || '%'\n              OR lower(title) LIKE '%' || lower(?1) || '%'\n              OR lower(workshop_id) LIKE '%' || lower(?1) || '%'\n              OR lower(project_type) LIKE '%' || lower(?1) || '%')"@,
        LibraryFilter::Unsupported => "type = 'unsupported' AND (?1 = ''\n              OR lower(path) LIKE '%' || lower(?1) || '%'\n              OR lower(title) LIKE '%' || lower(?1) || '%'\n              OR lower(workshop_id) LIKE '%' || lower(?1) || '%'\n              OR lower(project_type) LIKE '%' || lower(?1) || '%')"@,
    }
}

pub fn library_where_clause(filter: LibraryFilter) -> (r: &'static str)
    ensures
        r@ == legacy_where_text(filter),
{
    match filter {
        LibraryFilter::All => "(?1 = ''\n              OR lower(path) LIKE '%' || lower(?1) || '%'\n              OR lower(title) LIKE '%' || lower(?1) || '%'\n              OR lower(workshop_id) LIKE '%' || lower(?1) || '%'\n              OR lower(project_type) LIKE '%' || lower(?1) || '%')",
        LibraryFilter::Image => "type = 'image' AND (?1 = ''\n              OR lower(path) LIKE '%' || lower(?1) || '%'\n              OR lower(title) LIKE '%' || lower(?1) || '%'\n              OR lower(workshop_id) LIKE '%' || lower(?1) || '%'\n              OR lower(project_type) LIKE '%' || lower(?1) || '%')",
        LibraryFilter::Gif => "type = 'gif' AND (?1 = ''\n              OR lower(path) LIKE '%' || lower(?1) || '%'\n              OR lower(title) LIKE '%' || lower(?1) || '%'\n              OR lower(workshop_id) LIKE '%' || lower(?1) || '%'\n              OR lower(project_type) LIKE '%' || lower(?1) || '%')",
        LibraryFilter::Video => "type = 'video' AND (?1 = ''\n              OR lower(path) LIKE '%' || lower(?1) || '%'\n              OR lower(title) LIKE '%' || lower(?1) || '%'\n              OR lower(workshop_id) LIKE '%' || lower(?1) || '%'\n              OR lower(project_type) LIKE '%' || lower(?1) || '%')",
        LibraryFilter::We => "type IN ('we_scene', 'we_web') AND (?1 = ''\n              OR lower(path) LIKE '%' || lower(?1) || '%'\n              OR lower(title) LIKE '%' || lower(?1) || '%'\n              OR lower(workshop_id) LIKE '%' || lower(?1) || '%'\n              OR lower(project_type) LIKE '%' || lower(?1) || '%')",
        LibraryFilter::WeScene => "type = 'we_scene' AND (?1 = ''\n              OR lower(path) LIKE '%' || lower(?1) || '%'\n              OR lower(title) LIKE '%' || lower(?1) || '%'\n              OR lower(workshop_id) LIKE '%' || lower(?1) || '%'\n              OR lower(project_type) LIKE '%' || lower(?1) || '%')",
        LibraryFilter::WeWeb => "type = 'we_web' AND (?1 = ''\n              OR lower(path) LIKE '%' || lower(?1) || '%'\n              OR lower(title) LIKE '%' || lower(?1) || '%'\n              OR lower(workshop_id) LIKE '%' || lower(?1) || '%'\n              OR lower(project_type) LIKE '%' || lower(?1) || '%')",
        LibraryFilter::Unsupported => "type = 'unsupported' AND (?1 = ''\n              OR lower(path) LIKE '%' || lower(?1) || '%'\n              OR lower(title) LIKE '%' || lower(?1) || '%'\n              OR lower(workshop_id) LIKE '%' || lower(?1) || '%'\n              OR lower(project_type) LIKE '%' || lower(?1) || '%')",
    }
}

/// The `ORDER BY` text of the first page query.
pub open spec fn legacy_order_text(sort: LibrarySort) -> Seq<char> {
    match sort {
        LibrarySort::Newest => "CASE WHEN type = 'we_web' THEN 1 WHEN type = 'unsupported' THEN 2 ELSE 0 END ASC,\n             mtime DESC, path ASC"@,
        LibrarySort::Largest => "CASE WHEN type = 'we_web' THEN 1 WHEN type = 'unsupported' THEN 2 ELSE 0 END ASC,\n             size DESC, path ASC"@,
        LibrarySort::Name => "CASE WHEN type = 'we_web' THEN 1 WHEN type = 'unsupported' THEN 2 ELSE 0 END ASC,\n             path ASC"@,
    }
}

pub fn library_order_by(sort: LibrarySort) -> (r: &'static str)
    ensures
        r@ == legacy_order_text(sort),
{
    match sort {
        LibrarySort::Newest => "CASE WHEN type = 'we_web' THEN 1 WHEN type = 'unsupported' THEN 2 ELSE 0 END ASC,\n             mtime DESC, path ASC",
        LibrarySort::Largest => "CASE WHEN type = 'we_web' THEN 1 WHEN type = 'unsupported' THEN 2 ELSE 0 END ASC,\n             size DESC, path ASC",
        LibrarySort::Name => "CASE WHEN type = 'we_web' THEN 1 WHEN type = 'unsupported' THEN 2 ELSE 0 END ASC,\n             path ASC",
    }
}

} // verus!
