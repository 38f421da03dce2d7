//! Search terms for the trigram full-text index of the library browser.

use vstd::prelude::*;

use crate::text::{char_count, push_char};

verus! {

/// `s` with every double quote written twice, as an FTS5 string needs it.
pub open spec fn quotes_doubled(s: Seq<char>) -> Seq<char>
    decreases s.len(),
{
    if s.len() == 0 {
        Seq::empty()
    } else if s.last() == '"' {
        quotes_doubled(s.drop_last()) + seq!['"', '"']
    } else {
        quotes_doubled(s.drop_last()).push(s.last())
    }
}

/// The FTS5 phrase for one search word: none for words shorter than three
/// characters (the trigram index cannot match them), otherwise the word in
/// double quotes with its own quotes doubled.
/// Reads a doubled-quote body back: a pair of quotes is one quote.
pub open spec fn quotes_undoubled(s: Seq<char>) -> Seq<char>
    decreases s.len(),
{
    if s.len() >= 2 && s.last() == '"' && s[s.len() - 2] == '"' {
        quotes_undoubled(s.take(s.len() - 2)).push('"')
    } else if s.len() == 0 {
        Seq::empty()
    } else {
        quotes_undoubled(s.drop_last()).push(s.last())
    }
}

/// Doubling quotes loses nothing: the body reads back as the original
/// text, so two different terms never give the same quoted phrase.
pub proof fn lemma_quotes_doubled_reversible(s: Seq<char>)
    ensures
        quotes_undoubled(quotes_doubled(s)) == s,
    decreases s.len(),
{
    if s.len() > 0 {
        let init = s.drop_last();
        lemma_quotes_doubled_reversible(init);
        let t = quotes_doubled(s);
        if s.last() == '"' {
            assert(t.take(t.len() - 2) == quotes_doubled(init));
        } else {
            assert(t.drop_last() == quotes_doubled(init));
        }
        assert(s == init.push(s.last()));
    }
}

/// The phrases of two terms are equal only when the terms are.
pub proof fn lemma_fts_match_term_injective(a: Seq<char>, b: Seq<char>)
    requires
        fts_match_term(a) is Some,
        fts_match_term(a) == fts_match_term(b),
    ensures
        a == b,
{
    let pa = fts_match_term(a).unwrap();
    assert(pa.subrange(1, pa.len() - 1) == quotes_doubled(a));
    assert(pa.subrange(1, pa.len() - 1) == quotes_doubled(b));
    lemma_quotes_doubled_reversible(a);
    lemma_quotes_doubled_reversible(b);
}

pub open spec fn fts_match_term(term: Seq<char>) -> Option<Seq<char>> {
    if term.len() < 3 {
        None
    } else {
        Some(seq!['"'] + quotes_doubled(term) + seq!['"'])
    }
}

/// The FTS5 phrase for one search word; `None` when the word is too short
/// for the trigram index and the plain `LIKE` match must decide alone.
pub fn library_fts_match_term(term: &str) -> (r: Option<String>)
    ensures
        match r {
            Some(s) => fts_match_term(term@) == Some(s@),
            None => fts_match_term(term@) is None,
        },
{
    let mut out = String::new();
    push_char(&mut out, '"');
    for c in it: term.chars()
        invariant
            it.seq() == term@,
            out@ == seq!['"'] + quotes_doubled(term@.take(it.index() as int)),
    {
        let ghost i = it.index();
        assert(term@.take(i + 1).drop_last() == term@.take(i as int));
        assert(term@.take(i + 1).last() == c);
        if c == '"' {
            push_char(&mut out, '"');
            push_char(&mut out, '"');
        } else {
            push_char(&mut out, c);
        }
        assert(out@ == seq!['"'] + quotes_doubled(term@.take(i + 1)));
    }
    assert(term@.take(term@.len() as int) == term@);
    if char_count(term) < 3 {
        None
    } else {
        push_char(&mut out, '"');
        Some(out)
    }
}

// ── Building the index in chunks ─────────────────────────────────────────

/// Rows indexed per chunk at most.
pub const BUILD_ROW_LIMIT: usize = 500;

/// Seconds a chunk may run before it stops at the next row.
pub const BUILD_TIME_LIMIT_SECS: u64 = 5;

/// A library revision as SQLite stores it: saturated to `i64`.
pub fn revision_as_sql(revision: u64) -> (r: i64)
    ensures
        r as int == if revision <= i64::MAX as u64 {
            revision as int
        } else {
            i64::MAX as int
        },
{
    if revision <= i64::MAX as u64 {
        revision as i64
    } else {
        i64::MAX
    }
}

/// How a chunk must reset the index before indexing.
#[derive(Debug, Clone, Copy, PartialEq, Eq, Structural)]
pub enum FtsReset {
    /// The index was marked stale: drop and recreate the table.
    Recreate,
    /// The index was built for another revision: delete its rows.
    DeleteAll,
}

/// Where a chunk starts: whether the index must be reset first, and the
/// wallpaper id after which indexing resumes.
pub fn fts_chunk_start(state_revision: i64, next_wallpaper_id: i64, revision: u64) -> (r: (
    Option<FtsReset>,
    i64,
))
    ensures
        state_revision == (if revision <= i64::MAX as u64 {
            revision as int
        } else {
            i64::MAX as int
        }) ==> r == (None::<FtsReset>, next_wallpaper_id),
        state_revision != (if revision <= i64::MAX as u64 {
            revision as int
        } else {
            i64::MAX as int
        }) ==> r == (Some(if state_revision == -1 {
            FtsReset::Recreate
        } else {
            FtsReset::DeleteAll
        }), 0i64),
{
    let current = revision_as_sql(revision);
    if state_revision != current {
        if state_revision == -1 {
            (Some(FtsReset::Recreate), 0)
        } else {
            (Some(FtsReset::DeleteAll), 0)
        }
    } else {
        (None, next_wallpaper_id)
    }
}

/// Whether a chunk indexes its next row: the first row always, later rows
/// only while the time limit has not passed.
pub fn fts_chunk_continues(processed: usize, time_limit_reached: bool) -> (r: bool)
    ensures
        r == (processed == 0 || !time_limit_reached),
{
    processed == 0 || !time_limit_reached
}

/// The index status after a chunk: ready once no wallpaper is left.
pub fn fts_status_after_chunk(has_more: bool) -> (r: &'static str)
    ensures
        has_more ==> r@ == "pending"@,
        !has_more ==> r@ == "ready"@,
{
    if has_more {
        "pending"
    } else {
        "ready"
    }
}

} // verus!
