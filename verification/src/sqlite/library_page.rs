//! Library listing queries: filters and sorts named by users, the SQL text
//! of the legacy page query, the predicate and keyset cursor of the unified
//! library browser, and the checks applied to a cursor handed back.

use vstd::prelude::*;

use crate::error::{is_other_error, other_error_with, WcError};
use crate::text::{
    append_str, chars_of, join, join_strings, push_char, split_whitespace, str_eq, trim, trimmed,
    char_alphanumeric, views, words, is_alphanumeric,
};
use crate::types::{LibraryCounts, WallpaperEntry};

verus! {

// ── Legacy page query: filter and sort ───────────────────────────────────

/// Which wallpaper kinds a legacy library page lists.
#[derive(Debug, Clone, Copy, PartialEq, Eq, Structural)]
pub enum LibraryFilter {
    All,
    Image,
    Gif,
    Video,
    We,
    WeScene,
    WeWeb,
    Unsupported,
}

/// The filter a user-supplied name selects, if any.
pub open spec fn filter_named(raw: Seq<char>) -> Option<LibraryFilter> {
    if raw == "all"@ || raw == ""@ {
        Some(LibraryFilter::All)
    } else if raw == "image"@ || raw == "images"@ {
        Some(LibraryFilter::Image)
    } else if raw == "gif"@ || raw == "gifs"@ {
        Some(LibraryFilter::Gif)
    } else if raw == "video"@ || raw == "videos"@ {
        Some(LibraryFilter::Video)
    } else if raw == "we"@ {
        Some(LibraryFilter::We)
    } else if raw == "we_scene"@ {
        Some(LibraryFilter::WeScene)
    } else if raw == "we_web"@ {
        Some(LibraryFilter::WeWeb)
    } else if raw == "unsupported"@ {
        Some(LibraryFilter::Unsupported)
    } else {
        None
    }
}

impl LibraryFilter {
    /// Reads a filter name; an unknown name is an error that quotes it.
    pub fn parse(raw: &str) -> (r: Result<LibraryFilter, WcError>)
        ensures
            filter_named(raw@) matches Some(f) ==> r == Ok::<LibraryFilter, WcError>(f),
            filter_named(raw@) is None ==> is_other_error(r, "unknown library filter: "@ + raw@),
    {
        if str_eq(raw, "all") || str_eq(raw, "") {
            Ok(LibraryFilter::All)
        } else if str_eq(raw, "image") || str_eq(raw, "images") {
            Ok(LibraryFilter::Image)
        } else if str_eq(raw, "gif") || str_eq(raw, "gifs") {
            Ok(LibraryFilter::Gif)
        } else if str_eq(raw, "video") || str_eq(raw, "videos") {
            Ok(LibraryFilter::Video)
        } else if str_eq(raw, "we") {
            Ok(LibraryFilter::We)
        } else if str_eq(raw, "we_scene") {
            Ok(LibraryFilter::WeScene)
        } else if str_eq(raw, "we_web") {
            Ok(LibraryFilter::WeWeb)
        } else if str_eq(raw, "unsupported") {
            Ok(LibraryFilter::Unsupported)
        } else {
            Err(other_error_with("unknown library filter: ", raw))
        }
    }
}

/// The order of a legacy library page.
#[derive(Debug, Clone, Copy, PartialEq, Eq, Structural)]
pub enum LibrarySort {
    Newest,
    Largest,
    Name,
}

/// The sort a user-supplied name selects, if any.
pub open spec fn sort_named(raw: Seq<char>) -> Option<LibrarySort> {
    if raw == "newest"@ || raw == ""@ {
        Some(LibrarySort::Newest)
    } else if raw == "largest"@ || raw == "size"@ {
        Some(LibrarySort::Largest)
    } else if raw == "name"@ {
        Some(LibrarySort::Name)
    } else {
        None
    }
}

impl LibrarySort {
    /// Reads a sort name; an unknown name is an error that quotes it.
    pub fn parse(raw: &str) -> (r: Result<LibrarySort, WcError>)
        ensures
            sort_named(raw@) matches Some(s) ==> r == Ok::<LibrarySort, WcError>(s),
            sort_named(raw@) is None ==> is_other_error(r, "unknown library sort: "@ + raw@),
    {
        if str_eq(raw, "newest") || str_eq(raw, "") {
            Ok(LibrarySort::Newest)
        } else if str_eq(raw, "largest") || str_eq(raw, "size") {
            Ok(LibrarySort::Largest)
        } else if str_eq(raw, "name") {
            Ok(LibrarySort::Name)
        } else {
            Err(other_error_with("unknown library sort: ", raw))
        }
    }
}

/// One page of the legacy library listing.
#[derive(Debug, Clone, PartialEq, Eq)]
pub struct LibraryPageQuery {
    pub filter: LibraryFilter,
    pub sort: LibrarySort,
    pub search: String,
    pub offset: usize,
    pub limit: usize,
}

/// The `WHERE` condition of a filter; empty for `All`.
pub open spec fn filter_condition_text(filter: LibraryFilter) -> Seq<char> {
    match filter {
        LibraryFilter::All => ""@,
        LibraryFilter::Image => "type = 'image'"@,
        LibraryFilter::Gif => "type = 'gif'"@,
        LibraryFilter::Video => "type = 'video'"@,
        LibraryFilter::We => "type IN ('we_scene', 'we_web')"@,
        LibraryFilter::WeScene => "type = 'we_scene'"@,
        LibraryFilter::WeWeb => "type = 'we_web'"@,
        LibraryFilter::Unsupported => "type = 'unsupported'"@,
    }
}

pub fn library_filter_condition(filter: LibraryFilter) -> (r: &'static str)
    ensures
        r@ == filter_condition_text(filter),
{
    match filter {
        LibraryFilter::All => "",
        LibraryFilter::Image => "type = 'image'",
        LibraryFilter::Gif => "type = 'gif'",
        LibraryFilter::Video => "type = 'video'",
        LibraryFilter::We => "type IN ('we_scene', 'we_web')",
        LibraryFilter::WeScene => "type = 'we_scene'",
        LibraryFilter::WeWeb => "type = 'we_web'",
        LibraryFilter::Unsupported => "type = 'unsupported'",
    }
}

/// The column prefix for an optional table alias: `alias.` or nothing.
pub open spec fn alias_prefix(alias: Option<Seq<char>>) -> Seq<char> {
    match alias {
        Some(a) => a.push('.'),
        None => Seq::empty(),
    }
}

/// The `ORDER BY` text of a legacy page: Wallpaper Engine web items and
/// unsupported items always sort after everything else, then the chosen key,
/// then the path.
pub open spec fn order_by_text(sort: LibrarySort, p: Seq<char>) -> Seq<char> {
    let rank = "CASE WHEN "@ + p + "type = 'we_web' THEN 1 WHEN "@ + p
        + "type = 'unsupported' THEN 2 ELSE 0 END ASC,\n             "@;
    match sort {
        LibrarySort::Newest => rank + p + "mtime DESC, "@ + p + "path ASC"@,
        LibrarySort::Largest => rank + p + "size DESC, "@ + p + "path ASC"@,
        LibrarySort::Name => rank + p + "path ASC"@,
    }
}

pub fn library_order_by(sort: LibrarySort, table_prefix: Option<&str>) -> (r: String)
    ensures
        r@ == order_by_text(
            sort,
            alias_prefix(
                match table_prefix {
                    Some(t) => Some(t@),
                    None => None,
                },
            ),
        ),
{
    let mut prefix = String::new();
    if let Some(t) = table_prefix {
        append_str(&mut prefix, t);
        push_char(&mut prefix, '.');
    }
    let p = prefix.as_str();
    let mut out = String::new();
    append_str(&mut out, "CASE WHEN ");
    append_str(&mut out, p);
    append_str(&mut out, "type = 'we_web' THEN 1 WHEN ");
    append_str(&mut out, p);
    append_str(&mut out, "type = 'unsupported' THEN 2 ELSE 0 END ASC,\n             ");
    match sort {
        LibrarySort::Newest => {
            append_str(&mut out, p);
            append_str(&mut out, "mtime DESC, ");
            append_str(&mut out, p);
            append_str(&mut out, "path ASC");
        },
        LibrarySort::Largest => {
            append_str(&mut out, p);
            append_str(&mut out, "size DESC, ");
            append_str(&mut out, p);
            append_str(&mut out, "path ASC");
        },
        LibrarySort::Name => {
            append_str(&mut out, p);
            append_str(&mut out, "path ASC");
        },
    }
    out
}

/// Which wallpaper rows a query may see.
#[derive(Debug, Clone, Copy, PartialEq, Eq, Structural)]
pub enum LibraryRowScope {
    /// Every stored row, including rows no source lists any more.
    AllPhysicalRows,
    /// Only rows that at least one configured source still lists.
    SourceBackedRows,
}

/// The membership condition of a scope for the given table alias.
pub open spec fn scope_condition_text(scope: LibraryRowScope, alias: Seq<char>) -> Option<
    Seq<char>,
> {
    match scope {
        LibraryRowScope::AllPhysicalRows => None,
        LibraryRowScope::SourceBackedRows => Some(
            "EXISTS (\n                     SELECT 1 FROM wallpaper_sources membership\n                     WHERE membership.wallpaper_id = "@
                + alias + ".id\n                 )"@,
        ),
    }
}

impl LibraryRowScope {
    pub fn condition(self, wallpaper_alias: &str) -> (r: Option<String>)
        ensures
            match r {
                Some(s) => scope_condition_text(self, wallpaper_alias@) == Some(s@),
                None => scope_condition_text(self, wallpaper_alias@) is None,
            },
    {
        match self {
            LibraryRowScope::AllPhysicalRows => None,
            LibraryRowScope::SourceBackedRows => {
                let mut s = String::new();
                append_str(
                    &mut s,
                    "EXISTS (\n                     SELECT 1 FROM wallpaper_sources membership\n                     WHERE membership.wallpaper_id = ",
                );
                append_str(&mut s, wallpaper_alias);
                append_str(&mut s, ".id\n                 )");
                Some(s)
            },
        }
    }
}

/// `WHERE` followed by the conditions joined with `AND`; nothing when there
/// are no conditions.
pub open spec fn where_clause_text(conditions: Seq<Seq<char>>) -> Seq<char> {
    if conditions.len() == 0 {
        Seq::empty()
    } else {
        "WHERE "@ + join(conditions, " AND "@)
    }
}

pub fn sql_where_clause(conditions: Vec<String>) -> (r: String)
    ensures
        r@ == where_clause_text(views(conditions@)),
{
    if conditions.len() == 0 {
        String::new()
    } else {
        let mut s = String::new();
        append_str(&mut s, "WHERE ");
        let joined = join_strings(&conditions, " AND ");
        append_str(&mut s, joined.as_str());
        s
    }
}

// ── Full-text query of the legacy page ───────────────────────────────────

/// The characters a full-text search word keeps.
pub open spec fn fts_keeps(c: char) -> bool {
    char_alphanumeric(c) || c == '_' || c == '-' || c == '.'
}

/// `s` with every character that `fts_keeps` refuses dropped.
pub open spec fn fts_cleaned(s: Seq<char>) -> Seq<char>
    decreases s.len(),
{
    if s.len() == 0 {
        Seq::empty()
    } else if fts_keeps(s.last()) {
        fts_cleaned(s.drop_last()).push(s.last())
    } else {
        fts_cleaned(s.drop_last())
    }
}

/// `s` without its leading characters that are not alphanumeric.
pub open spec fn strip_start_non_alnum(s: Seq<char>) -> Seq<char>
    decreases s.len(),
{
    if s.len() > 0 && !char_alphanumeric(s[0]) {
        strip_start_non_alnum(s.drop_first())
    } else {
        s
    }
}

/// `s` without its trailing characters that are not alphanumeric.
pub open spec fn strip_end_non_alnum(s: Seq<char>) -> Seq<char>
    decreases s.len(),
{
    if s.len() > 0 && !char_alphanumeric(s.last()) {
        strip_end_non_alnum(s.drop_last())
    } else {
        s
    }
}

/// A search word reduced to what the full-text index may see.
pub open spec fn fts_word(w: Seq<char>) -> Seq<char> {
    strip_end_non_alnum(strip_start_non_alnum(fts_cleaned(w)))
}

/// The prefix phrases of the words that keep something: `"word"*`.
pub open spec fn fts_phrases(ws: Seq<Seq<char>>) -> Seq<Seq<char>>
    decreases ws.len(),
{
    if ws.len() == 0 {
        Seq::empty()
    } else if fts_word(ws.last()).len() == 0 {
        fts_phrases(ws.drop_last())
    } else {
        fts_phrases(ws.drop_last()).push(seq!['"'] + fts_word(ws.last()) + seq!['"', '*'])
    }
}

/// The FTS5 query for a legacy search: one prefix phrase per word, separated
/// by spaces; empty when no word keeps anything.
pub open spec fn fts_query_text(raw: Seq<char>) -> Seq<char> {
    join(fts_phrases(words(raw)), seq![' '])
}

proof fn lemma_strip_start_skip(s: Seq<char>, i: int)
    requires
        0 <= i <= s.len(),
        forall|k: int| 0 <= k < i ==> !char_alphanumeric(#[trigger] s[k]),
    ensures
        strip_start_non_alnum(s) == strip_start_non_alnum(s.subrange(i, s.len() as int)),
    decreases i,
{
    if i > 0 {
        assert(s.drop_first() == s.subrange(1, s.len() as int));
        lemma_strip_start_skip(s.drop_first(), i - 1);
        assert(s.drop_first().subrange(i - 1, s.drop_first().len() as int) == s.subrange(
            i,
            s.len() as int,
        ));
    } else {
        assert(s.subrange(0, s.len() as int) == s);
    }
}

proof fn lemma_strip_end_cut(s: Seq<char>, j: int)
    requires
        0 <= j <= s.len(),
        forall|k: int| j <= k < s.len() ==> !char_alphanumeric(#[trigger] s[k]),
    ensures
        strip_end_non_alnum(s) == strip_end_non_alnum(s.subrange(0, j)),
    decreases s.len() - j,
{
    if j < s.len() {
        assert(s.drop_last() == s.subrange(0, s.len() - 1));
        lemma_strip_end_cut(s.drop_last(), j);
        assert(s.drop_last().subrange(0, j) == s.subrange(0, j));
    } else {
        assert(s.subrange(0, j) == s);
    }
}

/// One search word as its full-text phrase text, without the quotes.
fn fts_word_of(word: &str) -> (r: String)
    ensures
        r@ == fts_word(word@),
{
    let mut kept: Vec<char> = Vec::new();
    for c in it: word.chars()
        invariant
            it.seq() == word@,
            kept@ == fts_cleaned(word@.take(it.index() as int)),
    {
        let ghost i = it.index();
        assert(word@.take(i + 1).drop_last() == word@.take(i as int));
        assert(word@.take(i + 1).last() == c);
        if is_alphanumeric(c) || c == '_' || c == '-' || c == '.' {
            kept.push(c);
        }
    }
    assert(word@.take(word@.len() as int) == word@);
    let n = kept.len();
    let mut i: usize = 0;
    while i < n && !is_alphanumeric(kept[i])
        invariant
            i <= n == kept@.len(),
            forall|k: int| 0 <= k < i ==> !char_alphanumeric(#[trigger] kept@[k]),
        decreases n - i,
    {
        i = i + 1;
    }
    proof {
        lemma_strip_start_skip(kept@, i as int);
        let rest = kept@.subrange(i as int, n as int);
        if i < n {
            assert(rest[0] == kept@[i as int]);
        }
        assert(strip_start_non_alnum(rest) == rest);
    }
    let ghost left = kept@.subrange(i as int, n as int);
    let mut j: usize = n;
    while j > i && !is_alphanumeric(kept[j - 1])
        invariant
            i <= j <= n == kept@.len(),
            left == kept@.subrange(i as int, n as int),
            forall|k: int| (j - i) <= k < left.len() ==> !char_alphanumeric(#[trigger] left[k]),
        decreases j,
    {
        j = j - 1;
    }
    proof {
        lemma_strip_end_cut(left, (j - i) as int);
        let cut = left.subrange(0, (j - i) as int);
        assert(cut == kept@.subrange(i as int, j as int));
        if j > i {
            assert(cut.last() == kept@[j - 1]);
        }
        assert(strip_end_non_alnum(cut) == cut);
    }
    crate::text::string_from_subrange(&kept, i, j)
}

/// The FTS5 query for a legacy library search.
pub fn fts_query(raw: &str) -> (r: String)
    ensures
        r@ == fts_query_text(raw@),
{
    let parts = split_whitespace(raw);
    let ghost ws = words(raw@);
    let mut phrases: Vec<String> = Vec::new();
    let mut i: usize = 0;
    while i < parts.len()
        invariant
            i <= parts@.len() == ws.len(),
            ws == words(raw@),
            forall|k: int| 0 <= k < parts@.len() ==> #[trigger] parts@[k]@ == ws[k],
            views(phrases@) == fts_phrases(ws.take(i as int)),
        decreases parts@.len() - i,
    {
        assert(ws.take(i + 1).drop_last() == ws.take(i as int));
        assert(ws.take(i + 1).last() == parts@[i as int]@);
        let t = fts_word_of(parts[i].as_str());
        if !t.as_str().is_empty() {
            let mut phrase = String::new();
            push_char(&mut phrase, '"');
            append_str(&mut phrase, t.as_str());
            push_char(&mut phrase, '"');
            push_char(&mut phrase, '*');
            assert(phrase@ =~= seq!['"'] + t@ + seq!['"', '*']);
            let ghost before = views(phrases@);
            phrases.push(phrase);
            assert(views(phrases@) == before.push(seq!['"'] + t@ + seq!['"', '*']));
        }
        i = i + 1;
    }
    assert(ws.take(ws.len() as int) == ws);
    let mut sep = String::new();
    push_char(&mut sep, ' ');
    join_strings(&phrases, sep.as_str())
}

/// Characters a full-text query may hold: those a search word keeps, the
/// phrase quotes, the prefix star and the separating space.
pub open spec fn fts_query_char(c: char) -> bool {
    fts_keeps(c) || c == '"' || c == '*' || c == ' '
}

pub open spec fn all_kept(s: Seq<char>) -> bool {
    forall|i: int| 0 <= i < s.len() ==> fts_keeps(#[trigger] s[i])
}

pub open spec fn all_query_chars(s: Seq<char>) -> bool {
    forall|i: int| 0 <= i < s.len() ==> fts_query_char(#[trigger] s[i])
}

proof fn lemma_cleaned_kept(s: Seq<char>)
    ensures
        all_kept(fts_cleaned(s)),
    decreases s.len(),
{
    if s.len() > 0 {
        lemma_cleaned_kept(s.drop_last());
    }
}

proof fn lemma_strip_start_kept(s: Seq<char>)
    requires
        all_kept(s),
    ensures
        all_kept(strip_start_non_alnum(s)),
    decreases s.len(),
{
    if s.len() > 0 && !char_alphanumeric(s[0]) {
        assert forall|i: int| 0 <= i < s.drop_first().len() implies fts_keeps(
            #[trigger] s.drop_first()[i],
        ) by {
            assert(s.drop_first()[i] == s[i + 1]);
        }
        lemma_strip_start_kept(s.drop_first());
    }
}

proof fn lemma_strip_end_kept(s: Seq<char>)
    requires
        all_kept(s),
    ensures
        all_kept(strip_end_non_alnum(s)),
    decreases s.len(),
{
    if s.len() > 0 && !char_alphanumeric(s.last()) {
        assert forall|i: int| 0 <= i < s.drop_last().len() implies fts_keeps(
            #[trigger] s.drop_last()[i],
        ) by {
            assert(s.drop_last()[i] == s[i]);
        }
        lemma_strip_end_kept(s.drop_last());
    }
}

proof fn lemma_phrases_query_chars(ws: Seq<Seq<char>>)
    ensures
        forall|j: int|
            0 <= j < fts_phrases(ws).len() ==> all_query_chars(#[trigger] fts_phrases(ws)[j]),
    decreases ws.len(),
{
    if ws.len() > 0 {
        lemma_phrases_query_chars(ws.drop_last());
        let w = fts_word(ws.last());
        lemma_cleaned_kept(ws.last());
        lemma_strip_start_kept(fts_cleaned(ws.last()));
        lemma_strip_end_kept(strip_start_non_alnum(fts_cleaned(ws.last())));
        let p = seq!['"'] + w + seq!['"', '*'];
        assert forall|i: int| 0 <= i < p.len() implies fts_query_char(#[trigger] p[i]) by {
            if 1 <= i < 1 + w.len() {
                assert(p[i] == w[i - 1]);
            }
        }
        let prev = fts_phrases(ws.drop_last());
        if w.len() > 0 {
            assert(fts_phrases(ws) == prev.push(p));
            assert forall|j: int| 0 <= j < fts_phrases(ws).len() implies all_query_chars(
                #[trigger] fts_phrases(ws)[j],
            ) by {
                if j < prev.len() {
                    assert(fts_phrases(ws)[j] == prev[j]);
                }
            }
        } else {
            assert(fts_phrases(ws) == prev);
        }
    }
}

proof fn lemma_join_query_chars(ps: Seq<Seq<char>>)
    requires
        forall|j: int| 0 <= j < ps.len() ==> all_query_chars(#[trigger] ps[j]),
    ensures
        all_query_chars(join(ps, seq![' '])),
    decreases ps.len(),
{
    if ps.len() > 1 {
        let init = ps.drop_last();
        assert forall|j: int| 0 <= j < init.len() implies all_query_chars(#[trigger] init[j]) by {
            assert(init[j] == ps[j]);
        }
        lemma_join_query_chars(init);
        let a = join(init, seq![' ']);
        let t = a + seq![' '] + ps.last();
        assert(all_query_chars(ps[ps.len() - 1]));
        assert forall|i: int| 0 <= i < t.len() implies fts_query_char(#[trigger] t[i]) by {
            if i < a.len() {
                assert(t[i] == a[i]);
            } else if i > a.len() {
                assert(t[i] == ps.last()[i - a.len() - 1]);
            }
        }
    } else if ps.len() == 1 {
        assert(all_query_chars(ps[0]));
    }
}

/// Query syntax never reaches the full-text index: the query holds only
/// characters a search word keeps (letters, digits, `_`, `-`, `.`), the
/// quotes around each phrase, the prefix star and single spaces.
pub proof fn lemma_fts_query_syntax_free(raw: Seq<char>)
    ensures
        all_query_chars(fts_query_text(raw)),
{
    lemma_phrases_query_chars(words(raw));
    lemma_join_query_chars(fts_phrases(words(raw)));
}

// ── Legacy page statements ───────────────────────────────────────────────

/// One page of the legacy listing and the number of matching rows.
#[derive(Debug, Clone)]
pub struct LibraryPage {
    pub total: usize,
    pub items: Vec<WallpaperEntry>,
}

/// An empty page: what a missing database lists.
pub fn empty_library_page() -> (r: LibraryPage)
    ensures
        r.total == 0,
        r.items@.len() == 0,
{
    LibraryPage { total: 0, items: Vec::new() }
}

/// The statements of a legacy page. Without a full-text query the count
/// takes no parameter and the page binds `?1` limit and `?2` offset; with
/// one, `?1` is the full-text query in both and the page binds `?2` limit
/// and `?3` offset.
#[derive(Debug, Clone)]
pub struct LibraryPagePlan {
    pub count_sql: String,
    pub page_sql: String,
    pub fts: Option<String>,
    pub limit: i64,
    pub offset: i64,
}

/// A count saturated to `i64`, as SQLite binds it.
pub open spec fn clamp_i64(n: nat) -> i64 {
    if n > i64::MAX {
        i64::MAX
    } else {
        n as i64
    }
}

pub fn usize_to_i64_saturating(n: usize) -> (r: i64)
    ensures
        r == clamp_i64(n as nat),
{
    if n as u64 > i64::MAX as u64 {
        i64::MAX
    } else {
        n as i64
    }
}

pub open spec fn optional_condition(c: Seq<char>) -> Seq<Seq<char>> {
    if c.len() == 0 {
        Seq::empty()
    } else {
        seq![c]
    }
}

pub open spec fn optional_seq(c: Option<Seq<char>>) -> Seq<Seq<char>> {
    match c {
        Some(x) => seq![x],
        None => Seq::empty(),
    }
}

pub open spec fn plain_page_sql(where_sql: Seq<char>, order_by: Seq<char>) -> Seq<char> {
    "SELECT path, type, ext, backend, size, mtime, resolution,\n                    project_type, preview_path, workshop_id, title, we_file, unsupported_reason\n             FROM wallpapers\n             "@
        + where_sql + "\n             ORDER BY "@ + order_by + "\n             LIMIT ?1 OFFSET ?2"@
}

pub open spec fn search_page_sql(where_sql: Seq<char>, order_by: Seq<char>) -> Seq<char> {
    "SELECT w.path, w.type, w.ext, w.backend, w.size, w.mtime, w.resolution,\n                    w.project_type, w.preview_path, w.workshop_id, w.title, w.we_file, w.unsupported_reason\n             FROM wallpapers w\n             JOIN wallpapers_fts ON wallpapers_fts.rowid = w.id\n             "@
        + where_sql + "\n             ORDER BY "@ + order_by + "\n             LIMIT ?2 OFFSET ?3"@
}

/// Whether a legacy query searches the full-text index: its trimmed search
/// keeps at least one full-text phrase.
pub open spec fn page_uses_fts(q: LibraryPageQuery) -> bool {
    trimmed(q.search@).len() > 0 && fts_query_text(trimmed(q.search@)).len() > 0
}

/// The conditions of a legacy page: the full-text match when searching,
/// the filter when it is not `All`, and the scope's membership condition.
pub open spec fn page_conditions(q: LibraryPageQuery, scope: LibraryRowScope) -> Seq<Seq<char>> {
    if page_uses_fts(q) {
        seq!["wallpapers_fts MATCH ?1"@] + optional_condition(filter_condition_text(q.filter))
            + optional_seq(scope_condition_text(scope, "w"@))
    } else {
        optional_condition(filter_condition_text(q.filter)) + optional_seq(
            scope_condition_text(scope, "wallpapers"@),
        )
    }
}

pub open spec fn plan_matches(p: LibraryPagePlan, q: LibraryPageQuery, scope: LibraryRowScope) -> bool {
    let where_sql = where_clause_text(page_conditions(q, scope));
    &&& p.limit == clamp_i64(q.limit as nat)
    &&& p.offset == clamp_i64(q.offset as nat)
    &&& if page_uses_fts(q) {
        &&& p.fts matches Some(f) && f@ == fts_query_text(trimmed(q.search@))
        &&& p.count_sql@ == "SELECT COUNT(*) FROM wallpapers w JOIN wallpapers_fts ON wallpapers_fts.rowid = w.id "@
            + where_sql
        &&& p.page_sql@ == search_page_sql(where_sql, order_by_text(q.sort, alias_prefix(Some("w"@))))
    } else {
        &&& p.fts is None
        &&& p.count_sql@ == "SELECT COUNT(*) FROM wallpapers "@ + where_sql
        &&& p.page_sql@ == plain_page_sql(where_sql, order_by_text(q.sort, Seq::empty()))
    }
}

/// The statements behind a legacy library page. A search that keeps no
/// full-text phrase lists the page as if there were no search.
pub fn library_page_plan(query: &LibraryPageQuery, scope: LibraryRowScope) -> (r: LibraryPagePlan)
    ensures
        plan_matches(r, *query, scope),
{
    let filter_cond = library_filter_condition(query.filter);
    let search = trim(query.search.as_str());
    let fts = fts_query(search.as_str());
    let limit = usize_to_i64_saturating(query.limit);
    let offset = usize_to_i64_saturating(query.offset);
    let mut conditions: Vec<String> = Vec::new();
    if search.as_str().is_empty() || fts.as_str().is_empty() {
        if !filter_cond.is_empty() {
            conditions.push(filter_cond.to_owned());
        }
        let scope_cond = scope.condition("wallpapers");
        if let Some(c) = scope_cond {
            conditions.push(c);
        }
        assert(views(conditions@) =~= page_conditions(*query, scope));
        let where_sql = sql_where_clause(conditions);
        let order_by = library_order_by(query.sort, None);
        let mut count_sql = String::new();
        append_str(&mut count_sql, "SELECT COUNT(*) FROM wallpapers ");
        append_str(&mut count_sql, where_sql.as_str());
        let mut page_sql = String::new();
        append_str(
            &mut page_sql,
            "SELECT path, type, ext, backend, size, mtime, resolution,\n                    project_type, preview_path, workshop_id, title, we_file, unsupported_reason\n             FROM wallpapers\n             ",
        );
        append_str(&mut page_sql, where_sql.as_str());
        append_str(&mut page_sql, "\n             ORDER BY ");
        append_str(&mut page_sql, order_by.as_str());
        append_str(&mut page_sql, "\n             LIMIT ?1 OFFSET ?2");
        assert(alias_prefix(None) =~= Seq::<char>::empty());
        LibraryPagePlan { count_sql, page_sql, fts: None, limit, offset }
    } else {
        conditions.push("wallpapers_fts MATCH ?1".to_owned());
        if !filter_cond.is_empty() {
            conditions.push(filter_cond.to_owned());
        }
        let scope_cond = scope.condition("w");
        if let Some(c) = scope_cond {
            conditions.push(c);
        }
        assert(views(conditions@) =~= page_conditions(*query, scope));
        let where_sql = sql_where_clause(conditions);
        let order_by = library_order_by(query.sort, Some("w"));
        let mut count_sql = String::new();
        append_str(
            &mut count_sql,
            "SELECT COUNT(*) FROM wallpapers w JOIN wallpapers_fts ON wallpapers_fts.rowid = w.id ",
        );
        append_str(&mut count_sql, where_sql.as_str());
        let mut page_sql = String::new();
        append_str(
            &mut page_sql,
            "SELECT w.path, w.type, w.ext, w.backend, w.size, w.mtime, w.resolution,\n                    w.project_type, w.preview_path, w.workshop_id, w.title, w.we_file, w.unsupported_reason\n             FROM wallpapers w\n             JOIN wallpapers_fts ON wallpapers_fts.rowid = w.id\n             ",
        );
        append_str(&mut page_sql, where_sql.as_str());
        append_str(&mut page_sql, "\n             ORDER BY ");
        append_str(&mut page_sql, order_by.as_str());
        append_str(&mut page_sql, "\n             LIMIT ?2 OFFSET ?3");
        LibraryPagePlan { count_sql, page_sql, fts: Some(fts), limit, offset }
    }
}

// ── Counts by kind ───────────────────────────────────────────────────────

/// The grouped count statement of a scope.
pub open spec fn counts_sql_text(scope: LibraryRowScope) -> Seq<char> {
    "SELECT type, COUNT(*) FROM wallpapers "@ + where_clause_text(
        optional_seq(scope_condition_text(scope, "wallpapers"@)),
    ) + " GROUP BY type"@
}

pub fn library_counts_sql(scope: LibraryRowScope) -> (r: String)
    ensures
        r@ == counts_sql_text(scope),
{
    let mut conditions: Vec<String> = Vec::new();
    if let Some(c) = scope.condition("wallpapers") {
        conditions.push(c);
    }
    assert(views(conditions@) =~= optional_seq(scope_condition_text(scope, "wallpapers"@)));
    let where_sql = sql_where_clause(conditions);
    let mut s = String::new();
    append_str(&mut s, "SELECT type, COUNT(*) FROM wallpapers ");
    append_str(&mut s, where_sql.as_str());
    append_str(&mut s, " GROUP BY type");
    s
}

/// A group count, negative counts read as zero.
pub open spec fn group_count(n: i64) -> nat {
    if n < 0 {
        0
    } else {
        n as nat
    }
}

/// Counts after reading grouped rows in order: every row adds to the total,
/// and the row of a kind sets that kind's count.
pub open spec fn counts_after(rows: Seq<(Seq<char>, i64)>) -> (nat, nat, nat, nat)
    decreases rows.len(),
{
    if rows.len() == 0 {
        (0, 0, 0, 0)
    } else {
        let (t, i, g, v) = counts_after(rows.drop_last());
        let (kind, n) = rows.last();
        let c = group_count(n);
        if kind == "image"@ {
            (t + c, c, g, v)
        } else if kind == "gif"@ {
            (t + c, i, c, v)
        } else if kind == "video"@ {
            (t + c, i, g, c)
        } else {
            (t + c, i, g, v)
        }
    }
}

pub open spec fn row_views(rows: Seq<(String, i64)>) -> Seq<(Seq<char>, i64)> {
    rows.map_values(|r: (String, i64)| (r.0@, r.1))
}

proof fn lemma_counts_bounded(rows: Seq<(Seq<char>, i64)>)
    ensures
        counts_after(rows).1 <= counts_after(rows).0,
        counts_after(rows).2 <= counts_after(rows).0,
        counts_after(rows).3 <= counts_after(rows).0,
    decreases rows.len(),
{
    if rows.len() > 0 {
        lemma_counts_bounded(rows.drop_last());
    }
}

/// The sum of the group counts, negative counts read as zero.
pub open spec fn count_sum(rows: Seq<(Seq<char>, i64)>) -> nat
    decreases rows.len(),
{
    if rows.len() == 0 {
        0
    } else {
        count_sum(rows.drop_last()) + group_count(rows.last().1)
    }
}

/// The count of the group named `kind` among rows with distinct kinds, zero
/// when there is none.
pub open spec fn kind_count(rows: Seq<(Seq<char>, i64)>, kind: Seq<char>) -> nat {
    if exists|j: int| 0 <= j < rows.len() && #[trigger] rows[j].0 == kind {
        group_count(rows[choose|j: int| 0 <= j < rows.len() && #[trigger] rows[j].0 == kind].1)
    } else {
        0
    }
}

/// Rows of a `GROUP BY type`: no kind twice.
pub open spec fn distinct_kinds(rows: Seq<(Seq<char>, i64)>) -> bool {
    forall|i: int, j: int| 0 <= i < j < rows.len() ==> #[trigger] rows[i].0 != #[trigger] rows[j].0
}

proof fn lemma_kind_count_push(rows: Seq<(Seq<char>, i64)>, kind: Seq<char>)
    requires
        rows.len() > 0,
        distinct_kinds(rows),
    ensures
        kind_count(rows, kind) == if rows.last().0 == kind {
            group_count(rows.last().1)
        } else {
            kind_count(rows.drop_last(), kind)
        },
{
    let init = rows.drop_last();
    let n = rows.len() - 1;
    if rows.last().0 == kind {
        let j = choose|j: int| 0 <= j < rows.len() && #[trigger] rows[j].0 == kind;
        assert(rows[n].0 == kind);
        if j != n {
            assert(rows[j].0 != rows[n].0);
        }
    } else {
        if exists|j: int| 0 <= j < rows.len() && #[trigger] rows[j].0 == kind {
            let j = choose|j: int| 0 <= j < rows.len() && #[trigger] rows[j].0 == kind;
            assert(j < n);
            assert(init[j].0 == kind);
            let j2 = choose|j: int| 0 <= j < init.len() && #[trigger] init[j].0 == kind;
            if j2 != j {
                assert(rows[j2].0 == kind);
                if j2 < j {
                    assert(rows[j2].0 != rows[j].0);
                } else {
                    assert(rows[j].0 != rows[j2].0);
                }
            }
        } else {
            assert forall|j: int| 0 <= j < init.len() implies #[trigger] init[j].0 != kind by {
                assert(rows[j].0 != kind);
            }
        }
    }
}

/// The counts read from grouped rows, one row per kind: the total is the sum
/// of all groups, and the image, gif and video counts are the counts of the
/// rows named exactly `image`, `gif` and `video` (zero without such a row).
pub proof fn lemma_counts_by_kind(rows: Seq<(Seq<char>, i64)>)
    requires
        distinct_kinds(rows),
    ensures
        counts_after(rows).0 == count_sum(rows),
        counts_after(rows).1 == kind_count(rows, "image"@),
        counts_after(rows).2 == kind_count(rows, "gif"@),
        counts_after(rows).3 == kind_count(rows, "video"@),
    decreases rows.len(),
{
    reveal_strlit("image");
    reveal_strlit("gif");
    reveal_strlit("video");
    if rows.len() == 0 {
    } else {
        let init = rows.drop_last();
        assert(distinct_kinds(init)) by {
            assert forall|i: int, j: int| 0 <= i < j < init.len() implies #[trigger] init[i].0
                != #[trigger] init[j].0 by {
                assert(rows[i].0 != rows[j].0);
            }
        }
        lemma_counts_by_kind(init);
        lemma_kind_count_push(rows, "image"@);
        lemma_kind_count_push(rows, "gif"@);
        lemma_kind_count_push(rows, "video"@);
        assert("image"@ != "gif"@ && "image"@ != "video"@ && "gif"@ != "video"@) by {
            assert("image"@[0] != "gif"@[0] && "image"@[0] != "video"@[0] && "gif"@[0] != "video"@[0]);
        }
    }
}

/// Library counts from `(type, count)` rows. The caller guarantees the total
/// fits in `usize`.
pub fn library_counts_from_rows(rows: &Vec<(String, i64)>) -> (r: LibraryCounts)
    requires
        counts_after(row_views(rows@)).0 <= usize::MAX,
    ensures
        r.total as nat == counts_after(row_views(rows@)).0,
        r.images as nat == counts_after(row_views(rows@)).1,
        r.gifs as nat == counts_after(row_views(rows@)).2,
        r.videos as nat == counts_after(row_views(rows@)).3,
{
    let ghost rv = row_views(rows@);
    let mut counts = LibraryCounts { total: 0, images: 0, gifs: 0, videos: 0 };
    let mut i: usize = 0;
    while i < rows.len()
        invariant
            i <= rows@.len(),
            rv == row_views(rows@),
            counts_after(rv).0 <= usize::MAX,
            counts.total as nat == counts_after(rv.take(i as int)).0,
            counts.images as nat == counts_after(rv.take(i as int)).1,
            counts.gifs as nat == counts_after(rv.take(i as int)).2,
            counts.videos as nat == counts_after(rv.take(i as int)).3,
        decreases rows@.len() - i,
    {
        assert(rv.take(i + 1).drop_last() == rv.take(i as int));
        assert(rv.take(i + 1).last() == (rows@[i as int].0@, rows@[i as int].1));
        proof {
            lemma_counts_monotone(rv, i as int + 1);
        }
        let kind = rows[i].0.as_str();
        let n = rows[i].1;
        let c: usize = if n < 0 {
            0
        } else {
            n as usize
        };
        counts.total = counts.total + c;
        if str_eq(kind, "image") {
            counts.images = c;
        } else if str_eq(kind, "gif") {
            counts.gifs = c;
        } else if str_eq(kind, "video") {
            counts.videos = c;
        }
        i = i + 1;
    }
    assert(rv.take(rows@.len() as int) == rv);
    counts
}

proof fn lemma_counts_monotone(rows: Seq<(Seq<char>, i64)>, k: int)
    requires
        0 <= k <= rows.len(),
    ensures
        counts_after(rows.take(k)).0 <= counts_after(rows).0,
    decreases rows.len() - k,
{
    if k < rows.len() {
        lemma_counts_monotone(rows, k + 1);
        assert(rows.take(k + 1).drop_last() == rows.take(k));
    } else {
        assert(rows.take(k) == rows);
    }
}

} // verus!
