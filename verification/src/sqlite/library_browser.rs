//! The unified library browser: its query, the single SQL predicate shared
//! by its count, page and random-pick statements, its keyset cursor and the
//! fingerprint that binds a cursor to the query it was issued for.

use vstd::prelude::*;

use crate::error::WcError;
use crate::sqlite::library_fts::{fts_match_term, library_fts_match_term};
use crate::text::{
    append_str, decimal, has_prefix, join, join_strings, push_char, signed_decimal,
    split_whitespace, views, words, i64_to_decimal, u64_to_decimal,
};
use crate::sqlite::row_map::{
    clamp_unsigned, non_empty, non_empty_view, opt_view, project_matches, stored_backend,
    stored_file_type, wallpaper_entry_from_row, StoredWallpaperRow,
};
use crate::types::WallpaperEntry;
use vstd::string::StringSliceAdditionalSpecFns;

verus! {

// ── Query types ──────────────────────────────────────────────────────────

/// User-facing wallpaper categories for the unified library browser.
#[derive(Debug, Clone, Copy, PartialEq, Eq, Structural, Hash)]
pub enum LibraryBrowserType {
    Usable,
    Image,
    Gif,
    Video,
    WeScene,
    Unsupported,
}

/// Stable sort orders supported by the unified library browser.
#[derive(Debug, Clone, Copy, PartialEq, Eq, Structural, Hash)]
pub enum LibraryBrowserSort {
    RecentlyAdded,
    NameAsc,
    NameDesc,
}

/// One request to the library browser.
#[derive(Debug, Clone, PartialEq, Eq, Hash)]
pub struct LibraryBrowserQuery {
    pub source_id: Option<i64>,
    pub type_filter: LibraryBrowserType,
    pub favorites_only: bool,
    pub search: String,
    pub sort: LibraryBrowserSort,
    pub cursor: Option<String>,
    pub limit: usize,
}

impl Default for LibraryBrowserQuery {
    /// Usable wallpapers of every source, newest first, 100 per page.
    fn default() -> (q: Self)
        ensures
            q.source_id is None,
            q.type_filter == LibraryBrowserType::Usable,
            !q.favorites_only,
            q.search@ == Seq::<char>::empty(),
            q.sort == LibraryBrowserSort::RecentlyAdded,
            q.cursor is None,
            q.limit == 100,
    {
        LibraryBrowserQuery {
            source_id: None,
            type_filter: LibraryBrowserType::Usable,
            favorites_only: false,
            search: String::new(),
            sort: LibraryBrowserSort::RecentlyAdded,
            cursor: None,
            limit: 100,
        }
    }
}

/// A source that lists a wallpaper, as the browser shows it.
#[derive(Debug, Clone, PartialEq, Eq)]
pub struct LibraryBrowserSource {
    pub id: i64,
    pub display_name: String,
}

/// One wallpaper on a browser page.
#[derive(Debug, Clone)]
pub struct LibraryBrowserItem {
    pub wallpaper_id: i64,
    pub entry: WallpaperEntry,
    pub favorite: bool,
    pub author: Option<String>,
    pub added_at: String,
    pub sources: Vec<LibraryBrowserSource>,
}

/// One browser page and the cursor of the next one, if any.
#[derive(Debug, Clone)]
pub struct LibraryBrowserPage {
    pub revision: u64,
    pub next_cursor: Option<String>,
    pub total: Option<usize>,
    pub items: Vec<LibraryBrowserItem>,
}

/// The exact number of matches at one library revision.
#[derive(Debug, Clone, PartialEq, Eq)]
pub struct LibraryBrowserTotal {
    pub revision: u64,
    pub total: usize,
}

// ── Bound parameters ─────────────────────────────────────────────────────

/// A value bound to a numbered SQL parameter.
#[derive(Debug, Clone, PartialEq, Eq)]
pub enum SqlValue {
    Integer(i64),
    Text(String),
}

/// What a bound parameter holds.
pub enum ParamView {
    Integer(i64),
    Text(Seq<char>),
}

impl View for SqlValue {
    type V = ParamView;

    open spec fn view(&self) -> ParamView {
        match self {
            SqlValue::Integer(n) => ParamView::Integer(*n),
            SqlValue::Text(s) => ParamView::Text(s@),
        }
    }
}

pub open spec fn param_views(v: Seq<SqlValue>) -> Seq<ParamView> {
    v.map_values(|p: SqlValue| p@)
}

/// The placeholder of the `n`th parameter: `?n`.
pub open spec fn placeholder(n: nat) -> Seq<char> {
    seq!['?'] + decimal(n)
}

/// Binds `value` as the next parameter and returns its placeholder.
pub fn push_browser_param(params: &mut Vec<SqlValue>, value: SqlValue) -> (r: String)
    ensures
        final(params)@ == old(params)@.push(value),
        r@ == placeholder(final(params)@.len()),
{
    params.push(value);
    let mut s = String::new();
    push_char(&mut s, '?');
    let digits = u64_to_decimal(params.len() as u64);
    append_str(&mut s, digits.as_str());
    s
}

// ── Predicate text ───────────────────────────────────────────────────────

/// `%`, `_` and the escape character itself preceded by a backslash.
pub open spec fn like_escaped(s: Seq<char>) -> Seq<char>
    decreases s.len(),
{
    if s.len() == 0 {
        Seq::empty()
    } else {
        let c = s.last();
        like_escaped(s.drop_last()) + if c == '\\' || c == '%' || c == '_' {
            seq!['\\', c]
        } else {
            seq![c]
        }
    }
}

pub open spec fn like_special(c: char) -> bool {
    c == '\\' || c == '%' || c == '_'
}

/// Reads an escaped term back: a backslash before a special character
/// stands for that character.
pub open spec fn like_unescaped(s: Seq<char>) -> Seq<char>
    decreases s.len(),
{
    if s.len() >= 2 && like_special(s.last()) && s[s.len() - 2] == '\\' {
        like_unescaped(s.take(s.len() - 2)).push(s.last())
    } else if s.len() == 0 {
        Seq::empty()
    } else {
        like_unescaped(s.drop_last()).push(s.last())
    }
}

/// Escaping loses nothing: the escaped text reads back as the term, so a
/// search word is matched literally and distinct words give distinct
/// patterns.
pub proof fn lemma_like_escape_reversible(s: Seq<char>)
    ensures
        like_unescaped(like_escaped(s)) == s,
    decreases s.len(),
{
    if s.len() > 0 {
        let init = s.drop_last();
        lemma_like_escape_reversible(init);
        let t = like_escaped(s);
        let c = s.last();
        if like_special(c) {
            assert(t.take(t.len() - 2) == like_escaped(init));
        } else {
            assert(t.drop_last() == like_escaped(init));
        }
        assert(s == init.push(c));
    }
}

/// A `LIKE` pattern that matches `term` literally anywhere in a value.
pub open spec fn like_pattern(term: Seq<char>) -> Seq<char> {
    seq!['%'] + like_escaped(term) + seq!['%']
}

pub fn escape_like_term(term: &str) -> (r: String)
    ensures
        r@ == like_pattern(term@),
{
    let mut out = String::new();
    push_char(&mut out, '%');
    for c in it: term.chars()
        invariant
            it.seq() == term@,
            out@ == seq!['%'] + like_escaped(term@.take(it.index() as int)),
    {
        let ghost i = it.index();
        assert(term@.take(i + 1).drop_last() == term@.take(i as int));
        assert(term@.take(i + 1).last() == c);
        if c == '\\' || c == '%' || c == '_' {
            push_char(&mut out, '\\');
        }
        push_char(&mut out, c);
        assert(out@ =~= seq!['%'] + like_escaped(term@.take(i + 1)));
    }
    assert(term@.take(term@.len() as int) == term@);
    push_char(&mut out, '%');
    out
}

pub open spec fn type_condition_text(filter: LibraryBrowserType) -> Seq<char> {
    match filter {
        LibraryBrowserType::Usable => "w.type IN ('image', 'gif', 'video', 'we_scene')"@,
        LibraryBrowserType::Image => "w.type = 'image'"@,
        LibraryBrowserType::Gif => "w.type = 'gif'"@,
        LibraryBrowserType::Video => "w.type = 'video'"@,
        LibraryBrowserType::WeScene => "w.type = 'we_scene'"@,
        LibraryBrowserType::Unsupported => "w.type IN ('we_web', 'unsupported')"@,
    }
}

pub fn browser_type_condition(filter: LibraryBrowserType) -> (r: &'static str)
    ensures
        r@ == type_condition_text(filter),
{
    match filter {
        LibraryBrowserType::Usable => "w.type IN ('image', 'gif', 'video', 'we_scene')",
        LibraryBrowserType::Image => "w.type = 'image'",
        LibraryBrowserType::Gif => "w.type = 'gif'",
        LibraryBrowserType::Video => "w.type = 'video'",
        LibraryBrowserType::WeScene => "w.type = 'we_scene'",
        LibraryBrowserType::Unsupported => "w.type IN ('we_web', 'unsupported')",
    }
}

/// The search text with white space collapsed: its words joined by single
/// spaces.
pub open spec fn normalized_search(search: Seq<char>) -> Seq<char> {
    join(words(search), seq![' '])
}

pub fn normalized_browser_search(search: &str) -> (r: String)
    ensures
        r@ == normalized_search(search@),
{
    let parts = split_whitespace(search);
    assert(views(parts@) =~= words(search@));
    let mut sep = String::new();
    push_char(&mut sep, ' ');
    join_strings(&parts, sep.as_str())
}

pub open spec fn visible_membership_text() -> Seq<char> {
    "EXISTS (\n             SELECT 1\n             FROM wallpaper_sources visible_membership\n             WHERE visible_membership.wallpaper_id = w.id\n         )"@
}

pub open spec fn source_condition_text(p: Seq<char>) -> Seq<char> {
    "EXISTS (\n                 SELECT 1\n                 FROM wallpaper_sources selected_membership\n                 WHERE selected_membership.wallpaper_id = w.id\n                   AND selected_membership.source_id = "@ + p + "\n             )"@
}

pub open spec fn favorites_condition_text() -> Seq<char> {
    "EXISTS (\n                 SELECT 1\n                 FROM favorites favorite_filter\n                 WHERE favorite_filter.path = w.path\n             )"@
}

pub open spec fn fts_condition_text(p: Seq<char>) -> Seq<char> {
    "w.id IN (\n                         SELECT rowid FROM library_browser_fts\n                         WHERE library_browser_fts MATCH "@ + p + "\n                     )"@
}

/// The literal match of one search word against the file name, title,
/// author and the display names of the wallpaper's sources.
pub open spec fn like_condition_text(p: Seq<char>) -> Seq<char> {
    "(\n                 w.filename COLLATE NOCASE LIKE "@ + p + " ESCAPE '\\'\n                 OR (w.title <> '' AND w.title COLLATE NOCASE LIKE "@ + p + " ESCAPE '\\')\n                 OR (w.author <> '' AND w.author COLLATE NOCASE LIKE "@ + p + " ESCAPE '\\')\n                 OR EXISTS (\n                     SELECT 1\n                     FROM wallpaper_sources search_membership\n                     JOIN sources search_source\n                       ON search_source.id = search_membership.source_id\n                     WHERE search_membership.wallpaper_id = w.id\n                       AND search_source.display_name COLLATE NOCASE\n                           LIKE "@ + p + " ESCAPE '\\'\n                 )\n             )"@
}

/// The conditions and bound parameters of a predicate under construction.
pub struct PredicateView {
    pub conds: Seq<Seq<char>>,
    pub params: Seq<ParamView>,
}

/// Membership, type, selected source and favorites conditions.
pub open spec fn predicate_start(
    source_id: Option<i64>,
    type_filter: LibraryBrowserType,
    favorites_only: bool,
) -> PredicateView {
    let base = PredicateView {
        conds: seq![visible_membership_text(), type_condition_text(type_filter)],
        params: Seq::empty(),
    };
    let with_source = match source_id {
        Some(id) => PredicateView {
            conds: base.conds.push(source_condition_text(placeholder(1))),
            params: seq![ParamView::Integer(id)],
        },
        None => base,
    };
    if favorites_only {
        PredicateView { conds: with_source.conds.push(favorites_condition_text()), params: with_source.params }
    } else {
        with_source
    }
}

/// One search word: its full-text condition when the index may be used and
/// the word is long enough, then its literal match.
pub open spec fn search_step(st: PredicateView, term: Seq<char>, use_fts: bool) -> PredicateView {
    let st1 = if use_fts && fts_match_term(term) is Some {
        let params = st.params.push(ParamView::Text(fts_match_term(term).unwrap()));
        PredicateView {
            conds: st.conds.push(fts_condition_text(placeholder(params.len()))),
            params,
        }
    } else {
        st
    };
    let params = st1.params.push(ParamView::Text(like_pattern(term)));
    PredicateView { conds: st1.conds.push(like_condition_text(placeholder(params.len()))), params }
}

pub open spec fn search_predicate(st: PredicateView, terms: Seq<Seq<char>>, use_fts: bool) -> PredicateView
    decreases terms.len(),
{
    if terms.len() == 0 {
        st
    } else {
        search_step(search_predicate(st, terms.drop_last(), use_fts), terms.last(), use_fts)
    }
}

/// Every condition of a browser query; every search word must match.
pub open spec fn browser_predicate_view(q: LibraryBrowserQuery, use_fts: bool) -> PredicateView {
    search_predicate(
        predicate_start(q.source_id, q.type_filter, q.favorites_only),
        words(q.search@),
        use_fts,
    )
}

/// The `WHERE` clause and parameters shared by browser statements.
#[derive(Debug, Clone)]
pub struct BrowserPredicate {
    pub where_sql: String,
    pub params: Vec<SqlValue>,
}

impl BrowserPredicate {
    pub open spec fn matches_view(&self, v: PredicateView) -> bool {
        &&& self.where_sql@ == "WHERE "@ + join(v.conds, " AND "@)
        &&& param_views(self.params@) == v.params
    }
}

proof fn lemma_param_views_push(v: Seq<SqlValue>, x: SqlValue)
    ensures
        param_views(v.push(x)) == param_views(v).push(x@),
{
    assert(param_views(v.push(x)) =~= param_views(v).push(x@));
}

/// Builds the sole predicate used by browser count, page and random-pick
/// statements.
pub fn browser_predicate(query: &LibraryBrowserQuery, use_fts: bool) -> (r: BrowserPredicate)
    ensures
        r.matches_view(browser_predicate_view(*query, use_fts)),
{
    let mut params: Vec<SqlValue> = Vec::new();
    let mut conditions: Vec<String> = Vec::new();
    conditions.push("EXISTS (\n             SELECT 1\n             FROM wallpaper_sources visible_membership\n             WHERE visible_membership.wallpaper_id = w.id\n         )".to_owned());
    conditions.push(browser_type_condition(query.type_filter).to_owned());
    if let Some(source_id) = query.source_id {
        let p = push_browser_param(&mut params, SqlValue::Integer(source_id));
        let mut c = String::new();
        append_str(&mut c, "EXISTS (\n                 SELECT 1\n                 FROM wallpaper_sources selected_membership\n                 WHERE selected_membership.wallpaper_id = w.id\n                   AND selected_membership.source_id = ");
        append_str(&mut c, p.as_str());
        append_str(&mut c, "\n             )");
        conditions.push(c);
        proof {
            lemma_param_views_push(Seq::empty(), SqlValue::Integer(source_id));
            assert(param_views(Seq::<SqlValue>::empty()) =~= Seq::<ParamView>::empty());
        }
    }
    if query.favorites_only {
        conditions.push("EXISTS (\n                 SELECT 1\n                 FROM favorites favorite_filter\n                 WHERE favorite_filter.path = w.path\n             )".to_owned());
    }
    let ghost start = predicate_start(query.source_id, query.type_filter, query.favorites_only);
    assert(views(conditions@) =~= start.conds);
    assert(param_views(params@) =~= start.params);
    let terms = split_whitespace(query.search.as_str());
    let ghost ws = words(query.search@);
    let mut i: usize = 0;
    while i < terms.len()
        invariant
            i <= terms@.len() == ws.len(),
            ws == words(query.search@),
            forall|k: int| 0 <= k < terms@.len() ==> #[trigger] terms@[k]@ == ws[k],
            views(conditions@) == search_predicate(start, ws.take(i as int), use_fts).conds,
            param_views(params@) == search_predicate(start, ws.take(i as int), use_fts).params,
        decreases terms@.len() - i,
    {
        let ghost prev = search_predicate(start, ws.take(i as int), use_fts);
        assert(ws.take(i + 1).drop_last() == ws.take(i as int));
        assert(ws.take(i + 1).last() == terms@[i as int]@);
        let term = terms[i].as_str();
        if use_fts {
            if let Some(fts_term) = library_fts_match_term(term) {
                let ghost before = params@;
                let p = push_browser_param(&mut params, SqlValue::Text(fts_term));
                proof {
                    lemma_param_views_push(before, SqlValue::Text(fts_term));
                }
                let mut c = String::new();
                append_str(&mut c, "w.id IN (\n                         SELECT rowid FROM library_browser_fts\n                         WHERE library_browser_fts MATCH ");
                append_str(&mut c, p.as_str());
                append_str(&mut c, "\n                     )");
                conditions.push(c);
            }
        }
        let ghost before = params@;
        let pattern = escape_like_term(term);
        let ghost pv = pattern@;
        let p = push_browser_param(&mut params, SqlValue::Text(pattern));
        proof {
            lemma_param_views_push(before, SqlValue::Text(pattern));
        }
        let mut c = String::new();
        append_str(&mut c, "(\n                 w.filename COLLATE NOCASE LIKE ");
        append_str(&mut c, p.as_str());
        append_str(&mut c, " ESCAPE '\\'\n                 OR (w.title <> '' AND w.title COLLATE NOCASE LIKE ");
        append_str(&mut c, p.as_str());
        append_str(&mut c, " ESCAPE '\\')\n                 OR (w.author <> '' AND w.author COLLATE NOCASE LIKE ");
        append_str(&mut c, p.as_str());
        append_str(&mut c, " ESCAPE '\\')\n                 OR EXISTS (\n                     SELECT 1\n                     FROM wallpaper_sources search_membership\n                     JOIN sources search_source\n                       ON search_source.id = search_membership.source_id\n                     WHERE search_membership.wallpaper_id = w.id\n                       AND search_source.display_name COLLATE NOCASE\n                           LIKE ");
        append_str(&mut c, p.as_str());
        append_str(&mut c, " ESCAPE '\\'\n                 )\n             )");
        conditions.push(c);
        proof {
            assert(views(conditions@) == search_predicate(start, ws.take(i + 1), use_fts).conds);
        }
        i = i + 1;
    }
    assert(ws.take(ws.len() as int) == ws);
    let mut where_sql = String::new();
    append_str(&mut where_sql, "WHERE ");
    let joined = join_strings(&conditions, " AND ");
    append_str(&mut where_sql, joined.as_str());
    BrowserPredicate { where_sql, params }
}

/// The start of a literal match that tests the file name, case-insensitively,
/// against the pattern bound to the `k`th parameter, as the first of its
/// alternatives.
pub open spec fn filename_like_start(k: nat) -> Seq<char> {
    "(\n                 w.filename COLLATE NOCASE LIKE "@ + placeholder(k) + " ESCAPE '\\'\n                 OR "@
}

/// Some condition of `v` tests the file name against the literal pattern of
/// `term`, bound as one of `v`'s parameters.
pub open spec fn file_name_searched(v: PredicateView, term: Seq<char>) -> bool {
    exists|c: int, k: nat|
        0 <= c < v.conds.len() && 1 <= k <= v.params.len() && #[trigger] v.params[k - 1]
            == ParamView::Text(like_pattern(term)) && has_prefix(#[trigger] v.conds[c], filename_like_start(k))
}

proof fn lemma_like_condition_starts(k: nat)
    ensures
        has_prefix(like_condition_text(placeholder(k)), filename_like_start(k)),
{
    reveal_strlit("(\n                 w.filename COLLATE NOCASE LIKE ");
    reveal_strlit(" ESCAPE '\\'\n                 OR ");
    reveal_strlit(" ESCAPE '\\'\n                 OR (w.title <> '' AND w.title COLLATE NOCASE LIKE ");
    let t = like_condition_text(placeholder(k));
    let p = filename_like_start(k);
    assert(t.take(p.len() as int) =~= p);
}

proof fn lemma_search_keeps_file_names(st: PredicateView, terms: Seq<Seq<char>>, use_fts: bool, j: int)
    requires
        0 <= j < terms.len(),
    ensures
        file_name_searched(search_predicate(st, terms, use_fts), terms[j]),
    decreases terms.len(),
{
    let prev = search_predicate(st, terms.drop_last(), use_fts);
    let v = search_predicate(st, terms, use_fts);
    let term = terms.last();
    let st1 = if use_fts && fts_match_term(term) is Some {
        let params = prev.params.push(ParamView::Text(fts_match_term(term).unwrap()));
        PredicateView { conds: prev.conds.push(fts_condition_text(placeholder(params.len()))), params }
    } else {
        prev
    };
    assert(v.conds == st1.conds.push(like_condition_text(placeholder(st1.params.len() + 1))));
    assert(v.params == st1.params.push(ParamView::Text(like_pattern(term))));
    if j == terms.len() - 1 {
        let k = (st1.params.len() + 1) as nat;
        lemma_like_condition_starts(k);
        assert(v.params[k - 1] == ParamView::Text(like_pattern(terms[j])));
        assert(has_prefix(v.conds[st1.conds.len() as int], filename_like_start(k)));
    } else {
        lemma_search_keeps_file_names(st, terms.drop_last(), use_fts, j);
        assert(terms.drop_last()[j] == terms[j]);
        let (c, k) = choose|c: int, k: nat|
            0 <= c < prev.conds.len() && 1 <= k <= prev.params.len() && #[trigger] prev.params[k - 1]
                == ParamView::Text(like_pattern(terms[j])) && has_prefix(#[trigger] prev.conds[c], filename_like_start(k));
        assert(v.params[k - 1] == prev.params[k - 1]);
        assert(v.conds[c] == prev.conds[c]);
    }
}

/// Every search word can be found in a file name: for each word of the
/// search, the predicate holds a literal-match condition whose first
/// alternative tests the file name, case-insensitively, against the word's
/// literal pattern `%word%`, whatever the title, author or source names.
pub proof fn lemma_search_words_match_file_names(q: LibraryBrowserQuery, use_fts: bool)
    ensures
        forall|j: int|
            0 <= j < words(q.search@).len() ==> file_name_searched(
                browser_predicate_view(q, use_fts),
                #[trigger] words(q.search@)[j],
            ),
{
    assert forall|j: int| 0 <= j < words(q.search@).len() implies file_name_searched(
        browser_predicate_view(q, use_fts),
        #[trigger] words(q.search@)[j],
    ) by {
        lemma_search_keeps_file_names(
            predicate_start(q.source_id, q.type_filter, q.favorites_only),
            words(q.search@),
            use_fts,
            j,
        );
    }
}

// ── Sort order ───────────────────────────────────────────────────────────

pub open spec fn browser_order_text(sort: LibraryBrowserSort) -> Seq<char> {
    match sort {
        LibraryBrowserSort::RecentlyAdded => "w.added_at DESC, w.id DESC"@,
        LibraryBrowserSort::NameAsc => "COALESCE(NULLIF(w.title, ''), w.filename) COLLATE NOCASE ASC, w.path ASC, w.id ASC"@,
        LibraryBrowserSort::NameDesc => "COALESCE(NULLIF(w.title, ''), w.filename) COLLATE NOCASE DESC, w.path ASC, w.id ASC"@,
    }
}

pub fn browser_order_by(sort: LibraryBrowserSort) -> (r: &'static str)
    ensures
        r@ == browser_order_text(sort),
{
    match sort {
        LibraryBrowserSort::RecentlyAdded => "w.added_at DESC, w.id DESC",
        LibraryBrowserSort::NameAsc => "COALESCE(NULLIF(w.title, ''), w.filename) COLLATE NOCASE ASC, w.path ASC, w.id ASC",
        LibraryBrowserSort::NameDesc => "COALESCE(NULLIF(w.title, ''), w.filename) COLLATE NOCASE DESC, w.path ASC, w.id ASC",
    }
}

// ── Query fingerprint ────────────────────────────────────────────────────

pub open spec fn type_key_text(filter: LibraryBrowserType) -> Seq<char> {
    match filter {
        LibraryBrowserType::Usable => "usable"@,
        LibraryBrowserType::Image => "image"@,
        LibraryBrowserType::Gif => "gif"@,
        LibraryBrowserType::Video => "video"@,
        LibraryBrowserType::WeScene => "we_scene"@,
        LibraryBrowserType::Unsupported => "unsupported"@,
    }
}

pub fn browser_type_key(filter: LibraryBrowserType) -> (r: &'static str)
    ensures
        r@ == type_key_text(filter),
{
    match filter {
        LibraryBrowserType::Usable => "usable",
        LibraryBrowserType::Image => "image",
        LibraryBrowserType::Gif => "gif",
        LibraryBrowserType::Video => "video",
        LibraryBrowserType::WeScene => "we_scene",
        LibraryBrowserType::Unsupported => "unsupported",
    }
}

pub open spec fn sort_key_text(sort: LibraryBrowserSort) -> Seq<char> {
    match sort {
        LibraryBrowserSort::RecentlyAdded => "recently_added"@,
        LibraryBrowserSort::NameAsc => "name_asc"@,
        LibraryBrowserSort::NameDesc => "name_desc"@,
    }
}

pub fn browser_sort_key(sort: LibraryBrowserSort) -> (r: &'static str)
    ensures
        r@ == sort_key_text(sort),
{
    match sort {
        LibraryBrowserSort::RecentlyAdded => "recently_added",
        LibraryBrowserSort::NameAsc => "name_asc",
        LibraryBrowserSort::NameDesc => "name_desc",
    }
}

/// `{:?}` of an optional source id: `None` or `Some(n)`.
pub open spec fn source_debug_text(source_id: Option<i64>) -> Seq<char> {
    match source_id {
        Some(id) => "Some("@ + signed_decimal(id as int) + ")"@,
        None => "None"@,
    }
}

pub open spec fn bool_text(b: bool) -> Seq<char> {
    if b {
        "true"@
    } else {
        "false"@
    }
}

/// The criteria a cursor is bound to, one per line: source, type, favorites
/// flag, normalized search and sort.
pub open spec fn fingerprint_text(
    source_id: Option<i64>,
    type_filter: LibraryBrowserType,
    favorites_only: bool,
    search: Seq<char>,
    sort: LibraryBrowserSort,
) -> Seq<char> {
    "source="@ + source_debug_text(source_id) + "\ntype="@ + type_key_text(type_filter)
        + "\nfavorite="@ + bool_text(favorites_only) + "\nsearch="@ + normalized_search(search)
        + "\nsort="@ + sort_key_text(sort)
}

/// One step of 64-bit FNV-1a.
pub open spec fn fnv_step(hash: u64, byte: u8) -> u64 {
    vstd::wrapping::u64_specs::wrapping_mul(hash ^ (byte as u64), 0x100000001b3u64)
}

/// 64-bit FNV-1a of a byte string.
pub open spec fn fnv1a(bytes: Seq<u8>) -> u64
    decreases bytes.len(),
{
    if bytes.len() == 0 {
        0xcbf29ce484222325u64
    } else {
        fnv_step(fnv1a(bytes.drop_last()), bytes.last())
    }
}

pub open spec fn hex_digit(d: int) -> char {
    if d < 10 {
        (('0' as int) + d) as char
    } else {
        (('a' as int) + d - 10) as char
    }
}

/// `n` in lowercase hexadecimal, exactly `width` digits (higher digits cut).
pub open spec fn hex_fixed(n: nat, width: nat) -> Seq<char>
    decreases width,
{
    if width == 0 {
        Seq::empty()
    } else {
        hex_fixed(n / 16, (width - 1) as nat).push(hex_digit((n % 16) as int))
    }
}

/// The fingerprint of a query: FNV-1a of the UTF-8 criteria text, as 16
/// lowercase hexadecimal digits.
pub open spec fn query_fingerprint(q: LibraryBrowserQuery) -> Seq<char> {
    hex_fixed(
        fnv1a(
            vstd::utf8::encode_utf8(
                fingerprint_text(q.source_id, q.type_filter, q.favorites_only, q.search@, q.sort),
            ),
        ) as nat,
        16,
    )
}

fn hex_digit_of(d: u64) -> (c: char)
    requires
        d < 16,
    ensures
        c == hex_digit(d as int),
{
    if d < 10 {
        let b: u8 = 48u8 + d as u8;
        b as char
    } else {
        let b: u8 = 87u8 + d as u8;
        b as char
    }
}

fn hex_fixed_of(n: u64, width: u32) -> (s: String)
    ensures
        s@ == hex_fixed(n as nat, width as nat),
    decreases width,
{
    if width == 0 {
        String::new()
    } else {
        let mut s = hex_fixed_of(n / 16, width - 1);
        push_char(&mut s, hex_digit_of(n % 16));
        s
    }
}

fn fingerprint_criteria(query: &LibraryBrowserQuery) -> (r: String)
    ensures
        r@ == fingerprint_text(
            query.source_id,
            query.type_filter,
            query.favorites_only,
            query.search@,
            query.sort,
        ),
{
    let mut s = String::new();
    append_str(&mut s, "source=");
    match query.source_id {
        Some(id) => {
            append_str(&mut s, "Some(");
            let digits = i64_to_decimal(id);
            append_str(&mut s, digits.as_str());
            append_str(&mut s, ")");
        },
        None => {
            append_str(&mut s, "None");
        },
    }
    append_str(&mut s, "\ntype=");
    append_str(&mut s, browser_type_key(query.type_filter));
    append_str(&mut s, "\nfavorite=");
    if query.favorites_only {
        append_str(&mut s, "true");
    } else {
        append_str(&mut s, "false");
    }
    append_str(&mut s, "\nsearch=");
    let search = normalized_browser_search(query.search.as_str());
    append_str(&mut s, search.as_str());
    append_str(&mut s, "\nsort=");
    append_str(&mut s, browser_sort_key(query.sort));
    s
}

/// Stable, non-cryptographic fingerprint binding a cursor to normalized
/// criteria without embedding the raw search text in the token.
pub fn browser_query_fingerprint(query: &LibraryBrowserQuery) -> (r: String)
    ensures
        r@ == query_fingerprint(*query),
{
    let text = fingerprint_criteria(query);
    let bytes = text.as_str().as_bytes();
    let mut hash: u64 = 0xcbf29ce484222325u64;
    let mut i: usize = 0;
    while i < bytes.len()
        invariant
            i <= bytes@.len(),
            bytes@ == vstd::utf8::encode_utf8(text@),
            hash == fnv1a(bytes@.take(i as int)),
        decreases bytes@.len() - i,
    {
        assert(bytes@.take(i + 1).drop_last() == bytes@.take(i as int));
        assert(bytes@.take(i + 1).last() == bytes@[i as int]);
        hash = (hash ^ (bytes[i] as u64)).wrapping_mul(0x100000001b3u64);
        i = i + 1;
    }
    assert(bytes@.take(bytes@.len() as int) == bytes@);
    hex_fixed_of(hash, 16)
}

// ── Keyset cursor ────────────────────────────────────────────────────────

/// The current cursor format version.
pub const BROWSER_CURSOR_VERSION: u8 = 1;
/// The longest decoded cursor accepted, in bytes.
pub const MAX_CURSOR_BYTES: usize = 4096;

/// The sort key of the last item of a page, from which the next page starts.
#[derive(Debug, Clone)]
pub enum BrowserCursorBoundary {
    RecentlyAdded { added_at: String, id: i64 },
    NameAsc { name: String, path: String, id: i64 },
    NameDesc { name: String, path: String, id: i64 },
}

/// What a browser cursor token holds.
#[derive(Debug, Clone)]
pub struct BrowserCursorV1 {
    pub version: u8,
    pub revision: u64,
    pub fingerprint: String,
    pub boundary: BrowserCursorBoundary,
}

/// The name a wallpaper sorts by: its non-empty title, else its file name.
pub open spec fn item_sort_name(item: LibraryBrowserItem) -> Seq<char> {
    match item.entry.project {
        Some(p) => match p.title {
            Some(t) => if t@.len() > 0 {
                t@
            } else {
                item.entry.spec_filename()
            },
            None => item.entry.spec_filename(),
        },
        None => item.entry.spec_filename(),
    }
}

pub open spec fn boundary_matches_item(
    b: BrowserCursorBoundary,
    sort: LibraryBrowserSort,
    item: LibraryBrowserItem,
) -> bool {
    match sort {
        LibraryBrowserSort::RecentlyAdded => b matches BrowserCursorBoundary::RecentlyAdded {
            added_at,
            id,
        } && added_at@ == item.added_at@ && id == item.wallpaper_id,
        LibraryBrowserSort::NameAsc => b matches BrowserCursorBoundary::NameAsc { name, path, id }
            && name@ == item_sort_name(item) && path@ == item.entry.path@ && id
            == item.wallpaper_id,
        LibraryBrowserSort::NameDesc => b matches BrowserCursorBoundary::NameDesc { name, path, id }
            && name@ == item_sort_name(item) && path@ == item.entry.path@ && id
            == item.wallpaper_id,
    }
}

fn clone_string(s: &String) -> (r: String)
    ensures
        r@ == s@,
{
    s.clone()
}

/// The cursor boundary after `item` in the given order.
pub fn cursor_boundary_for_item(sort: LibraryBrowserSort, item: &LibraryBrowserItem) -> (r:
    BrowserCursorBoundary)
    ensures
        boundary_matches_item(r, sort, *item),
{
    match sort {
        LibraryBrowserSort::RecentlyAdded => BrowserCursorBoundary::RecentlyAdded {
            added_at: clone_string(&item.added_at),
            id: item.wallpaper_id,
        },
        LibraryBrowserSort::NameAsc | LibraryBrowserSort::NameDesc => {
            let name = match &item.entry.project {
                Some(project) => match &project.title {
                    Some(title) => if !title.as_str().is_empty() {
                        clone_string(title)
                    } else {
                        item.entry.filename()
                    },
                    None => item.entry.filename(),
                },
                None => item.entry.filename(),
            };
            let path = clone_string(&item.entry.path);
            match sort {
                LibraryBrowserSort::NameAsc => BrowserCursorBoundary::NameAsc {
                    name,
                    path,
                    id: item.wallpaper_id,
                },
                _ => BrowserCursorBoundary::NameDesc { name, path, id: item.wallpaper_id },
            }
        },
    }
}

pub open spec fn recent_boundary_text(a: Seq<char>, i: Seq<char>) -> Seq<char> {
    "(w.added_at < "@ + a + " OR (w.added_at = "@ + a + " AND w.id < "@ + i + "))"@
}

pub open spec fn name_boundary_text(op: Seq<char>, n: Seq<char>, p: Seq<char>, i: Seq<char>) -> Seq<char> {
    let e = "COALESCE(NULLIF(w.title, ''), w.filename)"@;
    "("@ + e + " COLLATE NOCASE "@ + op + " "@ + n + " COLLATE NOCASE\n          OR ("@ + e + " COLLATE NOCASE = "@ + n + " COLLATE NOCASE\n              AND (w.path > "@ + p + " OR (w.path = "@ + p
        + " AND w.id > "@ + i + "))))"@
}

/// The keyset condition after a name boundary: binds the name, the path and
/// the id, in that order, and compares names with `name_operator`.
pub fn name_cursor_condition(
    params: &mut Vec<SqlValue>,
    name: &str,
    path: &str,
    id: i64,
    name_operator: &str,
) -> (r: String)
    ensures
        final(params)@.len() == old(params)@.len() + 3,
        param_views(final(params)@) == param_views(old(params)@).push(ParamView::Text(name@)).push(
            ParamView::Text(path@),
        ).push(ParamView::Integer(id)),
        r@ == name_boundary_text(
            name_operator@,
            placeholder(old(params)@.len() + 1),
            placeholder(old(params)@.len() + 2),
            placeholder(old(params)@.len() + 3),
        ),
{
    let ghost start = params@;
    let v1 = SqlValue::Text(name.to_owned());
    proof {
        lemma_param_views_push(start, v1);
    }
    let pn = push_browser_param(params, v1);
    let ghost after_name = params@;
    let v2 = SqlValue::Text(path.to_owned());
    proof {
        lemma_param_views_push(after_name, v2);
    }
    let pp = push_browser_param(params, v2);
    let ghost after_path = params@;
    let pi = push_browser_param(params, SqlValue::Integer(id));
    proof {
        lemma_param_views_push(after_path, SqlValue::Integer(id));
    }
    let e = "COALESCE(NULLIF(w.title, ''), w.filename)";
    let mut s = String::new();
    append_str(&mut s, "(");
    append_str(&mut s, e);
    append_str(&mut s, " COLLATE NOCASE ");
    append_str(&mut s, name_operator);
    append_str(&mut s, " ");
    append_str(&mut s, pn.as_str());
    append_str(&mut s, " COLLATE NOCASE\n          OR (");
    append_str(&mut s, e);
    append_str(&mut s, " COLLATE NOCASE = ");
    append_str(&mut s, pn.as_str());
    append_str(&mut s, " COLLATE NOCASE\n              AND (w.path > ");
    append_str(&mut s, pp.as_str());
    append_str(&mut s, " OR (w.path = ");
    append_str(&mut s, pp.as_str());
    append_str(&mut s, " AND w.id > ");
    append_str(&mut s, pi.as_str());
    append_str(&mut s, "))))");
    s
}

/// Whether a boundary was made for the given sort.
pub open spec fn boundary_fits(sort: LibraryBrowserSort, b: BrowserCursorBoundary) -> bool {
    match sort {
        LibraryBrowserSort::RecentlyAdded => b is RecentlyAdded,
        LibraryBrowserSort::NameAsc => b is NameAsc,
        LibraryBrowserSort::NameDesc => b is NameDesc,
    }
}

/// The keyset condition of a boundary and the parameters it binds, numbered
/// after `n` earlier parameters.
pub open spec fn boundary_condition(b: BrowserCursorBoundary, n: nat) -> (Seq<char>, Seq<ParamView>) {
    match b {
        BrowserCursorBoundary::RecentlyAdded { added_at, id } => (
            recent_boundary_text(placeholder(n + 1), placeholder(n + 2)),
            seq![ParamView::Text(added_at@), ParamView::Integer(id)],
        ),
        BrowserCursorBoundary::NameAsc { name, path, id } => (
            name_boundary_text(">"@, placeholder(n + 1), placeholder(n + 2), placeholder(n + 3)),
            seq![ParamView::Text(name@), ParamView::Text(path@), ParamView::Integer(id)],
        ),
        BrowserCursorBoundary::NameDesc { name, path, id } => (
            name_boundary_text("<"@, placeholder(n + 1), placeholder(n + 2), placeholder(n + 3)),
            seq![ParamView::Text(name@), ParamView::Text(path@), ParamView::Integer(id)],
        ),
    }
}

/// A cursor continues the listing it was issued for: its boundary, taken
/// from a page's last item for a sort, fits that sort, so the next page
/// accepts it, and the keyset condition binds the item's own sort key,
/// path and id.
pub proof fn lemma_issued_boundary_fits(
    b: BrowserCursorBoundary,
    sort: LibraryBrowserSort,
    item: LibraryBrowserItem,
    n: nat,
)
    requires
        boundary_matches_item(b, sort, item),
    ensures
        boundary_fits(sort, b),
        boundary_condition(b, n).1 == (match sort {
            LibraryBrowserSort::RecentlyAdded => seq![
                ParamView::Text(item.added_at@),
                ParamView::Integer(item.wallpaper_id),
            ],
            _ => seq![
                ParamView::Text(item_sort_name(item)),
                ParamView::Text(item.entry.path@),
                ParamView::Integer(item.wallpaper_id),
            ],
        }),
{
}

/// Narrows a predicate to the rows after a cursor boundary. A boundary of
/// another sort is refused and the predicate is left as it was.
pub fn append_cursor_boundary(
    predicate: &mut BrowserPredicate,
    sort: LibraryBrowserSort,
    boundary: &BrowserCursorBoundary,
) -> (r: Result<(), WcError>)
    ensures
        boundary_fits(sort, *boundary) ==> (r is Ok && final(predicate).where_sql@ == old(
            predicate,
        ).where_sql@ + " AND "@ + boundary_condition(*boundary, old(predicate).params@.len()).0
            && param_views(final(predicate).params@) == param_views(old(predicate).params@)
            + boundary_condition(*boundary, old(predicate).params@.len()).1),
        !boundary_fits(sort, *boundary) ==> (r matches Err(WcError::InvalidCursor { reason })
            && reason@ == "sort boundary mismatch"@ && final(predicate).where_sql@ == old(
            predicate,
        ).where_sql@ && final(predicate).params@ == old(predicate).params@),
{
    let ghost start = predicate.params@;
    let condition = match (sort, boundary) {
        (
            LibraryBrowserSort::RecentlyAdded,
            BrowserCursorBoundary::RecentlyAdded { added_at, id },
        ) => {
            let v1 = SqlValue::Text(clone_string(added_at));
            proof {
                lemma_param_views_push(start, v1);
            }
            let pa = push_browser_param(&mut predicate.params, v1);
            let ghost mid = predicate.params@;
            let pi = push_browser_param(&mut predicate.params, SqlValue::Integer(*id));
            proof {
                lemma_param_views_push(mid, SqlValue::Integer(*id));
                assert(param_views(predicate.params@) =~= param_views(start) + seq![
                    ParamView::Text(added_at@),
                    ParamView::Integer(*id),
                ]);
            }
            let mut c = String::new();
            append_str(&mut c, "(w.added_at < ");
            append_str(&mut c, pa.as_str());
            append_str(&mut c, " OR (w.added_at = ");
            append_str(&mut c, pa.as_str());
            append_str(&mut c, " AND w.id < ");
            append_str(&mut c, pi.as_str());
            append_str(&mut c, "))");
            c
        },
        (LibraryBrowserSort::NameAsc, BrowserCursorBoundary::NameAsc { name, path, id }) => {
            let c = name_cursor_condition(&mut predicate.params, name.as_str(), path.as_str(), *id, ">");
            assert(param_views(predicate.params@) =~= param_views(start) + seq![
                ParamView::Text(name@),
                ParamView::Text(path@),
                ParamView::Integer(*id),
            ]);
            c
        },
        (LibraryBrowserSort::NameDesc, BrowserCursorBoundary::NameDesc { name, path, id }) => {
            let c = name_cursor_condition(&mut predicate.params, name.as_str(), path.as_str(), *id, "<");
            assert(param_views(predicate.params@) =~= param_views(start) + seq![
                ParamView::Text(name@),
                ParamView::Text(path@),
                ParamView::Integer(*id),
            ]);
            c
        },
        _ => {
            return Err(WcError::InvalidCursor { reason: "sort boundary mismatch" });
        },
    };
    append_str(&mut predicate.where_sql, " AND ");
    append_str(&mut predicate.where_sql, condition.as_str());
    Ok(())
}

/// The sort key of the name orders.
pub open spec fn name_sort_key() -> Seq<char> {
    "COALESCE(NULLIF(w.title, ''), w.filename) COLLATE NOCASE"@
}

/// The keyset condition after a boundary continues the listing in the
/// order of its `ORDER BY`: under a descending name order it keeps names
/// that compare below the boundary's name, under an ascending one names
/// that compare above it, equal names going on to larger paths and then
/// larger ids, as the order puts them; after a recently-added boundary it
/// keeps earlier additions, the order being newest first.
pub proof fn lemma_boundary_follows_order(b: BrowserCursorBoundary, n: nat)
    ensures
        ({
            let key = name_sort_key();
            let cond = boundary_condition(b, n).0;
            match b {
                BrowserCursorBoundary::NameDesc { .. } => {
                    &&& has_prefix(browser_order_text(LibraryBrowserSort::NameDesc), key + " DESC, w.path ASC, w.id ASC"@)
                    &&& has_prefix(cond, "("@ + key + " < "@ + placeholder(n + 1))
                },
                BrowserCursorBoundary::NameAsc { .. } => {
                    &&& has_prefix(browser_order_text(LibraryBrowserSort::NameAsc), key + " ASC, w.path ASC, w.id ASC"@)
                    &&& has_prefix(cond, "("@ + key + " > "@ + placeholder(n + 1))
                },
                BrowserCursorBoundary::RecentlyAdded { .. } => {
                    &&& has_prefix(browser_order_text(LibraryBrowserSort::RecentlyAdded), "w.added_at DESC, w.id DESC"@)
                    &&& has_prefix(cond, "(w.added_at < "@ + placeholder(n + 1))
                },
            }
        }),
{
    reveal_strlit("COALESCE(NULLIF(w.title, ''), w.filename) COLLATE NOCASE");
    reveal_strlit("COALESCE(NULLIF(w.title, ''), w.filename)");
    reveal_strlit(" COLLATE NOCASE ");
    reveal_strlit(" DESC, w.path ASC, w.id ASC");
    reveal_strlit(" ASC, w.path ASC, w.id ASC");
    reveal_strlit("COALESCE(NULLIF(w.title, ''), w.filename) COLLATE NOCASE ASC, w.path ASC, w.id ASC");
    reveal_strlit("COALESCE(NULLIF(w.title, ''), w.filename) COLLATE NOCASE DESC, w.path ASC, w.id ASC");
    reveal_strlit("w.added_at DESC, w.id DESC");
    reveal_strlit("(");
    reveal_strlit(" < ");
    reveal_strlit(" > ");
    reveal_strlit("<");
    reveal_strlit(">");
    reveal_strlit(" ");
    reveal_strlit("(w.added_at < ");
    let key = name_sort_key();
    let e = "COALESCE(NULLIF(w.title, ''), w.filename)"@;
    let cond = boundary_condition(b, n).0;
    let ph = placeholder(n + 1);
    match b {
        BrowserCursorBoundary::NameDesc { .. } => {
            let o = browser_order_text(LibraryBrowserSort::NameDesc);
            let p = key + " DESC, w.path ASC, w.id ASC"@;
            assert(o.take(p.len() as int) =~= p);
            let q = "("@ + key + " < "@ + ph;
            assert(cond.take(q.len() as int) =~= q);
        },
        BrowserCursorBoundary::NameAsc { .. } => {
            let o = browser_order_text(LibraryBrowserSort::NameAsc);
            let p = key + " ASC, w.path ASC, w.id ASC"@;
            assert(o.take(p.len() as int) =~= p);
            let q = "("@ + key + " > "@ + ph;
            assert(cond.take(q.len() as int) =~= q);
        },
        BrowserCursorBoundary::RecentlyAdded { .. } => {
            let o = browser_order_text(LibraryBrowserSort::RecentlyAdded);
            assert(o.take(o.len() as int) =~= o);
            let q = "(w.added_at < "@ + ph;
            assert(cond.take(q.len() as int) =~= q);
        },
    }
}

// ── Cursor tokens ────────────────────────────────────────────────────────

/// Two lowercase hexadecimal digits per byte.
pub open spec fn hex_text(bytes: Seq<u8>) -> Seq<char>
    decreases bytes.len(),
{
    if bytes.len() == 0 {
        Seq::empty()
    } else {
        hex_text(bytes.drop_last()) + seq![
            hex_digit((bytes.last() / 16) as int),
            hex_digit((bytes.last() % 16) as int),
        ]
    }
}

pub fn hex_encode(bytes: &[u8]) -> (r: String)
    ensures
        r@ == hex_text(bytes@),
{
    let mut out = String::new();
    let mut i: usize = 0;
    while i < bytes.len()
        invariant
            i <= bytes@.len(),
            out@ == hex_text(bytes@.take(i as int)),
        decreases bytes@.len() - i,
    {
        assert(bytes@.take(i + 1).drop_last() == bytes@.take(i as int));
        assert(bytes@.take(i + 1).last() == bytes@[i as int]);
        let b = bytes[i];
        push_char(&mut out, hex_digit_of((b / 16) as u64));
        push_char(&mut out, hex_digit_of((b % 16) as u64));
        assert(out@ =~= hex_text(bytes@.take(i + 1)));
        i = i + 1;
    }
    assert(bytes@.take(bytes@.len() as int) == bytes@);
    out
}

/// The value of one hexadecimal digit byte, either case.
pub open spec fn hex_value(b: u8) -> Option<u8> {
    if 48 <= b <= 57 {
        Some((b - 48) as u8)
    } else if 97 <= b <= 102 {
        Some((b - 87) as u8)
    } else if 65 <= b <= 70 {
        Some((b - 55) as u8)
    } else {
        None
    }
}

/// The bytes that pairs of hexadecimal digits spell; `None` when a byte is
/// not a hexadecimal digit. A trailing odd byte is ignored.
pub open spec fn hex_pairs(b: Seq<u8>) -> Option<Seq<u8>>
    decreases b.len(),
{
    if b.len() < 2 {
        Some(Seq::empty())
    } else {
        match (hex_pairs(b.subrange(0, b.len() - 2)), hex_value(b[b.len() - 2]), hex_value(
            b[b.len() - 1],
        )) {
            (Some(init), Some(hi), Some(lo)) => Some(init.push((hi * 16 + lo) as u8)),
            _ => None,
        }
    }
}

/// Why a cursor token is refused, if it is.
pub open spec fn hex_token_fault(b: Seq<u8>) -> Option<Seq<char>> {
    if b.len() > 2 * MAX_CURSOR_BYTES {
        Some("token too long"@)
    } else if b.len() % 2 != 0 || hex_pairs(b) is None {
        Some("malformed token"@)
    } else {
        None
    }
}

fn hex_value_of(b: u8) -> (r: Option<u8>)
    ensures
        r == hex_value(b),
{
    if 48 <= b && b <= 57 {
        Some(b - 48)
    } else if 97 <= b && b <= 102 {
        Some(b - 87)
    } else if 65 <= b && b <= 70 {
        Some(b - 55)
    } else {
        None
    }
}

/// Decodes a hexadecimal cursor token; an over-long, odd-length or
/// non-hexadecimal token is refused with the reason.
pub fn hex_decode(token: &str) -> (r: Result<Vec<u8>, WcError>)
    ensures
        match hex_token_fault(token.spec_bytes()) {
            Some(reason) => r matches Err(WcError::InvalidCursor { reason: got }) && got@ == reason,
            None => r matches Ok(v) && hex_pairs(token.spec_bytes()) == Some(v@),
        },
{
    let bytes = token.as_bytes();
    if bytes.len() > MAX_CURSOR_BYTES * 2 {
        return Err(WcError::InvalidCursor { reason: "token too long" });
    }
    if bytes.len() % 2 != 0 {
        return Err(WcError::InvalidCursor { reason: "malformed token" });
    }
    let ghost b = bytes@;
    let mut out: Vec<u8> = Vec::new();
    let mut i: usize = 0;
    while i < bytes.len()
        invariant
            b == bytes@,
            b == token.spec_bytes(),
            b.len() % 2 == 0,
            b.len() <= 2 * MAX_CURSOR_BYTES,
            i <= b.len(),
            i % 2 == 0,
            hex_pairs(b.subrange(0, i as int)) == Some(out@),
        decreases b.len() - i,
    {
        let ghost next = b.subrange(0, i + 2);
        assert(next.subrange(0, next.len() - 2) == b.subrange(0, i as int));
        assert(next[next.len() - 2] == b[i as int]);
        assert(next[next.len() - 1] == b[i + 1]);
        let high = hex_value_of(bytes[i]);
        let low = hex_value_of(bytes[i + 1]);
        match (high, low) {
            (Some(h), Some(l)) => {
                out.push(h * 16 + l);
                i = i + 2;
            },
            _ => {
                proof {
                    lemma_hex_pairs_prefix_none(b, i as int + 2);
                }
                return Err(WcError::InvalidCursor { reason: "malformed token" });
            },
        }
    }
    assert(b.subrange(0, b.len() as int) == b);
    Ok(out)
}

/// A bad pair in a prefix makes the whole token bad.
proof fn lemma_hex_pairs_prefix_none(b: Seq<u8>, k: int)
    requires
        2 <= k <= b.len(),
        k % 2 == 0,
        b.len() % 2 == 0,
        hex_pairs(b.subrange(0, k)) is None,
    ensures
        hex_pairs(b) is None,
    decreases b.len() - k,
{
    if k < b.len() {
        let next = b.subrange(0, k + 2);
        assert(next.subrange(0, next.len() - 2) == b.subrange(0, k));
        lemma_hex_pairs_prefix_none(b, k + 2);
    } else {
        assert(b.subrange(0, k) == b);
    }
}

/// Hexadecimal text holds only ASCII characters.
proof fn lemma_hex_text_ascii(bytes: Seq<u8>)
    ensures
        hex_text(bytes).len() == 2 * bytes.len(),
        vstd::utf8::is_ascii_chars(hex_text(bytes)),
        forall|i: int| 0 <= i < bytes.len() ==> {
            &&& #[trigger] hex_text(bytes)[2 * i] == hex_digit((bytes[i] / 16) as int)
            &&& hex_text(bytes)[2 * i + 1] == hex_digit((bytes[i] % 16) as int)
        },
    decreases bytes.len(),
{
    if bytes.len() > 0 {
        lemma_hex_text_ascii(bytes.drop_last());
        let t = hex_text(bytes);
        let ti = hex_text(bytes.drop_last());
        assert forall|i: int| 0 <= i < t.len() implies '\0' <= #[trigger] t[i] <= '\u{7f}' by {
            if i < ti.len() {
                assert(t[i] == ti[i]);
            }
        }
        assert forall|i: int| 0 <= i < bytes.len() implies {
            &&& #[trigger] hex_text(bytes)[2 * i] == hex_digit((bytes[i] / 16) as int)
            &&& hex_text(bytes)[2 * i + 1] == hex_digit((bytes[i] % 16) as int)
        } by {
            if i < bytes.len() - 1 {
                assert(bytes.drop_last()[i] == bytes[i]);
                assert(ti[2 * i] == hex_digit((bytes[i] / 16) as int));
            }
        }
    }
}

proof fn lemma_hex_digit_value(d: int)
    requires
        0 <= d < 16,
    ensures
        hex_value(hex_digit(d) as u8) == Some(d as u8),
{
}

/// Decoding the encoding of at most `MAX_CURSOR_BYTES` bytes gives the bytes
/// back.
pub proof fn lemma_hex_roundtrip(bytes: Seq<u8>)
    requires
        bytes.len() <= MAX_CURSOR_BYTES,
    ensures
        hex_token_fault(vstd::utf8::encode_utf8(hex_text(bytes))) is None,
        hex_pairs(vstd::utf8::encode_utf8(hex_text(bytes))) == Some(bytes),
{
    let t = hex_text(bytes);
    lemma_hex_text_ascii(bytes);
    vstd::utf8::is_ascii_chars_encode_utf8(t);
    let e = vstd::utf8::encode_utf8(t);
    lemma_hex_pairs_digits(bytes, e);
}

proof fn lemma_hex_pairs_digits(bytes: Seq<u8>, e: Seq<u8>)
    requires
        e.len() == 2 * bytes.len(),
        forall|i: int| 0 <= i < bytes.len() ==> {
            &&& #[trigger] e[2 * i] == hex_digit((bytes[i] / 16) as int) as u8
            &&& e[2 * i + 1] == hex_digit((bytes[i] % 16) as int) as u8
        },
    ensures
        hex_pairs(e) == Some(bytes),
    decreases bytes.len(),
{
    if bytes.len() > 0 {
        let n = bytes.len() - 1;
        let ei = e.subrange(0, e.len() - 2);
        assert forall|i: int| 0 <= i < bytes.drop_last().len() implies {
            &&& #[trigger] ei[2 * i] == hex_digit((bytes.drop_last()[i] / 16) as int) as u8
            &&& ei[2 * i + 1] == hex_digit((bytes.drop_last()[i] % 16) as int) as u8
        } by {
            assert(e[2 * i] == hex_digit((bytes[i] / 16) as int) as u8);
        }
        lemma_hex_pairs_digits(bytes.drop_last(), ei);
        assert(e[2 * n] == hex_digit((bytes[n] / 16) as int) as u8);
        lemma_hex_digit_value((bytes[n] / 16) as int);
        lemma_hex_digit_value((bytes[n] % 16) as int);
        assert(bytes.drop_last().push(bytes[n]) == bytes);
    }
}

// ── Page statements and results ──────────────────────────────────────────

/// The columns of a browser item.
pub open spec fn item_select_text() -> Seq<char> {
    "SELECT w.path, w.type, w.ext, w.backend, w.size, w.mtime, w.resolution,\n            w.project_type, w.preview_path, w.workshop_id, w.title, w.we_file,\n            w.unsupported_reason, w.id,\n            EXISTS (SELECT 1 FROM favorites item_favorite WHERE item_favorite.path = w.path),\n            w.author, w.added_at\n     FROM wallpapers w"@
}

pub fn browser_item_select() -> (r: &'static str)
    ensures
        r@ == item_select_text(),
{
    "SELECT w.path, w.type, w.ext, w.backend, w.size, w.mtime, w.resolution,\n            w.project_type, w.preview_path, w.workshop_id, w.title, w.we_file,\n            w.unsupported_reason, w.id,\n            EXISTS (SELECT 1 FROM favorites item_favorite WHERE item_favorite.path = w.path),\n            w.author, w.added_at\n     FROM wallpapers w"
}

/// The count statement of a predicate.
pub fn browser_count_sql(predicate: &BrowserPredicate) -> (r: String)
    ensures
        r@ == "SELECT COUNT(*) FROM wallpapers w "@ + predicate.where_sql@,
{
    let mut s = String::new();
    append_str(&mut s, "SELECT COUNT(*) FROM wallpapers w ");
    append_str(&mut s, predicate.where_sql.as_str());
    s
}

/// A copy of bound parameters.
pub fn copy_params(v: &Vec<SqlValue>) -> (r: Vec<SqlValue>)
    ensures
        r@.len() == v@.len(),
        param_views(r@) == param_views(v@),
{
    let mut out: Vec<SqlValue> = Vec::new();
    let mut i: usize = 0;
    while i < v.len()
        invariant
            i <= v@.len(),
            out@.len() == i,
            param_views(out@) == param_views(v@.take(i as int)),
        decreases v@.len() - i,
    {
        let item = match &v[i] {
            SqlValue::Integer(n) => SqlValue::Integer(*n),
            SqlValue::Text(t) => SqlValue::Text(clone_string(t)),
        };
        proof {
            lemma_param_views_push(out@, item);
            assert(v@.take(i + 1) == v@.take(i as int).push(v@[i as int]));
            lemma_param_views_push(v@.take(i as int), v@[i as int]);
        }
        out.push(item);
        i = i + 1;
    }
    assert(v@.take(v@.len() as int) == v@);
    out
}

/// The largest page the browser returns.
pub const MAX_BROWSER_PAGE_SIZE: usize = 500;

/// The number of items a page may hold: the requested limit, at most 500.
pub fn browser_page_limit(limit: usize) -> (r: usize)
    ensures
        r == if limit < MAX_BROWSER_PAGE_SIZE {
            limit
        } else {
            MAX_BROWSER_PAGE_SIZE
        },
{
    if limit < MAX_BROWSER_PAGE_SIZE {
        limit
    } else {
        MAX_BROWSER_PAGE_SIZE
    }
}

/// The page statement: items in the sort order, one more than the page
/// holds so that a following page can be detected. Binds the predicate's
/// parameters and then the row limit.
pub fn browser_page_statement(
    predicate: &BrowserPredicate,
    sort: LibraryBrowserSort,
    page_limit: usize,
) -> (r: (String, Vec<SqlValue>))
    requires
        page_limit <= MAX_BROWSER_PAGE_SIZE,
    ensures
        param_views(r.1@) == param_views(predicate.params@).push(
            ParamView::Integer((page_limit + 1) as i64),
        ),
        r.0@ == item_select_text() + "\n         "@ + predicate.where_sql@ + "\n         ORDER BY "@
            + browser_order_text(sort) + "\n         LIMIT "@ + placeholder(
            predicate.params@.len() + 1,
        ),
{
    let mut params = copy_params(&predicate.params);
    let limit_value = SqlValue::Integer((page_limit + 1) as i64);
    proof {
        lemma_param_views_push(params@, limit_value);
    }
    let limit = push_browser_param(&mut params, limit_value);
    let mut sql = String::new();
    append_str(&mut sql, browser_item_select());
    append_str(&mut sql, "\n         ");
    append_str(&mut sql, predicate.where_sql.as_str());
    append_str(&mut sql, "\n         ORDER BY ");
    append_str(&mut sql, browser_order_by(sort));
    append_str(&mut sql, "\n         LIMIT ");
    append_str(&mut sql, limit.as_str());
    (sql, params)
}

/// Accepts a decoded cursor only in the current format version.
pub fn check_cursor_version(cursor: BrowserCursorV1) -> (r: Result<BrowserCursorV1, WcError>)
    ensures
        cursor.version == BROWSER_CURSOR_VERSION ==> (r matches Ok(c) && c == cursor),
        cursor.version != BROWSER_CURSOR_VERSION ==> (r matches Err(WcError::InvalidCursor { reason })
            && reason@ == "unsupported version"@),
{
    if cursor.version != BROWSER_CURSOR_VERSION {
        Err(WcError::InvalidCursor { reason: "unsupported version" })
    } else {
        Ok(cursor)
    }
}

/// A cursor continues a listing only at the revision and for the query it
/// was issued for; otherwise the listing changed under it.
pub fn check_cursor_position(cursor: &BrowserCursorV1, revision: u64, fingerprint: &str) -> (r:
    Result<(), WcError>)
    ensures
        (cursor.revision == revision && cursor.fingerprint@ == fingerprint@) ==> r is Ok,
        !(cursor.revision == revision && cursor.fingerprint@ == fingerprint@) ==> r
            == Err::<(), WcError>(
            WcError::RevisionChanged { expected: cursor.revision, observed: revision },
        ),
{
    if cursor.revision != revision || !crate::text::str_eq(cursor.fingerprint.as_str(), fingerprint) {
        Err(WcError::RevisionChanged { expected: cursor.revision, observed: revision })
    } else {
        Ok(())
    }
}

/// The exact total when there is no database yet: revision 0 and no rows,
/// unless the caller expected another revision.
pub fn exact_total_without_database(expected_revision: u64) -> (r: Result<
    LibraryBrowserTotal,
    WcError,
>)
    ensures
        expected_revision == 0 ==> (r matches Ok(t) && t.revision == 0 && t.total == 0),
        expected_revision != 0 ==> r == Err::<LibraryBrowserTotal, WcError>(
            WcError::RevisionChanged { expected: expected_revision, observed: 0 },
        ),
{
    if expected_revision != 0 {
        Err(WcError::RevisionChanged { expected: expected_revision, observed: 0 })
    } else {
        Ok(LibraryBrowserTotal { revision: 0, total: 0 })
    }
}

/// A stored count as a total: negative counts read as zero.
pub fn count_to_total(count: i64) -> (r: usize)
    requires
        count <= usize::MAX,
    ensures
        r as int == if count < 0 {
            0
        } else {
            count as int
        },
{
    if count < 0 {
        0
    } else {
        count as usize
    }
}

/// Cuts the rows read for a page (one more than it holds, when there are
/// more) to the page, and tells whether a following page exists.
pub fn split_browser_page(items: Vec<LibraryBrowserItem>, page_limit: usize) -> (r: (
    Vec<LibraryBrowserItem>,
    bool,
))
    ensures
        r.1 == (items@.len() > page_limit),
        r.0@ == if items@.len() > page_limit {
            items@.take(page_limit as int)
        } else {
            items@
        },
{
    let mut items = items;
    let has_more = items.len() > page_limit;
    if has_more {
        items.truncate(page_limit);
    }
    (items, has_more)
}

/// The cursor of the page after `items`: present only when more rows
/// follow, and then made from the last item of a non-empty page.
pub fn next_browser_cursor(
    sort: LibraryBrowserSort,
    revision: u64,
    fingerprint: &str,
    items: &Vec<LibraryBrowserItem>,
    has_more: bool,
) -> (r: Option<BrowserCursorV1>)
    ensures
        !has_more || items@.len() == 0 ==> r is None,
        has_more && items@.len() > 0 ==> (r matches Some(c) && c.version == BROWSER_CURSOR_VERSION
            && c.revision == revision && c.fingerprint@ == fingerprint@ && boundary_matches_item(
            c.boundary,
            sort,
            items@.last(),
        )),
{
    if has_more && items.len() > 0 {
        let last = &items[items.len() - 1];
        Some(
            BrowserCursorV1 {
                version: BROWSER_CURSOR_VERSION,
                revision,
                fingerprint: fingerprint.to_owned(),
                boundary: cursor_boundary_for_item(sort, last),
            },
        )
    } else {
        None
    }
}

/// The random-pick statement: the item at a bound offset among the matches
/// in id order. Binds the predicate's parameters and then the offset.
pub fn browser_random_statement(predicate: &BrowserPredicate, offset: i64) -> (r: (
    String,
    Vec<SqlValue>,
))
    ensures
        param_views(r.1@) == param_views(predicate.params@).push(ParamView::Integer(offset)),
        r.0@ == item_select_text() + "\n         "@ + predicate.where_sql@
            + "\n         ORDER BY w.id\n         LIMIT 1 OFFSET "@ + placeholder(
            predicate.params@.len() + 1,
        ),
{
    let mut params = copy_params(&predicate.params);
    let value = SqlValue::Integer(offset);
    proof {
        lemma_param_views_push(params@, value);
    }
    let p = push_browser_param(&mut params, value);
    let mut sql = String::new();
    append_str(&mut sql, browser_item_select());
    append_str(&mut sql, "\n         ");
    append_str(&mut sql, predicate.where_sql.as_str());
    append_str(&mut sql, "\n         ORDER BY w.id\n         LIMIT 1 OFFSET ");
    append_str(&mut sql, p.as_str());
    (sql, params)
}

/// A listing fingerprint depends only on the normalized criteria: queries
/// that differ in cursor, limit or the spacing of their search words share
/// it.
pub proof fn lemma_fingerprint_ignores_paging(a: LibraryBrowserQuery, b: LibraryBrowserQuery)
    requires
        a.source_id == b.source_id,
        a.type_filter == b.type_filter,
        a.favorites_only == b.favorites_only,
        words(a.search@) == words(b.search@),
        a.sort == b.sort,
    ensures
        query_fingerprint(a) == query_fingerprint(b),
{
}

// ── Reading page rows ────────────────────────────────────────────────────

/// A page row as an item: its wallpaper columns, id, favorite flag, author
/// (absent when empty) and added time; sources are attached afterwards.
pub fn browser_item_from_row(
    row: StoredWallpaperRow,
    wallpaper_id: i64,
    favorite: bool,
    author: String,
    added_at: String,
) -> (r: LibraryBrowserItem)
    ensures
        r.wallpaper_id == wallpaper_id,
        r.favorite == favorite,
        opt_view(r.author) == non_empty_view(author@),
        r.added_at@ == added_at@,
        r.sources@.len() == 0,
        r.entry.path@ == row.path@,
        r.entry.file_type == stored_file_type(row.file_type@),
        r.entry.ext@ == row.ext@,
        r.entry.backend == stored_backend(row.backend@),
        r.entry.size == clamp_unsigned(row.size),
        r.entry.mtime == clamp_unsigned(row.mtime),
        r.entry.resolution@ == row.resolution@,
        project_matches(r.entry.project, row, stored_backend(row.backend@)),
{
    let entry = wallpaper_entry_from_row(row);
    LibraryBrowserItem {
        wallpaper_id,
        entry,
        favorite,
        author: non_empty(author),
        added_at,
        sources: Vec::new(),
    }
}

/// `?1, ?2, …, ?n`.
pub open spec fn placeholder_list(n: nat) -> Seq<char>
    decreases n,
{
    if n == 0 {
        Seq::empty()
    } else if n == 1 {
        placeholder(1)
    } else {
        placeholder_list((n - 1) as nat) + ", "@ + placeholder(n)
    }
}

/// The statement that reads the sources of `n` wallpapers, bound to their
/// ids in order.
pub open spec fn hydration_sql_text(n: nat) -> Seq<char> {
    "SELECT membership.wallpaper_id, source.id, source.display_name\n         FROM wallpaper_sources membership\n         JOIN sources source ON source.id = membership.source_id\n         WHERE membership.wallpaper_id IN ("@
        + placeholder_list(n)
        + ")\n         ORDER BY membership.wallpaper_id ASC, source.id ASC"@
}

pub fn hydration_sql(n: usize) -> (r: String)
    ensures
        r@ == hydration_sql_text(n as nat),
{
    let mut list = String::new();
    let mut i: usize = 0;
    while i < n
        invariant
            i <= n,
            list@ == placeholder_list(i as nat),
        decreases n - i,
    {
        i = i + 1;
        if i > 1 {
            append_str(&mut list, ", ");
        }
        push_char(&mut list, '?');
        let digits = u64_to_decimal(i as u64);
        append_str(&mut list, digits.as_str());
        assert(list@ == placeholder_list(i as nat));
    }
    let mut sql = String::new();
    append_str(
        &mut sql,
        "SELECT membership.wallpaper_id, source.id, source.display_name\n         FROM wallpaper_sources membership\n         JOIN sources source ON source.id = membership.source_id\n         WHERE membership.wallpaper_id IN (",
    );
    append_str(&mut sql, list.as_str());
    append_str(&mut sql, ")\n         ORDER BY membership.wallpaper_id ASC, source.id ASC");
    sql
}

/// The sources listed for wallpaper `id`, in row order.
pub open spec fn sources_for(rows: Seq<(i64, i64, Seq<char>)>, id: i64) -> Seq<(i64, Seq<char>)>
    decreases rows.len(),
{
    if rows.len() == 0 {
        Seq::empty()
    } else if rows.last().0 == id {
        sources_for(rows.drop_last(), id).push((rows.last().1, rows.last().2))
    } else {
        sources_for(rows.drop_last(), id)
    }
}

pub open spec fn source_row_views(rows: Seq<(i64, i64, String)>) -> Seq<(i64, i64, Seq<char>)>
    decreases rows.len(),
{
    if rows.len() == 0 {
        Seq::empty()
    } else {
        source_row_views(rows.drop_last()).push(
            (rows.last().0, rows.last().1, rows.last().2@),
        )
    }
}

pub open spec fn source_views(v: Seq<LibraryBrowserSource>) -> Seq<(i64, Seq<char>)>
    decreases v.len(),
{
    if v.len() == 0 {
        Seq::empty()
    } else {
        source_views(v.drop_last()).push((v.last().id, v.last().display_name@))
    }
}

/// Whether no earlier item has the id of item `i`.
pub open spec fn first_with_id(ids: Seq<i64>, i: int) -> bool {
    forall|k: int| 0 <= k < i ==> ids[k] != ids[i]
}

proof fn lemma_source_row_views_index(rows: Seq<(i64, i64, String)>, k: int)
    requires
        0 <= k < rows.len(),
    ensures
        source_row_views(rows).len() == rows.len(),
        source_row_views(rows)[k] == (rows[k].0, rows[k].1, rows[k].2@),
    decreases rows.len(),
{
    if k < rows.len() - 1 {
        lemma_source_row_views_index(rows.drop_last(), k);
    } else {
        lemma_source_row_views_len(rows.drop_last());
    }
}

proof fn lemma_source_row_views_len(rows: Seq<(i64, i64, String)>)
    ensures
        source_row_views(rows).len() == rows.len(),
    decreases rows.len(),
{
    if rows.len() > 0 {
        lemma_source_row_views_len(rows.drop_last());
    }
}

proof fn lemma_source_row_views_take(rows: Seq<(i64, i64, String)>, j: int)
    requires
        0 <= j < rows.len(),
    ensures
        source_row_views(rows.take(j + 1)) == source_row_views(rows.take(j)).push(
            (rows[j].0, rows[j].1, rows[j].2@),
        ),
{
    assert(rows.take(j + 1).drop_last() == rows.take(j));
}

/// The sources of every item: item `i` gets the sources of its id, in row
/// order, unless an earlier item had the same id, which took them.
pub fn group_sources_by_item(ids: &Vec<i64>, rows: &Vec<(i64, i64, String)>) -> (r: Vec<
    Vec<LibraryBrowserSource>,
>)
    ensures
        r@.len() == ids@.len(),
        forall|i: int|
            0 <= i < ids@.len() ==> source_views((#[trigger] r@[i])@) == if first_with_id(ids@, i) {
                sources_for(source_row_views(rows@), ids@[i])
            } else {
                Seq::empty()
            },
{
    let ghost rv = source_row_views(rows@);
    let mut out: Vec<Vec<LibraryBrowserSource>> = Vec::new();
    let mut i: usize = 0;
    while i < ids.len()
        invariant
            i <= ids@.len(),
            out@.len() == i,
            rv == source_row_views(rows@),
            forall|k: int|
                0 <= k < i ==> source_views((#[trigger] out@[k])@) == if first_with_id(ids@, k) {
                    sources_for(rv, ids@[k])
                } else {
                    Seq::empty()
                },
        decreases ids@.len() - i,
    {
        let id = ids[i];
        let mut seen = false;
        let mut k: usize = 0;
        while k < i
            invariant
                k <= i < ids@.len(),
                id == ids@[i as int],
                seen <==> exists|q: int| 0 <= q < k && ids@[q] == id,
            decreases i - k,
        {
            if ids[k] == id {
                seen = true;
            }
            k = k + 1;
        }
        let mut list: Vec<LibraryBrowserSource> = Vec::new();
        if !seen {
            let mut j: usize = 0;
            while j < rows.len()
                invariant
                    j <= rows@.len(),
                    rv == source_row_views(rows@),
                    source_views(list@) == sources_for(source_row_views(rows@.take(j as int)), id),
                decreases rows@.len() - j,
            {
                proof {
                    lemma_source_row_views_take(rows@, j as int);
                }
                let ghost before = list@;
                let ghost sv = source_row_views(rows@.take(j as int));
                let ghost x = (rows@[j as int].0, rows@[j as int].1, rows@[j as int].2@);
                assert(sv.push(x).drop_last() == sv);
                assert(sv.push(x).last() == x);
                if rows[j].0 == id {
                    let name = rows[j].2.clone();
                    list.push(LibraryBrowserSource { id: rows[j].1, display_name: name });
                    assert(list@.drop_last() == before);
                    assert(source_views(list@) == source_views(before).push((x.1, x.2)));
                }
                j = j + 1;
            }
            assert(rows@.take(rows@.len() as int) == rows@);
        }
        let ghost before_out = out@;
        out.push(list);
        proof {
            assert forall|q: int|
                0 <= q <= i implies source_views((#[trigger] out@[q])@) == if first_with_id(ids@, q) {
                    sources_for(rv, ids@[q])
                } else {
                    Seq::empty()
                } by {
                if q < i {
                    assert(out@[q] == before_out[q]);
                } else {
                    if seen {
                        let w = choose|w: int| 0 <= w < i && ids@[w] == id;
                        assert(!first_with_id(ids@, q));
                    }
                }
            }
        }
        i = i + 1;
    }
    out
}

} // verus!
