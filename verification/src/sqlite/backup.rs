//! Verification, repair, backup and restore of the database: how findings
//! become an outcome, what the flat-file export writes, and the checks that
//! decide whether a database may be published.

use vstd::prelude::*;

use crate::error::{is_other_error, other_error, WcError};
use crate::flat::{
    dedupe_by_keys, dedupe_file, first_by_key, first_occurrences, lemma_dedupe_idempotent,
    lemma_first_by_own_key, lemma_first_occurrences_multiset,
};
use crate::order::{is_sorted, lemma_sorted_seq_props, lemma_sorted_unique, sort_strings, sorted_seq};
use crate::sqlite::library_fts::quotes_doubled;
use crate::sqlite::schema::CURRENT_SCHEMA_VERSION;
use crate::text::{
    append_str, decimal, i64_to_decimal, join, join_strings, push_char, signed_decimal, str_eq,
    u64_to_decimal, views,
};

verus! {

// ── Verification outcome ─────────────────────────────────────────────────

/// Result of database verification.
#[derive(Debug, Clone, PartialEq, Eq)]
pub enum VerifyResult {
    /// All categories match.
    AllMatch,
    /// Data integrity is fine, but flat-file compatibility copies have drifted.
    OkWithWarnings(Vec<String>),
    /// Real data mismatch detected.
    Failed(Vec<String>),
}

/// The outcome of a comparison: any error fails it whatever the warnings; with no
/// error, warnings make it pass with warnings; otherwise it passes.
pub fn verify_result(errors: Vec<String>, warnings: Vec<String>) -> (r: VerifyResult)
    ensures
        errors@.len() > 0 ==> (r matches VerifyResult::Failed(e) && views(e@) == views(errors@)),
        errors@.len() == 0 && warnings@.len() > 0 ==> (r matches VerifyResult::OkWithWarnings(w)
            && views(w@) == views(warnings@)),
        errors@.len() == 0 && warnings@.len() == 0 ==> r == VerifyResult::AllMatch,
{
    if errors.len() > 0 {
        VerifyResult::Failed(errors)
    } else if warnings.len() > 0 {
        VerifyResult::OkWithWarnings(warnings)
    } else {
        VerifyResult::AllMatch
    }
}

/// The structural errors of a database: its schema objects, SQLite's
/// integrity check and foreign keys, in that order.
pub open spec fn structural_error_texts(
    schema_error: Option<Seq<char>>,
    integrity_error: Option<Seq<char>>,
    foreign_key_orphans: bool,
) -> Seq<Seq<char>> {
    let a = match schema_error {
        Some(m) => seq!["schema: "@ + m],
        None => Seq::empty(),
    };
    let b = match integrity_error {
        Some(m) => a.push("integrity: "@ + m),
        None => a,
    };
    if foreign_key_orphans {
        b.push("foreign_keys"@)
    } else {
        b
    }
}

fn prefixed(prefix: &str, m: &str) -> (r: String)
    ensures
        r@ == prefix@ + m@,
{
    let mut s = String::new();
    append_str(&mut s, prefix);
    append_str(&mut s, m);
    s
}

/// Structural errors found before any flat-file comparison; when there are
/// any, verification fails with them.
pub fn structural_errors(
    schema_error: Option<String>,
    integrity_error: Option<String>,
    foreign_key_orphans: bool,
) -> (r: Vec<String>)
    ensures
        views(r@) == structural_error_texts(
            match schema_error {
                Some(m) => Some(m@),
                None => None,
            },
            match integrity_error {
                Some(m) => Some(m@),
                None => None,
            },
            foreign_key_orphans,
        ),
{
    let mut out: Vec<String> = Vec::new();
    if let Some(m) = &schema_error {
        out.push(prefixed("schema: ", m.as_str()));
    }
    let ghost a = views(out@);
    if let Some(m) = &integrity_error {
        out.push(prefixed("integrity: ", m.as_str()));
        assert(views(out@) == a.push("integrity: "@ + m@));
    }
    let ghost b = views(out@);
    if foreign_key_orphans {
        out.push("foreign_keys".to_owned());
        assert(views(out@) == b.push("foreign_keys"@));
    }
    proof {
        assert(views(out@) =~= structural_error_texts(
            match schema_error {
                Some(m) => Some(m@),
                None => None,
            },
            match integrity_error {
                Some(m) => Some(m@),
                None => None,
            },
            foreign_key_orphans,
        ));
    }
    out
}

/// The value a key maps to in a list of pairs, the last pair winning.
pub open spec fn assoc_get(pairs: Seq<(Seq<char>, Seq<char>)>, k: Seq<char>) -> Option<Seq<char>>
    decreases pairs.len(),
{
    if pairs.len() == 0 {
        None
    } else if pairs.last().0 == k {
        Some(pairs.last().1)
    } else {
        assoc_get(pairs.drop_last(), k)
    }
}

pub open spec fn pair_views(v: Seq<(String, String)>) -> Seq<(Seq<char>, Seq<char>)> {
    v.map_values(|p: (String, String)| (p.0@, p.1@))
}

/// Two lists of pairs describe the same map.
pub open spec fn same_map(a: Seq<(Seq<char>, Seq<char>)>, b: Seq<(Seq<char>, Seq<char>)>) -> bool {
    forall|k: Seq<char>| #[trigger] assoc_get(a, k) == assoc_get(b, k)
}

proof fn lemma_assoc_get_key(pairs: Seq<(Seq<char>, Seq<char>)>, k: Seq<char>)
    ensures
        assoc_get(pairs, k) is Some <==> exists|i: int| 0 <= i < pairs.len() && (#[trigger] pairs[i]).0 == k,
    decreases pairs.len(),
{
    if pairs.len() > 0 {
        lemma_assoc_get_key(pairs.drop_last(), k);
        if exists|i: int| 0 <= i < pairs.drop_last().len() && (#[trigger] pairs.drop_last()[i]).0 == k {
            let i = choose|i: int| 0 <= i < pairs.drop_last().len() && (#[trigger] pairs.drop_last()[i]).0 == k;
            assert(pairs[i].0 == k);
        }
        if exists|i: int| 0 <= i < pairs.len() && (#[trigger] pairs[i]).0 == k {
            let i = choose|i: int| 0 <= i < pairs.len() && (#[trigger] pairs[i]).0 == k;
            if i < pairs.len() - 1 {
                assert(pairs.drop_last()[i].0 == k);
            }
        }
    }
}

fn assoc_lookup(pairs: &Vec<(String, String)>, key: &str) -> (r: Option<String>)
    ensures
        match r {
            Some(v) => assoc_get(pair_views(pairs@), key@) == Some(v@),
            None => assoc_get(pair_views(pairs@), key@) is None,
        },
{
    let ghost pv = pair_views(pairs@);
    let mut i: usize = pairs.len();
    assert(pv.take(i as int) == pv);
    while i > 0
        invariant
            i <= pairs@.len(),
            pv == pair_views(pairs@),
            assoc_get(pv, key@) == assoc_get(pv.take(i as int), key@),
        decreases i,
    {
        let ghost t = pv.take(i as int);
        assert(t.last() == pv[i - 1]);
        assert(t.drop_last() == pv.take(i - 1));
        if str_eq(pairs[i - 1].0.as_str(), key) {
            return Some(pairs[i - 1].1.clone());
        }
        i = i - 1;
    }
    None
}

/// Whether two lists of `(key, value)` pairs describe the same map, each
/// list read with its last pair for a key winning.
pub fn config_maps_equal(a: &Vec<(String, String)>, b: &Vec<(String, String)>) -> (r: bool)
    ensures
        r == same_map(pair_views(a@), pair_views(b@)),
{
    let ghost av = pair_views(a@);
    let ghost bv = pair_views(b@);
    let mut i: usize = 0;
    while i < a.len()
        invariant
            i <= a@.len(),
            av == pair_views(a@),
            bv == pair_views(b@),
            forall|j: int| 0 <= j < i ==> assoc_get(av, #[trigger] av[j].0) == assoc_get(bv, av[j].0),
        decreases a@.len() - i,
    {
        let key = a[i].0.as_str();
        let x = assoc_lookup(a, key);
        let y = assoc_lookup(b, key);
        let same = match (&x, &y) {
            (Some(p), Some(q)) => str_eq(p.as_str(), q.as_str()),
            (None, None) => true,
            _ => false,
        };
        if !same {
            proof {
                assert(av[i as int].0 == key@);
                assert(assoc_get(av, key@) != assoc_get(bv, key@));
            }
            return false;
        }
        i = i + 1;
    }
    let mut i: usize = 0;
    while i < b.len()
        invariant
            i <= b@.len(),
            av == pair_views(a@),
            bv == pair_views(b@),
            forall|j: int| 0 <= j < a@.len() ==> assoc_get(av, #[trigger] av[j].0) == assoc_get(bv, av[j].0),
            forall|j: int| 0 <= j < i ==> assoc_get(av, #[trigger] bv[j].0) == assoc_get(bv, bv[j].0),
        decreases b@.len() - i,
    {
        let key = b[i].0.as_str();
        let x = assoc_lookup(a, key);
        let y = assoc_lookup(b, key);
        let same = match (&x, &y) {
            (Some(p), Some(q)) => str_eq(p.as_str(), q.as_str()),
            (None, None) => true,
            _ => false,
        };
        if !same {
            proof {
                assert(bv[i as int].0 == key@);
                assert(assoc_get(av, key@) != assoc_get(bv, key@));
            }
            return false;
        }
        i = i + 1;
    }
    proof {
        assert forall|k: Seq<char>| #[trigger] assoc_get(av, k) == assoc_get(bv, k) by {
            lemma_assoc_get_key(av, k);
            lemma_assoc_get_key(bv, k);
            if exists|j: int| 0 <= j < av.len() && (#[trigger] av[j]).0 == k {
                let j = choose|j: int| 0 <= j < av.len() && (#[trigger] av[j]).0 == k;
                assert(assoc_get(av, av[j].0) == assoc_get(bv, av[j].0));
            } else if exists|j: int| 0 <= j < bv.len() && (#[trigger] bv[j]).0 == k {
                let j = choose|j: int| 0 <= j < bv.len() && (#[trigger] bv[j]).0 == k;
                assert(assoc_get(av, bv[j].0) == assoc_get(bv, bv[j].0));
            }
        }
    }
    true
}

/// Paths reduced to their canonical forms (`canonical[i]` is that of the
/// `i`th path), each form once, in text order; symlink-equivalent lists
/// then compare equal.
pub fn canonical_unique_sorted(canonical: &Vec<String>) -> (r: Vec<String>)
    ensures
        views(r@) == sorted_seq(first_occurrences(views(canonical@))),
{
    let unique = dedupe_file(canonical);
    sort_strings(unique)
}

/// Whether two lists of strings are equal element by element.
pub fn string_lists_equal(a: &Vec<String>, b: &Vec<String>) -> (r: bool)
    ensures
        r == (views(a@) == views(b@)),
{
    if a.len() != b.len() {
        assert(views(a@).len() != views(b@).len());
        return false;
    }
    let mut i: usize = 0;
    while i < a.len()
        invariant
            i <= a@.len() == b@.len(),
            forall|k: int| 0 <= k < i ==> (#[trigger] a@[k])@ == b@[k]@,
        decreases a@.len() - i,
    {
        if !str_eq(a[i].as_str(), b[i].as_str()) {
            assert(views(a@)[i as int] != views(b@)[i as int]);
            return false;
        }
        i = i + 1;
    }
    assert(views(a@) =~= views(b@));
    true
}

pub open spec fn or_empty(v: Option<Seq<char>>) -> Seq<char> {
    match v {
        Some(s) => s,
        None => Seq::empty(),
    }
}

pub open spec fn option_view(v: Option<String>) -> Option<Seq<char>> {
    match v {
        Some(s) => Some(s@),
        None => None,
    }
}

/// The flat-file compatibility copies compared with the database. Each
/// drift is a warning: the config map; the sorted source and favorite
/// lists; history as sorted unique canonical paths; the current wallpaper
/// and last backend, a missing flat file reading as empty.
pub open spec fn compat_warning_texts(
    config_same: bool,
    flat_sources: Seq<Seq<char>>,
    db_sources: Seq<Seq<char>>,
    flat_favorites: Seq<Seq<char>>,
    db_favorites: Seq<Seq<char>>,
    flat_history: Seq<Seq<char>>,
    db_history: Seq<Seq<char>>,
    flat_current: Option<Seq<char>>,
    db_current: Seq<char>,
    flat_backend: Option<Seq<char>>,
    db_backend: Seq<char>,
) -> Seq<Seq<char>> {
    let w0: Seq<Seq<char>> = if config_same {
        Seq::empty()
    } else {
        seq!["config"@]
    };
    let w1 = if sorted_seq(flat_sources) == db_sources {
        w0
    } else {
        w0.push("sources"@)
    };
    let w2 = if sorted_seq(flat_favorites) == db_favorites {
        w1
    } else {
        w1.push("favorites (legacy flat compat)"@)
    };
    let w3 = if sorted_seq(first_occurrences(flat_history)) == sorted_seq(
        first_occurrences(db_history),
    ) {
        w2
    } else {
        w2.push("history (legacy flat compat)"@)
    };
    let w4 = if or_empty(flat_current) == db_current {
        w3
    } else {
        w3.push("current (legacy flat compat)"@)
    };
    if or_empty(flat_backend) == db_backend {
        w4
    } else {
        w4.push("last_backend (legacy flat compat)"@)
    }
}

/// Sorting forgets the order it was given: two lists with the same elements
/// and multiplicities sort alike, and a list that is already sorted sorts to
/// itself.
proof fn lemma_sort_order_free(a: Seq<Seq<char>>, b: Seq<Seq<char>>)
    requires
        a.to_multiset() == b.to_multiset(),
    ensures
        sorted_seq(a) == sorted_seq(b),
        is_sorted(b) ==> sorted_seq(a) == b,
{
    lemma_sorted_seq_props(a);
    lemma_sorted_seq_props(b);
    lemma_sorted_unique(sorted_seq(a), sorted_seq(b));
    if is_sorted(b) {
        lemma_sorted_unique(sorted_seq(a), b);
    }
}

/// The compatibility warnings do not depend on the order of the flat source
/// and favorite lists: lists holding the same paths, as often each, give
/// the same warnings.
pub proof fn lemma_compat_warnings_order_free(
    config_same: bool,
    flat_sources: Seq<Seq<char>>,
    flat_sources2: Seq<Seq<char>>,
    db_sources: Seq<Seq<char>>,
    flat_favorites: Seq<Seq<char>>,
    flat_favorites2: Seq<Seq<char>>,
    db_favorites: Seq<Seq<char>>,
    flat_history: Seq<Seq<char>>,
    db_history: Seq<Seq<char>>,
    flat_current: Option<Seq<char>>,
    db_current: Seq<char>,
    flat_backend: Option<Seq<char>>,
    db_backend: Seq<char>,
)
    requires
        flat_sources.to_multiset() == flat_sources2.to_multiset(),
        flat_favorites.to_multiset() == flat_favorites2.to_multiset(),
    ensures
        compat_warning_texts(config_same, flat_sources, db_sources, flat_favorites, db_favorites,
            flat_history, db_history, flat_current, db_current, flat_backend, db_backend)
            == compat_warning_texts(config_same, flat_sources2, db_sources, flat_favorites2,
            db_favorites, flat_history, db_history, flat_current, db_current, flat_backend,
            db_backend),
{
    lemma_sort_order_free(flat_sources, flat_sources2);
    lemma_sort_order_free(flat_favorites, flat_favorites2);
}

/// Flat favorites that hold exactly the database's favorites (listed in
/// path order, as the database reads them), in any order, raise no
/// favorites warning; likewise for the sources.
pub proof fn lemma_matching_lists_no_warning(
    config_same: bool,
    flat_sources: Seq<Seq<char>>,
    db_sources: Seq<Seq<char>>,
    flat_favorites: Seq<Seq<char>>,
    db_favorites: Seq<Seq<char>>,
    flat_history: Seq<Seq<char>>,
    db_history: Seq<Seq<char>>,
    flat_current: Option<Seq<char>>,
    db_current: Seq<char>,
    flat_backend: Option<Seq<char>>,
    db_backend: Seq<char>,
)
    requires
        is_sorted(db_favorites),
        flat_favorites.to_multiset() == db_favorites.to_multiset(),
    ensures
        !compat_warning_texts(config_same, flat_sources, db_sources, flat_favorites, db_favorites,
            flat_history, db_history, flat_current, db_current, flat_backend, db_backend).contains(
            "favorites (legacy flat compat)"@,
        ),
        is_sorted(db_sources) && flat_sources.to_multiset() == db_sources.to_multiset()
            ==> !compat_warning_texts(config_same, flat_sources, db_sources, flat_favorites,
            db_favorites, flat_history, db_history, flat_current, db_current, flat_backend,
            db_backend).contains("sources"@),
{
    reveal_strlit("favorites (legacy flat compat)");
    reveal_strlit("sources");
    reveal_strlit("config");
    reveal_strlit("history (legacy flat compat)");
    reveal_strlit("current (legacy flat compat)");
    reveal_strlit("last_backend (legacy flat compat)");
    lemma_sort_order_free(flat_favorites, db_favorites);
    if is_sorted(db_sources) && flat_sources.to_multiset() == db_sources.to_multiset() {
        lemma_sort_order_free(flat_sources, db_sources);
    }
    let f = "favorites (legacy flat compat)"@;
    let src = "sources"@;
    assert(f != "config"@ && f != src && f != "history (legacy flat compat)"@
        && f != "current (legacy flat compat)"@ && f != "last_backend (legacy flat compat)"@) by {
        assert(f[0] != "config"@[0] && f[0] != src[0] && f[0] != "history (legacy flat compat)"@[0]
            && f[0] != "current (legacy flat compat)"@[0] && f[0] != "last_backend (legacy flat compat)"@[0]);
    }
    assert(src != "config"@ && src != "history (legacy flat compat)"@
        && src != "current (legacy flat compat)"@ && src != "last_backend (legacy flat compat)"@) by {
        assert(src[0] != "config"@[0] && src[0] != "history (legacy flat compat)"@[0]
            && src[0] != "current (legacy flat compat)"@[0] && src[0] != "last_backend (legacy flat compat)"@[0]);
    }
    let w = compat_warning_texts(config_same, flat_sources, db_sources, flat_favorites, db_favorites,
        flat_history, db_history, flat_current, db_current, flat_backend, db_backend);
    assert forall|i: int| 0 <= i < w.len() implies w[i] != f by {}
    if is_sorted(db_sources) && flat_sources.to_multiset() == db_sources.to_multiset() {
        assert forall|i: int| 0 <= i < w.len() implies w[i] != src by {}
    }
}

fn or_empty_string(v: Option<String>) -> (r: String)
    ensures
        r@ == or_empty(option_view(v)),
{
    match v {
        Some(s) => s,
        None => String::new(),
    }
}

/// Warnings for drifted flat-file compatibility copies. History lists hold
/// canonical paths.
pub fn compat_warnings(
    config_same: bool,
    flat_sources: Vec<String>,
    db_sources: &Vec<String>,
    flat_favorites: Vec<String>,
    db_favorites: &Vec<String>,
    flat_history: &Vec<String>,
    db_history: &Vec<String>,
    flat_current: Option<String>,
    db_current: &str,
    flat_backend: Option<String>,
    db_backend: &str,
) -> (r: Vec<String>)
    ensures
        views(r@) == compat_warning_texts(
            config_same,
            views(flat_sources@),
            views(db_sources@),
            views(flat_favorites@),
            views(db_favorites@),
            views(flat_history@),
            views(db_history@),
            option_view(flat_current),
            db_current@,
            option_view(flat_backend),
            db_backend@,
        ),
{
    let ghost fc = option_view(flat_current);
    let ghost fb = option_view(flat_backend);
    let ghost fs = views(flat_sources@);
    let ghost ff = views(flat_favorites@);
    let mut w: Vec<String> = Vec::new();
    if !config_same {
        w.push("config".to_owned());
    }
    let ghost w0 = views(w@);
    let sources = sort_strings(flat_sources);
    if !string_lists_equal(&sources, db_sources) {
        w.push("sources".to_owned());
    }
    let ghost w1 = views(w@);
    assert(w1 == if sorted_seq(fs) == views(db_sources@) {
        w0
    } else {
        w0.push("sources"@)
    });
    let favorites = sort_strings(flat_favorites);
    if !string_lists_equal(&favorites, db_favorites) {
        w.push("favorites (legacy flat compat)".to_owned());
    }
    let ghost w2 = views(w@);
    assert(w2 == if sorted_seq(ff) == views(db_favorites@) {
        w1
    } else {
        w1.push("favorites (legacy flat compat)"@)
    });
    let fh = canonical_unique_sorted(flat_history);
    let dh = canonical_unique_sorted(db_history);
    if !string_lists_equal(&fh, &dh) {
        w.push("history (legacy flat compat)".to_owned());
    }
    let ghost w3 = views(w@);
    let current = or_empty_string(flat_current);
    if !str_eq(current.as_str(), db_current) {
        w.push("current (legacy flat compat)".to_owned());
    }
    let ghost w4 = views(w@);
    assert(w4 == if or_empty(fc) == db_current@ {
        w3
    } else {
        w3.push("current (legacy flat compat)"@)
    });
    let backend = or_empty_string(flat_backend);
    if !str_eq(backend.as_str(), db_backend) {
        w.push("last_backend (legacy flat compat)".to_owned());
    }
    assert(views(w@) == if or_empty(fb) == db_backend@ {
        w4
    } else {
        w4.push("last_backend (legacy flat compat)"@)
    });
    w
}

/// The search-index error: the index must hold one row per wallpaper and
/// pass its own integrity check.
pub fn search_index_errors(wallpaper_count: i64, fts_count: i64, fts_integrity_ok: bool) -> (r:
    Vec<String>)
    ensures
        (wallpaper_count == fts_count && fts_integrity_ok) ==> r@.len() == 0,
        !(wallpaper_count == fts_count && fts_integrity_ok) ==> views(r@) == seq![
            "wallpapers_fts"@,
        ],
{
    let mut out: Vec<String> = Vec::new();
    if wallpaper_count != fts_count || !fts_integrity_ok {
        out.push("wallpapers_fts".to_owned());
        assert(views(out@) =~= seq!["wallpapers_fts"@]);
    }
    out
}

// ── Repair, backup and restore checks ────────────────────────────────────

/// An SQL identifier in double quotes, its own double quotes doubled.
pub fn quote_identifier(value: &str) -> (r: String)
    ensures
        r@ == seq!['"'] + quotes_doubled(value@) + seq!['"'],
{
    let mut out = String::new();
    push_char(&mut out, '"');
    for c in it: value.chars()
        invariant
            it.seq() == value@,
            out@ == seq!['"'] + quotes_doubled(value@.take(it.index() as int)),
    {
        let ghost i = it.index();
        assert(value@.take(i + 1).drop_last() == value@.take(i as int));
        assert(value@.take(i + 1).last() == c);
        if c == '"' {
            push_char(&mut out, '"');
            push_char(&mut out, '"');
        } else {
            push_char(&mut out, c);
        }
        assert(out@ =~= seq!['"'] + quotes_doubled(value@.take(i + 1)));
    }
    assert(value@.take(value@.len() as int) == value@);
    push_char(&mut out, '"');
    out
}

/// The path of a database's sidecar file: its path with `suffix` appended.
pub fn database_sidecar(path: &str, suffix: &str) -> (r: String)
    ensures
        r@ == path@ + suffix@,
{
    let mut s = path.to_owned();
    append_str(&mut s, suffix);
    s
}

/// The suffixes of the files SQLite keeps beside a database.
pub fn database_sidecar_suffixes() -> (r: Vec<&'static str>)
    ensures
        r@.len() == 3,
        r@[0]@ == "-wal"@,
        r@[1]@ == "-shm"@,
        r@[2]@ == "-journal"@,
{
    let mut v: Vec<&'static str> = Vec::new();
    v.push("-wal");
    v.push("-shm");
    v.push("-journal");
    v
}

/// SQLite's integrity check passes only when it reports exactly `ok`;
/// otherwise the reported problems are quoted.
pub fn integrity_outcome(context: &str, results: &Vec<String>) -> (r: Result<(), WcError>)
    ensures
        views(results@) == seq!["ok"@] ==> r is Ok,
        views(results@) != seq!["ok"@] ==> is_other_error(
            r,
            context@ + ": integrity_check failed: "@ + join(views(results@), ", "@),
        ),
{
    if results.len() == 1 && str_eq(results[0].as_str(), "ok") {
        assert(views(results@) =~= seq!["ok"@]);
        return Ok(());
    }
    proof {
        assert(views(results@).len() == results@.len());
        if results@.len() == 1 {
            assert(views(results@)[0] == results@[0]@);
        }
    }
    let mut m = String::new();
    append_str(&mut m, context);
    append_str(&mut m, ": integrity_check failed: ");
    let joined = join_strings(results, ", ");
    append_str(&mut m, joined.as_str());
    Err(WcError::Other(m))
}

/// A database written by a newer build is refused; otherwise its version is
/// returned.
pub fn reject_future_schema_version(version: i64) -> (r: Result<i64, WcError>)
    ensures
        version <= CURRENT_SCHEMA_VERSION ==> r == Ok::<i64, WcError>(version),
        version > CURRENT_SCHEMA_VERSION ==> (r matches Err(WcError::Sqlite(m)) && m@
            == "database schema version "@ + signed_decimal(version as int)
            + " is newer than supported version 6"@),
{
    if version > CURRENT_SCHEMA_VERSION {
        let mut m = String::new();
        append_str(&mut m, "database schema version ");
        let digits = i64_to_decimal(version);
        append_str(&mut m, digits.as_str());
        append_str(&mut m, " is newer than supported version 6");
        return Err(WcError::Sqlite(m));
    }
    Ok(version)
}

/// A WAL checkpoint that left frames busy cannot be relied on.
pub fn checkpoint_outcome(context: &str, busy: i64) -> (r: Result<(), WcError>)
    ensures
        busy == 0 ==> r is Ok,
        busy != 0 ==> is_other_error(r, context@ + ": WAL checkpoint remained busy"@),
{
    if busy != 0 {
        let mut m = context.to_owned();
        append_str(&mut m, ": WAL checkpoint remained busy");
        return Err(WcError::Other(m));
    }
    Ok(())
}

/// The current database must have the current schema version.
pub fn expect_current_version(context: &str, version: i64) -> (r: Result<(), WcError>)
    ensures
        version == CURRENT_SCHEMA_VERSION ==> r is Ok,
        version != CURRENT_SCHEMA_VERSION ==> is_other_error(
            r,
            context@ + ": expected schema version 6, found "@ + signed_decimal(version as int),
        ),
{
    if version != CURRENT_SCHEMA_VERSION {
        let mut m = context.to_owned();
        append_str(&mut m, ": expected schema version 6, found ");
        let digits = i64_to_decimal(version);
        append_str(&mut m, digits.as_str());
        return Err(WcError::Other(m));
    }
    Ok(())
}

/// A table the database must hold.
pub fn expect_table(context: &str, table: &str, exists: bool) -> (r: Result<(), WcError>)
    ensures
        exists ==> r is Ok,
        !exists ==> is_other_error(r, context@ + ": required table "@ + table@ + " is missing"@),
{
    if !exists {
        let mut m = context.to_owned();
        append_str(&mut m, ": required table ");
        append_str(&mut m, table);
        append_str(&mut m, " is missing");
        return Err(WcError::Other(m));
    }
    Ok(())
}

/// A table verification requires; its absence is a database error.
pub fn expect_verified_table(table: &str, exists: bool) -> (r: Result<(), WcError>)
    ensures
        exists ==> r is Ok,
        !exists ==> (r matches Err(WcError::Sqlite(m)) && m@ == "required table "@ + table@
            + " is missing"@),
{
    if !exists {
        let mut m = String::new();
        append_str(&mut m, "required table ");
        append_str(&mut m, table);
        append_str(&mut m, " is missing");
        return Err(WcError::Sqlite(m));
    }
    Ok(())
}

/// Foreign-key orphans make a candidate unpublishable.
pub fn expect_no_foreign_key_orphans(context: &str, orphans: bool) -> (r: Result<(), WcError>)
    ensures
        !orphans ==> r is Ok,
        orphans ==> is_other_error(r, context@ + ": foreign_key_check failed"@),
{
    if orphans {
        let mut m = context.to_owned();
        append_str(&mut m, ": foreign_key_check failed");
        return Err(WcError::Other(m));
    }
    Ok(())
}

/// The wallpaper search index must hold one row per wallpaper and pass its
/// own integrity check.
pub fn expect_search_index(context: &str, wallpaper_count: i64, fts_count: i64, fts_integrity_ok: bool)
    -> (r: Result<(), WcError>)
    ensures
        (wallpaper_count == fts_count && fts_integrity_ok) ==> r is Ok,
        !(wallpaper_count == fts_count && fts_integrity_ok) ==> is_other_error(
            r,
            context@ + ": wallpapers FTS integrity check failed"@,
        ),
{
    if wallpaper_count != fts_count || !fts_integrity_ok {
        let mut m = context.to_owned();
        append_str(&mut m, ": wallpapers FTS integrity check failed");
        return Err(WcError::Other(m));
    }
    Ok(())
}

/// The `db_meta` schema marker must name the current version.
pub fn expect_schema_marker(context: &str, marker: &str) -> (r: Result<(), WcError>)
    ensures
        marker@ == "6"@ ==> r is Ok,
        marker@ != "6"@ ==> is_other_error(
            r,
            context@ + ": schema marker is "@ + marker@ + ", expected 6"@,
        ),
{
    if !str_eq(marker, "6") {
        let mut m = context.to_owned();
        append_str(&mut m, ": schema marker is ");
        append_str(&mut m, marker);
        append_str(&mut m, ", expected 6");
        return Err(WcError::Other(m));
    }
    Ok(())
}

/// Repair and export need a database to work on.
pub fn database_not_initialized() -> (e: WcError)
    ensures
        e matches WcError::Other(m) && m@ == "wallpapers.db not found; initialize SQLite storage first."@,
{
    other_error("wallpapers.db not found; initialize SQLite storage first.")
}

/// Verification without a database is a database error.
pub fn verify_without_database() -> (e: WcError)
    ensures
        e matches WcError::Sqlite(m) && m@ == "wallpapers.db not found; initialize SQLite storage first."@,
{
    WcError::Sqlite("wallpapers.db not found; initialize SQLite storage first.".to_owned())
}

/// A backup needs a database to copy.
pub fn backup_without_database() -> (e: WcError)
    ensures
        e matches WcError::Other(m) && m@ == "wallpapers.db not found."@,
{
    other_error("wallpapers.db not found.")
}

/// A restore needs its backup file.
pub fn backup_file_not_found(backup_path: &str) -> (e: WcError)
    ensures
        e matches WcError::Other(m) && m@ == "backup file not found: "@ + backup_path@,
{
    crate::error::other_error_with("backup file not found: ", backup_path)
}

/// A restore source SQLite cannot open is refused with SQLite's reason.
pub fn invalid_restore_source(reason: &str) -> (e: WcError)
    ensures
        e matches WcError::Other(m) && m@ == "not a valid SQLite database: "@ + reason@,
{
    crate::error::other_error_with("not a valid SQLite database: ", reason)
}

/// Whether a restore or repair source older than the current schema must be
/// migrated first.
pub fn source_needs_migration(source_version: i64) -> (r: bool)
    ensures
        r == (source_version < CURRENT_SCHEMA_VERSION),
{
    source_version < CURRENT_SCHEMA_VERSION
}

/// The tables a restore source must hold.
pub fn restore_required_tables() -> (r: Vec<&'static str>)
    ensures
        r@.len() == 7,
        r@[0]@ == "db_meta"@,
        r@[1]@ == "config"@,
        r@[2]@ == "sources"@,
        r@[3]@ == "wallpapers"@,
        r@[4]@ == "favorites"@,
        r@[5]@ == "history"@,
        r@[6]@ == "state"@,
{
    let mut v: Vec<&'static str> = Vec::new();
    v.push("db_meta");
    v.push("config");
    v.push("sources");
    v.push("wallpapers");
    v.push("favorites");
    v.push("history");
    v.push("state");
    v
}

/// The columns a repair copies: the target's columns, in the target's
/// order, that the source table also has.
pub open spec fn common_columns_spec(target: Seq<Seq<char>>, source: Seq<Seq<char>>) -> Seq<Seq<char>>
    decreases target.len(),
{
    if target.len() == 0 {
        Seq::empty()
    } else if source.contains(target.last()) {
        common_columns_spec(target.drop_last(), source).push(target.last())
    } else {
        common_columns_spec(target.drop_last(), source)
    }
}

pub fn common_columns(target: &Vec<String>, source: &Vec<String>) -> (r: Vec<String>)
    ensures
        views(r@) == common_columns_spec(views(target@), views(source@)),
{
    let ghost tv = views(target@);
    let mut out: Vec<String> = Vec::new();
    let mut i: usize = 0;
    while i < target.len()
        invariant
            i <= target@.len(),
            tv == views(target@),
            views(out@) == common_columns_spec(tv.take(i as int), views(source@)),
        decreases target@.len() - i,
    {
        assert(tv.take(i + 1).drop_last() == tv.take(i as int));
        assert(tv.take(i + 1).last() == target@[i as int]@);
        if crate::flat::contains_line(source, target[i].as_str()) {
            let ghost before = views(out@);
            out.push(target[i].clone());
            assert(views(out@) == before.push(target@[i as int]@));
        }
        i = i + 1;
    }
    assert(tv.take(target@.len() as int) == tv);
    out
}

pub open spec fn quoted_ident(s: Seq<char>) -> Seq<char> {
    seq!['"'] + quotes_doubled(s) + seq!['"']
}

/// Each column name quoted.
pub open spec fn quoted_all(cols: Seq<Seq<char>>) -> Seq<Seq<char>>
    decreases cols.len(),
{
    if cols.len() == 0 {
        Seq::empty()
    } else {
        quoted_all(cols.drop_last()).push(quoted_ident(cols.last()))
    }
}

pub open spec fn quoted_list(cols: Seq<Seq<char>>) -> Seq<char> {
    join(quoted_all(cols), ", "@)
}

/// The statement that copies the common columns of a persistent table from
/// an attached source database; `db_meta` keeps its own version markers.
pub open spec fn copy_table_sql_text(source_schema: Seq<char>, table: Seq<char>, cols: Seq<Seq<char>>) -> Seq<char> {
    let filter = if table == "db_meta"@ {
        " WHERE key NOT IN\n          ('schema_version', 'fts_schema_version', 'fts_rebuilt_at')"@
    } else {
        Seq::empty()
    };
    "INSERT INTO main."@ + quoted_ident(table) + " ("@ + quoted_list(cols) + ")\n         SELECT "@
        + quoted_list(cols) + " FROM "@ + quoted_ident(source_schema) + "."@ + quoted_ident(table)
        + filter
}

/// The copy statement of a persistent table; a table with no column in
/// common cannot be repaired.
pub fn copy_table_sql(source_schema: &str, table: &str, common: &Vec<String>) -> (r: Result<
    String,
    WcError,
>)
    ensures
        common@.len() == 0 ==> is_other_error(
            r,
            "repair: no compatible columns for persistent table "@ + table@,
        ),
        common@.len() > 0 ==> (r matches Ok(sql) && sql@ == copy_table_sql_text(
            source_schema@,
            table@,
            views(common@),
        )),
{
    if common.len() == 0 {
        let mut m = String::new();
        append_str(&mut m, "repair: no compatible columns for persistent table ");
        append_str(&mut m, table);
        return Err(WcError::Other(m));
    }
    let ghost cv = views(common@);
    let mut quoted: Vec<String> = Vec::new();
    let mut i: usize = 0;
    while i < common.len()
        invariant
            i <= common@.len(),
            cv == views(common@),
            views(quoted@) == quoted_all(cv.take(i as int)),
        decreases common@.len() - i,
    {
        assert(cv.take(i + 1).drop_last() == cv.take(i as int));
        assert(cv.take(i + 1).last() == common@[i as int]@);
        let ghost before = views(quoted@);
        quoted.push(quote_identifier(common[i].as_str()));
        assert(views(quoted@) == before.push(quoted_ident(common@[i as int]@)));
        i = i + 1;
    }
    assert(cv.take(common@.len() as int) == cv);
    let columns = join_strings(&quoted, ", ");
    let mut sql = String::new();
    append_str(&mut sql, "INSERT INTO main.");
    let t = quote_identifier(table);
    append_str(&mut sql, t.as_str());
    append_str(&mut sql, " (");
    append_str(&mut sql, columns.as_str());
    append_str(&mut sql, ")\n         SELECT ");
    append_str(&mut sql, columns.as_str());
    append_str(&mut sql, " FROM ");
    let sch = quote_identifier(source_schema);
    append_str(&mut sql, sch.as_str());
    append_str(&mut sql, ".");
    append_str(&mut sql, t.as_str());
    if str_eq(table, "db_meta") {
        append_str(&mut sql, " WHERE key NOT IN\n          ('schema_version', 'fts_schema_version', 'fts_rebuilt_at')");
    }
    Ok(sql)
}

// ── Flat-file export ─────────────────────────────────────────────────────

/// The config file text: one `key=value` line per row.
pub open spec fn config_text(rows: Seq<(Seq<char>, Seq<char>)>) -> Seq<char>
    decreases rows.len(),
{
    if rows.len() == 0 {
        Seq::empty()
    } else {
        config_text(rows.drop_last()) + rows.last().0 + seq!['='] + rows.last().1 + seq!['\n']
    }
}

pub fn export_config_text(rows: &Vec<(String, String)>) -> (r: String)
    ensures
        r@ == config_text(pair_views(rows@)),
{
    let ghost pv = pair_views(rows@);
    let mut out = String::new();
    let mut i: usize = 0;
    while i < rows.len()
        invariant
            i <= rows@.len(),
            pv == pair_views(rows@),
            out@ == config_text(pv.take(i as int)),
        decreases rows@.len() - i,
    {
        assert(pv.take(i + 1).drop_last() == pv.take(i as int));
        assert(pv.take(i + 1).last() == (rows@[i as int].0@, rows@[i as int].1@));
        append_str(&mut out, rows[i].0.as_str());
        push_char(&mut out, '=');
        append_str(&mut out, rows[i].1.as_str());
        push_char(&mut out, '\n');
        i = i + 1;
    }
    assert(pv.take(rows@.len() as int) == pv);
    out
}

/// A list file's text: the lines joined by line feeds, then a final line
/// feed (so an empty list is a single line feed).
pub open spec fn list_text(lines: Seq<Seq<char>>) -> Seq<char> {
    join(lines, seq!['\n']).push('\n')
}

pub fn export_list_text(rows: &Vec<String>) -> (r: String)
    ensures
        r@ == list_text(views(rows@)),
{
    let mut sep = String::new();
    push_char(&mut sep, '\n');
    let mut out = join_strings(rows, sep.as_str());
    push_char(&mut out, '\n');
    out
}

/// The exported history: newest first, each canonical path once (its first
/// and newest entry kept); `canonical[i]` is the canonical form of `rows[i]`.
pub fn export_history_text(rows: &Vec<String>, canonical: &Vec<String>) -> (r: String)
    requires
        canonical@.len() == rows@.len(),
    ensures
        r@ == list_text(first_by_key(views(rows@), views(canonical@))),
{
    let kept = dedupe_by_keys(rows, canonical);
    export_list_text(&kept)
}

/// A state file's text: the value and a line feed, or nothing when unset.
pub fn export_state_text(value: Option<String>) -> (r: String)
    ensures
        match value {
            Some(v) => r@ == v@.push('\n'),
            None => r@.len() == 0,
        },
{
    match value {
        Some(v) => {
            let mut s = v;
            push_char(&mut s, '\n');
            s
        },
        None => String::new(),
    }
}

/// The flat files an export writes, in order.
pub fn exported_flat_files() -> (r: Vec<&'static str>)
    ensures
        r@.len() == 6,
        r@[0]@ == "config"@,
        r@[1]@ == "sources"@,
        r@[2]@ == "favorites"@,
        r@[3]@ == "history"@,
        r@[4]@ == "current"@,
        r@[5]@ == "last_backend"@,
{
    let mut v: Vec<&'static str> = Vec::new();
    v.push("config");
    v.push("sources");
    v.push("favorites");
    v.push("history");
    v.push("current");
    v.push("last_backend");
    v
}

/// The names of an export's backup directory and staging directory for a
/// compact timestamp.
pub fn export_directory_names(timestamp: &str) -> (r: (String, String))
    ensures
        r.0@ == "export-"@ + timestamp@,
        r.1@ == "export-tmp-"@ + timestamp@,
{
    let mut a = String::new();
    append_str(&mut a, "export-");
    append_str(&mut a, timestamp);
    let mut b = String::new();
    append_str(&mut b, "export-tmp-");
    append_str(&mut b, timestamp);
    (a, b)
}

/// Exporting the history and verifying again reports no history drift.
/// `canonical` holds the canonical paths of the database's history rows in
/// export order (newest first) and `db_canonical` the same rows' canonical
/// paths in the order the comparison reads them. The export keeps the first
/// row of each canonical path, so the file read back deduplicates to
/// `first_by_key(exported, exported)`; the comparison deduplicates and
/// sorts both sides, and they agree.
pub proof fn lemma_exported_history_passes_verify(
    canonical: Seq<Seq<char>>,
    db_canonical: Seq<Seq<char>>,
)
    requires
        forall|x: Seq<char>| canonical.contains(x) <==> db_canonical.contains(x),
    ensures
        ({
            let exported = first_by_key(canonical, canonical);
            sorted_seq(first_occurrences(first_by_key(exported, exported))) == sorted_seq(
                first_occurrences(db_canonical),
            )
        }),
{
    let exported = first_by_key(canonical, canonical);
    lemma_first_by_own_key(canonical);
    lemma_first_by_own_key(exported);
    lemma_dedupe_idempotent(canonical);
    let lhs = first_occurrences(first_by_key(exported, exported));
    assert(lhs == first_occurrences(canonical));
    lemma_first_occurrences_multiset(canonical, db_canonical);
    let rhs = first_occurrences(db_canonical);
    lemma_sorted_seq_props(lhs);
    lemma_sorted_seq_props(rhs);
    lemma_sorted_unique(sorted_seq(lhs), sorted_seq(rhs));
}

// ── Names of maintenance files ───────────────────────────────────────────

/// A database file's name, or `wallpapers.db` when it has none.
pub open spec fn database_file_name(file_name: Option<Seq<char>>) -> Seq<char> {
    match file_name {
        Some(n) => n,
        None => "wallpapers.db"@,
    }
}

/// The hidden sibling a maintenance step works in:
/// `.{file}.{label}-{pid}-{counter}`.
pub fn sibling_file_name(file_name: Option<&str>, label: &str, pid: u32, counter: u64) -> (r:
    String)
    ensures
        r@ == "."@ + database_file_name(
            match file_name {
                Some(n) => Some(n@),
                None => None,
            },
        ) + "."@ + label@ + "-"@ + decimal(pid as nat) + "-"@ + decimal(counter as nat),
{
    let mut s = String::new();
    append_str(&mut s, ".");
    match file_name {
        Some(n) => append_str(&mut s, n),
        None => append_str(&mut s, "wallpapers.db"),
    }
    append_str(&mut s, ".");
    append_str(&mut s, label);
    append_str(&mut s, "-");
    append_str(&mut s, u64_to_decimal(pid as u64).as_str());
    append_str(&mut s, "-");
    append_str(&mut s, u64_to_decimal(counter).as_str());
    s
}

/// The extension of a visible safety copy of the database:
/// `db.{label}.{timestamp}-{pid}-{counter}`.
pub fn visible_backup_extension(label: &str, timestamp: &str, pid: u32, counter: u64) -> (r:
    String)
    ensures
        r@ == "db."@ + label@ + "."@ + timestamp@ + "-"@ + decimal(pid as nat) + "-"@ + decimal(
            counter as nat,
        ),
{
    let mut s = String::new();
    append_str(&mut s, "db.");
    append_str(&mut s, label);
    append_str(&mut s, ".");
    append_str(&mut s, timestamp);
    append_str(&mut s, "-");
    append_str(&mut s, u64_to_decimal(pid as u64).as_str());
    append_str(&mut s, "-");
    append_str(&mut s, u64_to_decimal(counter).as_str());
    s
}

} // verus!
