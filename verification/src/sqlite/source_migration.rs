//! Migration of sources and wallpapers from the first schema: merging rows
//! whose paths name the same place, the settings of a migrated source, and
//! the memberships of wallpapers in the sources that contain them.

use vstd::prelude::*;

use crate::flat::first_occurrences;
use crate::order::sorted_seq;
use crate::sqlite::backup::canonical_unique_sorted;
use crate::paths::{file_name, file_name_of, path_starts_with, starts_with_components};
use crate::text::{blank, is_blank, str_eq, views};

verus! {

// ── Source settings ──────────────────────────────────────────────────────

/// The display name a source gets by default: `Wallpaper Engine` for the
/// workshop, otherwise the last component of its path unless that is blank,
/// otherwise the path itself.
pub open spec fn default_source_name_text(path: Seq<char>, kind: Seq<char>) -> Seq<char> {
    if kind == "wallpaper_engine_workshop"@ {
        "Wallpaper Engine"@
    } else {
        match file_name(path) {
            Some(name) => if !blank(name) {
                name
            } else {
                path
            },
            None => path,
        }
    }
}

pub fn default_source_name(path: &str, kind: &str) -> (r: String)
    ensures
        r@ == default_source_name_text(path@, kind@),
{
    if str_eq(kind, "wallpaper_engine_workshop") {
        return "Wallpaper Engine".to_owned();
    }
    match file_name_of(path) {
        Some(name) => if !is_blank(name.as_str()) {
            name
        } else {
            path.to_owned()
        },
        None => path.to_owned(),
    }
}

/// The kind, display name and recursion flag of a migrated source, from its
/// canonical path and whether that path is a Wallpaper Engine workshop.
pub fn migrated_source_settings(canonical_path: &str, is_workshop: bool) -> (r: (
    &'static str,
    String,
    i64,
))
    ensures
        r.0@ == if is_workshop {
            "wallpaper_engine_workshop"@
        } else {
            "directory"@
        },
        r.1@ == default_source_name_text(canonical_path@, r.0@),
        r.2 == if is_workshop {
            0i64
        } else {
            1i64
        },
{
    let kind: &'static str = if is_workshop {
        "wallpaper_engine_workshop"
    } else {
        "directory"
    };
    let name = default_source_name(canonical_path, kind);
    (kind, name, if is_workshop {
        0
    } else {
        1
    })
}

// ── Containment memberships ──────────────────────────────────────────────

/// The memberships of one wallpaper: every source whose path is a
/// component-wise prefix of the wallpaper's canonical path, in source order.
pub open spec fn memberships_of(
    wallpaper_id: i64,
    canonical: Seq<char>,
    last_seen: Seq<char>,
    sources: Seq<(i64, Seq<char>)>,
) -> Seq<(i64, i64, Seq<char>)>
    decreases sources.len(),
{
    if sources.len() == 0 {
        Seq::empty()
    } else {
        let rest = memberships_of(wallpaper_id, canonical, last_seen, sources.drop_last());
        if starts_with_components(canonical, sources.last().1) {
            rest.push((wallpaper_id, sources.last().0, last_seen))
        } else {
            rest
        }
    }
}

/// The memberships of every wallpaper, wallpapers in order.
pub open spec fn containment_memberships_text(
    wallpapers: Seq<(i64, Seq<char>, Seq<char>)>,
    sources: Seq<(i64, Seq<char>)>,
) -> Seq<(i64, i64, Seq<char>)>
    decreases wallpapers.len(),
{
    if wallpapers.len() == 0 {
        Seq::empty()
    } else {
        let w = wallpapers.last();
        containment_memberships_text(wallpapers.drop_last(), sources) + memberships_of(
            w.0,
            w.1,
            w.2,
            sources,
        )
    }
}

pub open spec fn wallpaper_views(v: Seq<(i64, String, String)>) -> Seq<(i64, Seq<char>, Seq<char>)> {
    v.map_values(|w: (i64, String, String)| (w.0, w.1@, w.2@))
}

pub open spec fn source_views(v: Seq<(i64, String)>) -> Seq<(i64, Seq<char>)> {
    v.map_values(|s: (i64, String)| (s.0, s.1@))
}

pub open spec fn membership_views(v: Seq<(i64, i64, String)>) -> Seq<(i64, i64, Seq<char>)> {
    v.map_values(|m: (i64, i64, String)| (m.0, m.1, m.2@))
}

proof fn lemma_membership_views_push(v: Seq<(i64, i64, String)>, x: (i64, i64, String))
    ensures
        membership_views(v.push(x)) == membership_views(v).push((x.0, x.1, x.2@)),
{
    assert(membership_views(v.push(x)) =~= membership_views(v).push((x.0, x.1, x.2@)));
}

/// The `(wallpaper, source, last seen)` memberships implied by containment:
/// `wallpapers` holds each wallpaper's id, canonical path and last-seen
/// time.
pub fn containment_memberships(
    wallpapers: &Vec<(i64, String, String)>,
    sources: &Vec<(i64, String)>,
) -> (r: Vec<(i64, i64, String)>)
    ensures
        membership_views(r@) == containment_memberships_text(
            wallpaper_views(wallpapers@),
            source_views(sources@),
        ),
{
    let ghost wv = wallpaper_views(wallpapers@);
    let ghost sv = source_views(sources@);
    let mut out: Vec<(i64, i64, String)> = Vec::new();
    let mut i: usize = 0;
    while i < wallpapers.len()
        invariant
            i <= wallpapers@.len(),
            wv == wallpaper_views(wallpapers@),
            sv == source_views(sources@),
            membership_views(out@) == containment_memberships_text(wv.take(i as int), sv),
        decreases wallpapers@.len() - i,
    {
        let (wallpaper_id, canonical, last_seen) = &wallpapers[i];
        assert(wv.take(i + 1).drop_last() == wv.take(i as int));
        assert(wv.take(i + 1).last() == (*wallpaper_id, canonical@, last_seen@));
        let ghost base = membership_views(out@);
        let mut j: usize = 0;
        while j < sources.len()
            invariant
                j <= sources@.len(),
                sv == source_views(sources@),
                membership_views(out@) == base + memberships_of(
                    *wallpaper_id,
                    canonical@,
                    last_seen@,
                    sv.take(j as int),
                ),
            decreases sources@.len() - j,
        {
            let (source_id, source_path) = &sources[j];
            assert(sv.take(j + 1).drop_last() == sv.take(j as int));
            assert(sv.take(j + 1).last() == (*source_id, source_path@));
            if path_starts_with(canonical.as_str(), source_path.as_str()) {
                let m = (*wallpaper_id, *source_id, last_seen.clone());
                proof {
                    lemma_membership_views_push(out@, m);
                }
                out.push(m);
            }
            j = j + 1;
        }
        assert(sv.take(sources@.len() as int) == sv);
        i = i + 1;
    }
    assert(wv.take(wallpapers@.len() as int) == wv);
    out
}

// ── Alias groups ─────────────────────────────────────────────────────────

/// `x` placed before the first row with a larger id.
pub open spec fn insert_by_id(s: Seq<(i64, Seq<char>)>, x: (i64, Seq<char>)) -> Seq<(i64, Seq<char>)>
    decreases s.len(),
{
    if s.len() == 0 {
        seq![x]
    } else if x.0 < s[0].0 {
        seq![x] + s
    } else {
        seq![s[0]] + insert_by_id(s.drop_first(), x)
    }
}

/// Rows in id order; rows with equal ids keep their order.
pub open spec fn sorted_by_id(s: Seq<(i64, Seq<char>)>) -> Seq<(i64, Seq<char>)>
    decreases s.len(),
{
    if s.len() == 0 {
        Seq::empty()
    } else {
        insert_by_id(sorted_by_id(s.drop_last()), s.last())
    }
}

/// The rows whose canonical path is `key`, in order.
pub open spec fn members_of(rows: Seq<(i64, Seq<char>)>, canonical: Seq<Seq<char>>, key: Seq<char>) -> Seq<(i64, Seq<char>)>
    decreases rows.len(),
{
    if rows.len() == 0 || canonical.len() != rows.len() {
        Seq::empty()
    } else if canonical.last() == key {
        members_of(rows.drop_last(), canonical.drop_last(), key).push(rows.last())
    } else {
        members_of(rows.drop_last(), canonical.drop_last(), key)
    }
}

/// Rows that name the same place, merged into the first of them: the
/// canonical path and the rows in id order (the first survives).
#[derive(Debug, Clone)]
pub struct AliasGroup {
    pub canonical: String,
    pub rows: Vec<(i64, String)>,
}

pub open spec fn row_views(v: Seq<(i64, String)>) -> Seq<(i64, Seq<char>)> {
    v.map_values(|r: (i64, String)| (r.0, r.1@))
}

proof fn lemma_row_views_push(v: Seq<(i64, String)>, x: (i64, String))
    ensures
        row_views(v.push(x)) == row_views(v).push((x.0, x.1@)),
{
    assert(row_views(v.push(x)) =~= row_views(v).push((x.0, x.1@)));
}

proof fn lemma_insert_by_id_at(s: Seq<(i64, Seq<char>)>, x: (i64, Seq<char>), j: int)
    requires
        0 <= j <= s.len(),
        forall|k: int| 0 <= k < j ==> !(x.0 < (#[trigger] s[k]).0),
        j < s.len() ==> x.0 < s[j].0,
    ensures
        insert_by_id(s, x) == s.take(j) + seq![x] + s.skip(j),
    decreases s.len(),
{
    if s.len() == 0 {
        assert(s.take(j) + seq![x] + s.skip(j) =~= seq![x]);
    } else if j == 0 {
        assert(s.take(0) + seq![x] + s.skip(0) =~= seq![x] + s);
    } else {
        assert forall|k: int| 0 <= k < j - 1 implies !(x.0 < (#[trigger] s.drop_first()[k]).0) by {
            assert(s.drop_first()[k] == s[k + 1]);
        }
        lemma_insert_by_id_at(s.drop_first(), x, j - 1);
        assert(s.take(j) + seq![x] + s.skip(j) =~= seq![s[0]] + (s.drop_first().take(j - 1) + seq![x]
            + s.drop_first().skip(j - 1)));
    }
}

fn sort_rows_by_id(v: Vec<(i64, String)>) -> (r: Vec<(i64, String)>)
    ensures
        row_views(r@) == sorted_by_id(row_views(v@)),
{
    let ghost vs = row_views(v@);
    let mut out: Vec<(i64, String)> = Vec::new();
    let mut i: usize = 0;
    while i < v.len()
        invariant
            i <= v@.len(),
            vs == row_views(v@),
            row_views(out@) == sorted_by_id(vs.take(i as int)),
        decreases v@.len() - i,
    {
        let (id, path) = &v[i];
        let ghost so = row_views(out@);
        let mut j: usize = 0;
        while j < out.len() && !(*id < out[j].0)
            invariant
                j <= out@.len(),
                so == row_views(out@),
                forall|k: int| 0 <= k < j ==> !(*id < (#[trigger] so[k]).0),
            decreases out@.len() - j,
        {
            j = j + 1;
        }
        proof {
            lemma_insert_by_id_at(so, (*id, path@), j as int);
            assert(vs.take(i + 1).drop_last() == vs.take(i as int));
            assert(vs.take(i + 1).last() == (*id, path@));
        }
        out.insert(j, (*id, path.clone()));
        assert(row_views(out@) =~= so.take(j as int) + seq![(*id, path@)] + so.skip(j as int));
        i = i + 1;
    }
    assert(vs.take(v@.len() as int) == vs);
    out
}

/// Groups rows by canonical path (`canonical[i]` is that of `rows[i]`):
/// one group per distinct canonical path, in text order, each with its rows
/// in id order.
pub fn group_aliases(rows: &Vec<(i64, String)>, canonical: &Vec<String>) -> (r: Vec<AliasGroup>)
    requires
        canonical@.len() == rows@.len(),
    ensures
        r@.len() == sorted_seq(first_occurrences(views(canonical@))).len(),
        forall|g: int|
            0 <= g < r@.len() ==> {
                &&& (#[trigger] r@[g]).canonical@ == sorted_seq(first_occurrences(views(canonical@)))[g]
                &&& row_views(r@[g].rows@) == sorted_by_id(
                    members_of(row_views(rows@), views(canonical@), r@[g].canonical@),
                )
            },
{
    let keys = canonical_unique_sorted(canonical);
    let ghost rv = row_views(rows@);
    let ghost cv = views(canonical@);
    let mut groups: Vec<AliasGroup> = Vec::new();
    let mut g: usize = 0;
    while g < keys.len()
        invariant
            g <= keys@.len(),
            views(keys@) == sorted_seq(first_occurrences(cv)),
            rv == row_views(rows@),
            cv == views(canonical@),
            canonical@.len() == rows@.len(),
            groups@.len() == g,
            forall|k: int|
                0 <= k < g ==> {
                    &&& (#[trigger] groups@[k]).canonical@ == views(keys@)[k]
                    &&& row_views(groups@[k].rows@) == sorted_by_id(
                        members_of(rv, cv, groups@[k].canonical@),
                    )
                },
        decreases keys@.len() - g,
    {
        let key = keys[g].as_str();
        let mut members: Vec<(i64, String)> = Vec::new();
        let mut i: usize = 0;
        while i < rows.len()
            invariant
                i <= rows@.len() == canonical@.len(),
                rv == row_views(rows@),
                cv == views(canonical@),
                row_views(members@) == members_of(rv.take(i as int), cv.take(i as int), key@),
            decreases rows@.len() - i,
        {
            assert(rv.take(i + 1).drop_last() == rv.take(i as int));
            assert(cv.take(i + 1).drop_last() == cv.take(i as int));
            assert(rv.take(i + 1).last() == (rows@[i as int].0, rows@[i as int].1@));
            assert(cv.take(i + 1).last() == canonical@[i as int]@);
            if str_eq(canonical[i].as_str(), key) {
                let m = (rows[i].0, rows[i].1.clone());
                proof {
                    lemma_row_views_push(members@, m);
                }
                members.push(m);
            }
            i = i + 1;
        }
        assert(rv.take(rows@.len() as int) == rv);
        assert(cv.take(rows@.len() as int) == cv);
        let sorted = sort_rows_by_id(members);
        groups.push(AliasGroup { canonical: keys[g].clone(), rows: sorted });
        g = g + 1;
    }
    groups
}

} // verus!
