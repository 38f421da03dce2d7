//! Flat-file line lists: how a runtime file's text becomes its lines, how
//! lines are written back, and the list edits behind sources, favorites and
//! history.

use vstd::prelude::*;

use crate::text::{
    append_str, chars_of, push_char, runs_from, split_runs, trim, trim_left, trim_right, trimmed,
    char_whitespace, views,
};

verus! {

/// Trimmed lines, blank ones dropped.
pub open spec fn kept_lines(raw: Seq<Seq<char>>) -> Seq<Seq<char>>
    decreases raw.len(),
{
    if raw.len() == 0 {
        Seq::empty()
    } else if trimmed(raw.last()).len() == 0 {
        kept_lines(raw.drop_last())
    } else {
        kept_lines(raw.drop_last()).push(trimmed(raw.last()))
    }
}

/// The lines a runtime file holds: split at line feeds, each trimmed, blank
/// lines skipped.
pub open spec fn content_lines(content: Seq<char>) -> Seq<Seq<char>> {
    kept_lines(runs_from(content, Seq::empty(), '\n'))
}

/// The file text for a list of lines: each line followed by a line feed.
pub open spec fn lines_text(lines: Seq<Seq<char>>) -> Seq<char>
    decreases lines.len(),
{
    if lines.len() == 0 {
        Seq::empty()
    } else {
        lines_text(lines.drop_last()) + lines.last().push('\n')
    }
}

/// Every line other than `target`, in order.
pub open spec fn without_line(lines: Seq<Seq<char>>, target: Seq<char>) -> Seq<Seq<char>>
    decreases lines.len(),
{
    if lines.len() == 0 {
        Seq::empty()
    } else if lines.last() == target {
        without_line(lines.drop_last(), target)
    } else {
        without_line(lines.drop_last(), target).push(lines.last())
    }
}

/// The lines in order with every repeat of an earlier line dropped.
pub open spec fn first_occurrences(lines: Seq<Seq<char>>) -> Seq<Seq<char>>
    decreases lines.len(),
{
    if lines.len() == 0 {
        Seq::empty()
    } else if lines.drop_last().contains(lines.last()) {
        first_occurrences(lines.drop_last())
    } else {
        first_occurrences(lines.drop_last()).push(lines.last())
    }
}

/// The lines whose key was not the key of an earlier line.
pub open spec fn first_by_key(lines: Seq<Seq<char>>, keys: Seq<Seq<char>>) -> Seq<Seq<char>>
    decreases lines.len(),
{
    if lines.len() == 0 || keys.len() != lines.len() {
        Seq::empty()
    } else if keys.drop_last().contains(keys.last()) {
        first_by_key(lines.drop_last(), keys.drop_last())
    } else {
        first_by_key(lines.drop_last(), keys.drop_last()).push(lines.last())
    }
}

/// The lines whose key differs from `key`.
pub open spec fn other_keys(lines: Seq<Seq<char>>, keys: Seq<Seq<char>>, key: Seq<char>) -> Seq<
    Seq<char>,
>
    decreases lines.len(),
{
    if lines.len() == 0 || keys.len() != lines.len() {
        Seq::empty()
    } else if keys.last() == key {
        other_keys(lines.drop_last(), keys.drop_last(), key)
    } else {
        other_keys(lines.drop_last(), keys.drop_last(), key).push(lines.last())
    }
}

/// History after applying `path`: it moves to the front, every line with
/// the same key leaves, and the list keeps at most `max` lines.
pub open spec fn history_after_add(
    lines: Seq<Seq<char>>,
    keys: Seq<Seq<char>>,
    path: Seq<char>,
    key: Seq<char>,
    max: nat,
) -> Seq<Seq<char>> {
    let all = seq![path] + other_keys(lines, keys, key);
    if all.len() > max {
        all.take(max as int)
    } else {
        all
    }
}

/// The lines of a runtime file's text, as `read_lines` returns them.
pub fn parse_lines(content: &str) -> (r: Vec<String>)
    ensures
        views(r@) == content_lines(content@),
{
    let v = chars_of(content);
    let raw = split_runs(&v, '\n');
    let ghost rs = runs_from(v@, Seq::empty(), '\n');
    let mut out: Vec<String> = Vec::new();
    let mut i: usize = 0;
    while i < raw.len()
        invariant
            i <= raw@.len() == rs.len(),
            rs == runs_from(v@, Seq::empty(), '\n'),
            forall|k: int| 0 <= k < raw@.len() ==> #[trigger] raw@[k]@ == rs[k],
            views(out@) == kept_lines(rs.take(i as int)),
        decreases raw@.len() - i,
    {
        assert(rs.take(i + 1).drop_last() == rs.take(i as int));
        assert(rs.take(i + 1).last() == rs[i as int]);
        let t = trim(raw[i].as_str());
        if !t.as_str().is_empty() {
            out.push(t);
            assert(views(out@) == kept_lines(rs.take(i as int)).push(t@));
        }
        i = i + 1;
    }
    assert(rs.take(rs.len() as int) == rs);
    out
}

/// The text that `write_lines` stores: every line followed by a line feed.
pub fn render_lines(lines: &Vec<String>) -> (r: String)
    ensures
        r@ == lines_text(views(lines@)),
{
    let ghost vs = views(lines@);
    let mut out = String::new();
    let mut i: usize = 0;
    while i < lines.len()
        invariant
            i <= lines@.len(),
            vs == views(lines@),
            out@ == lines_text(vs.take(i as int)),
        decreases lines@.len() - i,
    {
        assert(vs.take(i + 1).drop_last() == vs.take(i as int));
        append_str(&mut out, lines[i].as_str());
        push_char(&mut out, '\n');
        i = i + 1;
    }
    assert(vs.take(lines@.len() as int) == vs);
    out
}

/// Whether `line` is one of `lines`.
pub fn contains_line(lines: &Vec<String>, line: &str) -> (r: bool)
    ensures
        r == views(lines@).contains(line@),
{
    let wanted = line.to_owned();
    let mut i: usize = 0;
    while i < lines.len()
        invariant
            i <= lines@.len(),
            wanted@ == line@,
            forall|k: int| 0 <= k < i ==> lines@[k]@ != line@,
        decreases lines@.len() - i,
    {
        if lines[i] == wanted {
            assert(views(lines@)[i as int] == line@);
            return true;
        }
        i = i + 1;
    }
    proof {
        if views(lines@).contains(line@) {
            let k = choose|k: int| 0 <= k < views(lines@).len() && views(lines@)[k] == line@;
            assert(lines@[k]@ == line@);
        }
    }
    false
}

/// Appends `line` unless it is already present. `None` means the list is
/// unchanged (the file is not rewritten); `Some` holds the new list.
pub fn append_unique_line(lines: &Vec<String>, line: &str) -> (r: Option<Vec<String>>)
    ensures
        views(lines@).contains(line@) ==> r.is_none(),
        !views(lines@).contains(line@) ==> (r matches Some(new_lines) && views(new_lines@)
            == views(lines@).push(line@)),
{
    if contains_line(lines, line) {
        None
    } else {
        let mut out = lines.clone();
        proof {
            assert(out@ =~= lines@);
        }
        out.push(line.to_owned());
        assert(views(out@) =~= views(lines@).push(line@));
        Some(out)
    }
}

/// Every occurrence of `target` removed; the other lines keep their order.
pub fn remove_line(lines: &Vec<String>, target: &str) -> (r: Vec<String>)
    ensures
        views(r@) == without_line(views(lines@), target@),
{
    let ghost vs = views(lines@);
    let wanted = target.to_owned();
    let mut out: Vec<String> = Vec::new();
    let mut i: usize = 0;
    while i < lines.len()
        invariant
            i <= lines@.len(),
            vs == views(lines@),
            wanted@ == target@,
            views(out@) == without_line(vs.take(i as int), target@),
        decreases lines@.len() - i,
    {
        assert(vs.take(i + 1).drop_last() == vs.take(i as int));
        assert(vs.take(i + 1).last() == lines@[i as int]@);
        if !(lines[i] == wanted) {
            out.push(lines[i].clone());
            assert(views(out@) == without_line(vs.take(i as int), target@).push(lines@[i as int]@));
        }
        i = i + 1;
    }
    assert(vs.take(lines@.len() as int) == vs);
    out
}

/// The lines with repeats dropped, keeping each first occurrence in order.
pub fn dedupe_file(lines: &Vec<String>) -> (r: Vec<String>)
    ensures
        views(r@) == first_occurrences(views(lines@)),
{
    let ghost vs = views(lines@);
    let mut out: Vec<String> = Vec::new();
    let mut i: usize = 0;
    while i < lines.len()
        invariant
            i <= lines@.len(),
            vs == views(lines@),
            views(out@) == first_occurrences(vs.take(i as int)),
            forall|x: Seq<char>| vs.take(i as int).contains(x) <==> views(out@).contains(x),
        decreases lines@.len() - i,
    {
        let ghost prefix = vs.take(i as int);
        let ghost next = vs.take(i + 1);
        let ghost before = views(out@);
        assert(next == prefix.push(lines@[i as int]@));
        assert(next.drop_last() == prefix);
        let seen = contains_line(&out, lines[i].as_str());
        if !seen {
            out.push(lines[i].clone());
            assert(views(out@) == before.push(lines@[i as int]@));
        }
        proof {
            assert forall|x: Seq<char>| next.contains(x) <==> views(out@).contains(x) by {
                lemma_push_contains(prefix, lines@[i as int]@, x);
                lemma_push_contains(before, lines@[i as int]@, x);
                assert(prefix.contains(x) <==> before.contains(x));
            }
            assert(views(out@) == first_occurrences(next));
        }
        i = i + 1;
    }
    assert(vs.take(lines@.len() as int) == vs);
    out
}

/// The first line, as `read_single_line` returns it.
pub fn read_single_line(lines: &Vec<String>) -> (r: Option<String>)
    ensures
        lines@.len() == 0 ==> r.is_none(),
        lines@.len() > 0 ==> (r matches Some(first) && first@ == lines@[0]@),
{
    if lines.len() == 0 {
        None
    } else {
        Some(lines[0].clone())
    }
}

/// Keeps the first line of each key; `keys[i]` is the canonical form of
/// `lines[i]`.
pub fn dedupe_by_keys(lines: &Vec<String>, keys: &Vec<String>) -> (r: Vec<String>)
    requires
        keys@.len() == lines@.len(),
    ensures
        views(r@) == first_by_key(views(lines@), views(keys@)),
{
    let ghost vs = views(lines@);
    let ghost ks = views(keys@);
    let mut out: Vec<String> = Vec::new();
    let mut seen: Vec<String> = Vec::new();
    let mut i: usize = 0;
    while i < lines.len()
        invariant
            i <= lines@.len() == keys@.len(),
            vs == views(lines@),
            ks == views(keys@),
            views(out@) == first_by_key(vs.take(i as int), ks.take(i as int)),
            forall|x: Seq<char>| ks.take(i as int).contains(x) <==> views(seen@).contains(x),
        decreases lines@.len() - i,
    {
        let ghost kprefix = ks.take(i as int);
        let ghost knext = ks.take(i + 1);
        let ghost before = views(out@);
        let ghost seen_before = views(seen@);
        assert(vs.take(i + 1) == vs.take(i as int).push(lines@[i as int]@));
        assert(knext == kprefix.push(keys@[i as int]@));
        assert(knext.drop_last() == kprefix);
        assert(vs.take(i + 1).drop_last() == vs.take(i as int));
        let dup = contains_line(&seen, keys[i].as_str());
        if !dup {
            out.push(lines[i].clone());
            assert(views(out@) == before.push(lines@[i as int]@));
        }
        seen.push(keys[i].clone());
        proof {
            assert(views(seen@) == seen_before.push(keys@[i as int]@));
            assert forall|x: Seq<char>| knext.contains(x) <==> views(seen@).contains(x) by {
                lemma_push_contains(kprefix, keys@[i as int]@, x);
                lemma_push_contains(seen_before, keys@[i as int]@, x);
                assert(kprefix.contains(x) <==> seen_before.contains(x));
            }
            assert(views(out@) == first_by_key(vs.take(i + 1), knext));
        }
        i = i + 1;
    }
    assert(vs.take(lines@.len() as int) == vs);
    assert(ks.take(lines@.len() as int) == ks);
    out
}

/// The history list after `path` is applied: `path` first, every line with
/// the same key as `path` removed, at most `max_entries` lines. `keys[i]`
/// is the canonical form of `lines[i]` and `key` that of `path`.
pub fn history_add_lines(
    lines: &Vec<String>,
    keys: &Vec<String>,
    path: &str,
    key: &str,
    max_entries: usize,
) -> (r: Vec<String>)
    requires
        keys@.len() == lines@.len(),
    ensures
        views(r@) == history_after_add(
            views(lines@),
            views(keys@),
            path@,
            key@,
            max_entries as nat,
        ),
{
    let ghost vs = views(lines@);
    let ghost ks = views(keys@);
    let wanted = key.to_owned();
    let mut out: Vec<String> = Vec::new();
    out.push(path.to_owned());
    let mut i: usize = 0;
    while i < lines.len()
        invariant
            i <= lines@.len() == keys@.len(),
            vs == views(lines@),
            ks == views(keys@),
            wanted@ == key@,
            views(out@) == seq![path@] + other_keys(vs.take(i as int), ks.take(i as int), key@),
        decreases lines@.len() - i,
    {
        let ghost before = views(out@);
        assert(vs.take(i + 1) == vs.take(i as int).push(lines@[i as int]@));
        assert(ks.take(i + 1) == ks.take(i as int).push(keys@[i as int]@));
        assert(vs.take(i + 1).drop_last() == vs.take(i as int));
        assert(ks.take(i + 1).drop_last() == ks.take(i as int));
        if !(keys[i] == wanted) {
            out.push(lines[i].clone());
            assert(views(out@) == before.push(lines@[i as int]@));
        }
        assert(views(out@) == seq![path@] + other_keys(vs.take(i + 1), ks.take(i + 1), key@));
        i = i + 1;
    }
    assert(vs.take(lines@.len() as int) == vs);
    assert(ks.take(lines@.len() as int) == ks);
    if out.len() > max_entries {
        out.truncate(max_entries);
        assert(views(out@) =~= (seq![path@] + other_keys(vs, ks, key@)).take(max_entries as int));
    }
    out
}

/// `sources_remove`: `None` when `path` is not listed (nothing is written),
/// otherwise the list without it.
pub fn remove_listed_line(lines: &Vec<String>, path: &str) -> (r: Option<Vec<String>>)
    ensures
        !views(lines@).contains(path@) ==> r.is_none(),
        views(lines@).contains(path@) ==> (r matches Some(rest) && views(rest@) == without_line(
            views(lines@),
            path@,
        )),
{
    if contains_line(lines, path) {
        Some(remove_line(lines, path))
    } else {
        None
    }
}

// ── Laws ─────────────────────────────────────────────────────────────────

/// What a sequence with one more line at the end contains.
proof fn lemma_push_contains(s: Seq<Seq<char>>, a: Seq<char>, x: Seq<char>)
    ensures
        s.push(a).contains(x) <==> (s.contains(x) || x == a),
{
    if s.push(a).contains(x) {
        let k = choose|k: int| 0 <= k < s.push(a).len() && s.push(a)[k] == x;
        if k < s.len() {
            assert(s[k] == x);
        }
    }
    if s.contains(x) {
        let k = choose|k: int| 0 <= k < s.len() && s[k] == x;
        assert(s.push(a)[k] == x);
    }
    if x == a {
        assert(s.push(a)[s.len() as int] == x);
    }
}

/// After an append, the line is present, whether or not it was appended.
pub proof fn lemma_append_then_contains(lines: Seq<Seq<char>>, line: Seq<char>)
    ensures
        lines.push(line).contains(line),
{
    lemma_push_contains(lines, line, line);
}

/// Removing a line leaves no occurrence of it, and keeps exactly the other
/// lines that were there before.
pub proof fn lemma_remove_line_removes(lines: Seq<Seq<char>>, target: Seq<char>)
    ensures
        forall|x: Seq<char>| #[trigger] without_line(lines, target).contains(x) <==> (x != target
            && lines.contains(x)),
    decreases lines.len(),
{
    if lines.len() > 0 {
        let init = lines.drop_last();
        lemma_remove_line_removes(init, target);
        assert(init.push(lines.last()) == lines);
        let wi = without_line(init, target);
        assert forall|x: Seq<char>| #[trigger] without_line(lines, target).contains(x) <==> (x
            != target && lines.contains(x)) by {
            lemma_push_contains(init, lines.last(), x);
            lemma_push_contains(wi, lines.last(), x);
            assert(wi.contains(x) <==> (x != target && init.contains(x)));
        }
    }
}

/// Deduplicated lines hold no repeats and the same set of lines.
pub proof fn lemma_first_occurrences_unique(lines: Seq<Seq<char>>)
    ensures
        first_occurrences(lines).no_duplicates(),
        forall|x: Seq<char>| #[trigger] first_occurrences(lines).contains(x) <==> lines.contains(
            x,
        ),
    decreases lines.len(),
{
    if lines.len() > 0 {
        let init = lines.drop_last();
        lemma_first_occurrences_unique(init);
        assert(init.push(lines.last()) == lines);
        let f = first_occurrences(lines);
        let fi = first_occurrences(init);
        assert forall|x: Seq<char>| #[trigger] f.contains(x) <==> lines.contains(x) by {
            lemma_push_contains(init, lines.last(), x);
            lemma_push_contains(fi, lines.last(), x);
            assert(fi.contains(x) <==> init.contains(x));
        }
        if !init.contains(lines.last()) {
            assert(!fi.contains(lines.last()));
            assert forall|a: int, b: int| 0 <= a < f.len() && 0 <= b < f.len() && a != b implies f[a]
                != f[b] by {
                if a < fi.len() && b < fi.len() {
                } else if a == fi.len() {
                    assert(fi[b] == f[b]);
                    if f[a] == f[b] {
                        assert(fi.contains(f[b]));
                    }
                } else {
                    assert(fi[a] == f[a]);
                    if f[a] == f[b] {
                        assert(fi.contains(f[a]));
                    }
                }
            }
        }
    }
}

/// Deduplicating twice is the same as deduplicating once.
pub proof fn lemma_dedupe_idempotent(lines: Seq<Seq<char>>)
    ensures
        first_occurrences(first_occurrences(lines)) == first_occurrences(lines),
{
    lemma_first_occurrences_unique(lines);
    lemma_unique_fixed(first_occurrences(lines));
}

proof fn lemma_unique_fixed(s: Seq<Seq<char>>)
    requires
        s.no_duplicates(),
    ensures
        first_occurrences(s) == s,
    decreases s.len(),
{
    if s.len() > 0 {
        let init = s.drop_last();
        assert(init.no_duplicates());
        lemma_unique_fixed(init);
        if init.contains(s.last()) {
            let j = choose|j: int| 0 <= j < init.len() && init[j] == s.last();
            assert(s[j] == s[s.len() - 1]);
        }
        assert(init.push(s.last()) == s);
    }
}

/// Deduplicating lines by their own text is plain deduplication.
pub proof fn lemma_first_by_own_key(lines: Seq<Seq<char>>)
    ensures
        first_by_key(lines, lines) == first_occurrences(lines),
    decreases lines.len(),
{
    if lines.len() > 0 {
        lemma_first_by_own_key(lines.drop_last());
    }
}

/// Two deduplicated lists of the same lines hold each line once: the same
/// multiset, whatever the order of the input.
pub proof fn lemma_first_occurrences_multiset(a: Seq<Seq<char>>, b: Seq<Seq<char>>)
    requires
        forall|x: Seq<char>| a.contains(x) <==> b.contains(x),
    ensures
        first_occurrences(a).to_multiset() == first_occurrences(b).to_multiset(),
{
    broadcast use vstd::multiset::group_multiset_axioms;
    let fa = first_occurrences(a);
    let fb = first_occurrences(b);
    lemma_first_occurrences_unique(a);
    lemma_first_occurrences_unique(b);
    fa.lemma_multiset_has_no_duplicates();
    fb.lemma_multiset_has_no_duplicates();
    assert forall|x: Seq<char>| fa.to_multiset().count(x) == fb.to_multiset().count(x) by {
        vstd::seq_lib::to_multiset_contains(fa, x);
        vstd::seq_lib::to_multiset_contains(fb, x);
        assert(fa.contains(x) <==> fb.contains(x));
    }
    assert(fa.to_multiset() =~= fb.to_multiset());
}

proof fn lemma_other_keys_aligned(lines: Seq<Seq<char>>, keys: Seq<Seq<char>>, key: Seq<char>)
    requires
        lines.len() == keys.len(),
    ensures
        other_keys(lines, keys, key).len() == other_keys(keys, keys, key).len(),
        forall|i: int|
            0 <= i < other_keys(keys, keys, key).len() ==> #[trigger] other_keys(keys, keys, key)[i]
                != key,
    decreases lines.len(),
{
    if lines.len() > 0 {
        lemma_other_keys_aligned(lines.drop_last(), keys.drop_last(), key);
    }
}

proof fn lemma_other_keys_after_first(lines: Seq<Seq<char>>, keys: Seq<Seq<char>>, key: Seq<char>)
    requires
        lines.len() == keys.len(),
        lines.len() > 0,
        keys[0] == key,
        forall|i: int| 0 < i < keys.len() ==> #[trigger] keys[i] != key,
    ensures
        other_keys(lines, keys, key) == lines.drop_first(),
    decreases lines.len(),
{
    if lines.len() > 1 {
        let li = lines.drop_last();
        let ki = keys.drop_last();
        assert forall|i: int| 0 < i < ki.len() implies #[trigger] ki[i] != key by {
            assert(ki[i] == keys[i]);
        }
        assert(ki[0] == keys[0]);
        lemma_other_keys_after_first(li, ki, key);
        assert(keys.last() == keys[keys.len() - 1]);
        assert(keys.last() != key);
        assert(other_keys(lines, keys, key) == other_keys(li, ki, key).push(lines.last()));
        assert(li.drop_first().push(lines.last()) == lines.drop_first());
    } else {
        assert(keys.last() == keys[0]);
        assert(other_keys(lines, keys, key) == other_keys(lines.drop_last(), keys.drop_last(), key));
        assert(lines.drop_first().len() == 0);
        assert(lines.drop_last().len() == 0);
        assert(lines.drop_first() == Seq::<Seq<char>>::empty());
    }
}

/// Applying the same wallpaper twice in a row leaves the history as one
/// application left it. `keys` are the canonical forms of `lines`; after
/// the first application the canonical forms of the history are
/// `history_after_add(keys, keys, key, key, max)`.
pub proof fn lemma_history_add_idempotent(
    lines: Seq<Seq<char>>,
    keys: Seq<Seq<char>>,
    path: Seq<char>,
    key: Seq<char>,
    max: nat,
)
    requires
        lines.len() == keys.len(),
    ensures
        ({
            let once = history_after_add(lines, keys, path, key, max);
            let once_keys = history_after_add(keys, keys, key, key, max);
            history_after_add(once, once_keys, path, key, max) == once
        }),
{
    let once = history_after_add(lines, keys, path, key, max);
    let once_keys = history_after_add(keys, keys, key, key, max);
    lemma_other_keys_aligned(lines, keys, key);
    let body = other_keys(lines, keys, key);
    let kbody = other_keys(keys, keys, key);
    let all = seq![path] + body;
    let kall = seq![key] + kbody;
    assert(once == if all.len() > max { all.take(max as int) } else { all });
    assert(once_keys == if kall.len() > max { kall.take(max as int) } else { kall });
    assert(once.len() == once_keys.len());
    if once.len() == 0 {
        assert(other_keys(once, once_keys, key) == Seq::<Seq<char>>::empty());
        assert(max == 0);
    } else {
        assert(once_keys[0] == key);
        assert(once[0] == path);
        assert forall|i: int| 0 < i < once_keys.len() implies #[trigger] once_keys[i] != key by {
            assert(once_keys[i] == kall[i]);
            assert(kall[i] == kbody[i - 1]);
        }
        lemma_other_keys_after_first(once, once_keys, key);
        assert(seq![path] + once.drop_first() == once);
    }
}

// ── Writing and reading back ─────────────────────────────────────────────

/// A line as a runtime file stores it: not empty, no line feed inside, no
/// white space at either end.
pub open spec fn storable_line(l: Seq<char>) -> bool {
    l.len() > 0 && !l.contains('\n') && trimmed(l) == l
}

proof fn lemma_runs_absorb(x: Seq<char>, rest: Seq<char>, cur: Seq<char>)
    requires
        !x.contains('\n'),
    ensures
        runs_from(x + rest, cur, '\n') == runs_from(rest, cur + x, '\n'),
    decreases x.len(),
{
    if x.len() > 0 {
        let t = x + rest;
        assert(t[0] == x[0]);
        assert(t.drop_first() == x.drop_first() + rest);
        assert(!x.drop_first().contains('\n')) by {
            if x.drop_first().contains('\n') {
                let k = choose|k: int| 0 <= k < x.drop_first().len() && x.drop_first()[k] == '\n';
                assert(x[k + 1] == '\n');
            }
        }
        lemma_runs_absorb(x.drop_first(), rest, cur.push(x[0]));
        assert(cur.push(x[0]) + x.drop_first() == cur + x);
    } else {
        assert(x + rest == rest);
        assert(cur + x == cur);
    }
}

proof fn lemma_runs_of_written(lines: Seq<Seq<char>>, rest: Seq<char>)
    requires
        forall|i: int| 0 <= i < lines.len() ==> storable_line(#[trigger] lines[i]),
    ensures
        runs_from(lines_text(lines) + rest, Seq::empty(), '\n') == lines + runs_from(
            rest,
            Seq::empty(),
            '\n',
        ),
    decreases lines.len(),
{
    if lines.len() > 0 {
        let init = lines.drop_last();
        let l = lines.last();
        assert(storable_line(lines[lines.len() - 1]));
        assert forall|i: int| 0 <= i < init.len() implies storable_line(#[trigger] init[i]) by {
            assert(init[i] == lines[i]);
        }
        let tail = l.push('\n') + rest;
        lemma_runs_of_written(init, tail);
        assert(lines_text(lines) + rest == lines_text(init) + tail);
        assert(l.push('\n') + rest == l + (seq!['\n'] + rest));
        lemma_runs_absorb(l, seq!['\n'] + rest, Seq::empty());
        assert(Seq::<char>::empty() + l == l);
        let after = seq!['\n'] + rest;
        assert(after[0] == '\n');
        assert(after.drop_first() == rest);
        assert(runs_from(tail, Seq::empty(), '\n') == seq![l] + runs_from(rest, Seq::empty(), '\n'));
        assert(init + (seq![l] + runs_from(rest, Seq::empty(), '\n')) == lines + runs_from(
            rest,
            Seq::empty(),
            '\n',
        ));
    } else {
        assert(lines_text(lines) + rest == rest);
        assert(lines + runs_from(rest, Seq::empty(), '\n') == runs_from(rest, Seq::empty(), '\n'));
    }
}

proof fn lemma_kept_storable(lines: Seq<Seq<char>>)
    requires
        forall|i: int| 0 <= i < lines.len() ==> storable_line(#[trigger] lines[i]),
    ensures
        kept_lines(lines) == lines,
    decreases lines.len(),
{
    if lines.len() > 0 {
        let init = lines.drop_last();
        assert(storable_line(lines[lines.len() - 1]));
        assert forall|i: int| 0 <= i < init.len() implies storable_line(#[trigger] init[i]) by {
            assert(init[i] == lines[i]);
        }
        lemma_kept_storable(init);
        assert(init.push(lines.last()) == lines);
    }
}

/// A runtime file reads back as the lines written to it, when each line is
/// one a file can hold (`storable_line`).
pub proof fn lemma_written_lines_read_back(lines: Seq<Seq<char>>)
    requires
        forall|i: int| 0 <= i < lines.len() ==> storable_line(#[trigger] lines[i]),
    ensures
        content_lines(lines_text(lines)) == lines,
{
    lemma_runs_of_written(lines, Seq::empty());
    assert(lines_text(lines) + Seq::<char>::empty() == lines_text(lines));
    assert(lines + Seq::<Seq<char>>::empty() == lines);
    lemma_kept_storable(lines);
}

proof fn lemma_trim_left_suffix(x: Seq<char>)
    ensures
        exists|k: int| 0 <= k <= x.len() && trim_left(x) == x.skip(k),
        trim_left(x).len() == 0 || !char_whitespace(trim_left(x)[0]),
    decreases x.len(),
{
    if x.len() > 0 && char_whitespace(x[0]) {
        lemma_trim_left_suffix(x.drop_first());
        let k = choose|k: int| 0 <= k <= x.drop_first().len() && trim_left(x.drop_first()) == x.drop_first().skip(k);
        assert(x.drop_first().skip(k) == x.skip(k + 1));
    } else {
        assert(x.skip(0) == x);
    }
}

proof fn lemma_trim_right_prefix(x: Seq<char>)
    ensures
        exists|k: int| 0 <= k <= x.len() && trim_right(x) == x.take(k),
        trim_right(x).len() == 0 || !char_whitespace(trim_right(x).last()),
    decreases x.len(),
{
    if x.len() > 0 && char_whitespace(x.last()) {
        lemma_trim_right_prefix(x.drop_last());
        let k = choose|k: int| 0 <= k <= x.drop_last().len() && trim_right(x.drop_last()) == x.drop_last().take(k);
        assert(x.drop_last().take(k) == x.take(k));
    } else {
        assert(x.take(x.len() as int) == x);
    }
}

proof fn lemma_trimmed_shape(x: Seq<char>)
    ensures
        trimmed(trimmed(x)) == trimmed(x),
        !x.contains('\n') ==> !trimmed(x).contains('\n'),
{
    let y = trim_left(x);
    let z = trim_right(y);
    lemma_trim_left_suffix(x);
    lemma_trim_right_prefix(y);
    let k = choose|k: int| 0 <= k <= x.len() && y == x.skip(k);
    let j = choose|j: int| 0 <= j <= y.len() && z == y.take(j);
    if z.len() > 0 {
        assert(z[0] == y[0]);
    }
    assert(trim_left(z) == z);
    assert(trim_right(z) == z);
    if !x.contains('\n') && z.contains('\n') {
        let w = choose|w: int| 0 <= w < z.len() && z[w] == '\n';
        assert(z[w] == y[w]);
        assert(y[w] == x[w + k]);
    }
}

proof fn lemma_runs_clean(s: Seq<char>, cur: Seq<char>)
    requires
        !cur.contains('\n'),
    ensures
        forall|i: int|
            0 <= i < runs_from(s, cur, '\n').len() ==> !(#[trigger] runs_from(s, cur, '\n')[i]).contains(
                '\n',
            ),
    decreases s.len(),
{
    if s.len() == 0 {
        if cur.len() > 0 {
            assert(runs_from(s, cur, '\n') == seq![cur]);
            assert(seq![cur][0] == cur);
        }
    } else {
        if s[0] == '\n' {
            lemma_runs_clean(s.drop_first(), Seq::empty());
            let r = runs_from(s.drop_first(), Seq::empty(), '\n');
            if cur.len() > 0 {
                assert(runs_from(s, cur, '\n') == seq![cur] + r);
                assert forall|i: int| 0 <= i < (seq![cur] + r).len() implies !(#[trigger] (seq![cur]
                    + r)[i]).contains('\n') by {
                    if i > 0 {
                        assert((seq![cur] + r)[i] == r[i - 1]);
                    }
                }
            }
        } else {
            assert(!cur.push(s[0]).contains('\n')) by {
                if cur.push(s[0]).contains('\n') {
                    let w = choose|w: int| 0 <= w < cur.push(s[0]).len() && cur.push(s[0])[w] == '\n';
                    if w < cur.len() {
                        assert(cur[w] == '\n');
                    }
                }
            }
            lemma_runs_clean(s.drop_first(), cur.push(s[0]));
            assert(runs_from(s, cur, '\n') == runs_from(s.drop_first(), cur.push(s[0]), '\n'));
        }
    }
}

proof fn lemma_kept_lines_storable(raw: Seq<Seq<char>>)
    requires
        forall|i: int| 0 <= i < raw.len() ==> !(#[trigger] raw[i]).contains('\n'),
    ensures
        forall|i: int| 0 <= i < kept_lines(raw).len() ==> storable_line(#[trigger] kept_lines(raw)[i]),
    decreases raw.len(),
{
    if raw.len() > 0 {
        let init = raw.drop_last();
        assert forall|i: int| 0 <= i < init.len() implies !(#[trigger] init[i]).contains('\n') by {
            assert(init[i] == raw[i]);
        }
        lemma_kept_lines_storable(init);
        assert(!raw[raw.len() - 1].contains('\n'));
        lemma_trimmed_shape(raw.last());
        let k = kept_lines(raw);
        let ki = kept_lines(init);
        if trimmed(raw.last()).len() > 0 {
            assert forall|i: int| 0 <= i < k.len() implies storable_line(#[trigger] k[i]) by {
                if i < ki.len() {
                    assert(k[i] == ki[i]);
                }
            }
        }
    }
}

/// Whatever a runtime file holds, the lines read from it are lines a file
/// can hold, so writing them back and reading again gives the same lines.
pub proof fn lemma_read_lines_stable(content: Seq<char>)
    ensures
        forall|i: int|
            0 <= i < content_lines(content).len() ==> storable_line(
                #[trigger] content_lines(content)[i],
            ),
        content_lines(lines_text(content_lines(content))) == content_lines(content),
{
    lemma_runs_clean(content, Seq::empty());
    lemma_kept_lines_storable(runs_from(content, Seq::empty(), '\n'));
    lemma_written_lines_read_back(content_lines(content));
}

} // verus!
