//! Unix path components, lexical normalization, file names and
//! component-wise prefixes, over path text.

use vstd::prelude::*;

use crate::text::{append_str, chars_of, join, push_char, runs_from, split_runs};

verus! {

/// The non-empty segments between `/` separators.
pub open spec fn segments(s: Seq<char>) -> Seq<Seq<char>> {
    runs_from(s, Seq::empty(), '/')
}

pub open spec fn dot() -> Seq<char> {
    seq!['.']
}

pub open spec fn dotdot() -> Seq<char> {
    seq!['.', '.']
}

pub open spec fn root() -> Seq<char> {
    seq!['/']
}

/// The segments other than `.`.
pub open spec fn without_dots(ps: Seq<Seq<char>>) -> Seq<Seq<char>>
    decreases ps.len(),
{
    if ps.len() == 0 {
        Seq::empty()
    } else if ps.last() == dot() {
        without_dots(ps.drop_last())
    } else {
        without_dots(ps.drop_last()).push(ps.last())
    }
}

pub open spec fn has_root(s: Seq<char>) -> bool {
    s.len() > 0 && s[0] == '/'
}

/// A relative path whose first segment is `.` keeps it as a current-directory
/// component.
pub open spec fn leading_cur_dir(s: Seq<char>) -> bool {
    !has_root(s) && s.len() > 0 && s[0] == '.' && (s.len() == 1 || s[1] == '/')
}

/// `Path::components` on Unix: the root as `/`, a leading current directory
/// as `.`, then every segment other than `.`.
pub open spec fn components(s: Seq<char>) -> Seq<Seq<char>> {
    let head: Seq<Seq<char>> = if has_root(s) {
        seq![root()]
    } else if leading_cur_dir(s) {
        seq![dot()]
    } else {
        Seq::empty()
    };
    head + without_dots(segments(s))
}

/// `Path::file_name`: the last component when it is a normal name.
pub open spec fn file_name(s: Seq<char>) -> Option<Seq<char>> {
    let c = components(s);
    if c.len() > 0 && c.last() != root() && c.last() != dot() && c.last() != dotdot() {
        Some(c.last())
    } else {
        None
    }
}

/// `Path::starts_with`: `base`'s components are a prefix of `path`'s.
pub open spec fn starts_with_components(path: Seq<char>, base: Seq<char>) -> bool {
    let pc = components(path);
    let bc = components(base);
    bc.len() <= pc.len() && pc.take(bc.len() as int) == bc
}

/// One step of lexical normalization: `..` removes a preceding name, is
/// dropped directly under the root, and is kept otherwise.
pub open spec fn normalize_step(acc: Seq<Seq<char>>, rooted: bool, c: Seq<char>) -> Seq<
    Seq<char>,
> {
    if c == dotdot() {
        if acc.len() > 0 && acc.last() != dotdot() {
            acc.drop_last()
        } else if rooted {
            acc
        } else {
            acc.push(dotdot())
        }
    } else {
        acc.push(c)
    }
}

pub open spec fn normalize_parts(parts: Seq<Seq<char>>, rooted: bool) -> Seq<Seq<char>>
    decreases parts.len(),
{
    if parts.len() == 0 {
        Seq::empty()
    } else {
        normalize_step(normalize_parts(parts.drop_last(), rooted), rooted, parts.last())
    }
}

pub open spec fn render(rooted: bool, parts: Seq<Seq<char>>) -> Seq<char> {
    if rooted {
        root() + join(parts, root())
    } else {
        join(parts, root())
    }
}

/// A path with `.` removed and `..` resolved against preceding names,
/// without consulting the file system.
pub open spec fn lexical_normal(s: Seq<char>) -> Seq<char> {
    render(has_root(s), normalize_parts(without_dots(segments(s)), has_root(s)))
}

/// Splits `v` into its non-empty `/`-separated segments.
pub fn split_segments(v: &Vec<char>) -> (r: Vec<String>)
    ensures
        r@.len() == segments(v@).len(),
        forall|i: int| 0 <= i < r@.len() ==> #[trigger] r@[i]@ == segments(v@)[i],
{
    split_runs(v, '/')
}

fn is_dot(s: &String) -> (r: bool)
    ensures
        r == (s@ == dot()),
{
    let v = chars_of(s.as_str());
    let r = v.len() == 1 && v[0] == '.';
    proof {
        if r {
            assert(v@ == dot());
        }
    }
    r
}

fn is_dotdot(s: &String) -> (r: bool)
    ensures
        r == (s@ == dotdot()),
{
    let v = chars_of(s.as_str());
    let r = v.len() == 2 && v[0] == '.' && v[1] == '.';
    proof {
        if r {
            assert(v@ == dotdot());
        }
    }
    r
}

/// The segments of `v` other than `.`.
fn named_segments(v: &Vec<char>) -> (r: Vec<String>)
    ensures
        r@.len() == without_dots(segments(v@)).len(),
        forall|i: int| 0 <= i < r@.len() ==> #[trigger] r@[i]@ == without_dots(segments(v@))[i],
{
    let parts = split_segments(v);
    let ghost ps = segments(v@);
    let mut out: Vec<String> = Vec::new();
    let mut i: usize = 0;
    while i < parts.len()
        invariant
            i <= parts@.len() == ps.len(),
            ps == segments(v@),
            forall|k: int| 0 <= k < parts@.len() ==> #[trigger] parts@[k]@ == ps[k],
            out@.len() == without_dots(ps.take(i as int)).len(),
            forall|k: int| 0 <= k < out@.len() ==> #[trigger] out@[k]@ == without_dots(
                ps.take(i as int),
            )[k],
        decreases parts@.len() - i,
    {
        assert(ps.take(i + 1).drop_last() == ps.take(i as int));
        assert(ps.take(i + 1).last() == ps[i as int]);
        if !is_dot(&parts[i]) {
            out.push(parts[i].clone());
        }
        i = i + 1;
    }
    assert(ps.take(ps.len() as int) == ps);
    out
}

/// The components of a path, as `Path::components` yields them on Unix.
pub fn path_components(path: &str) -> (r: Vec<String>)
    ensures
        r@.len() == components(path@).len(),
        forall|i: int| 0 <= i < r@.len() ==> #[trigger] r@[i]@ == components(path@)[i],
{
    let v = chars_of(path);
    let named = named_segments(&v);
    let mut out: Vec<String> = Vec::new();
    let ghost head: Seq<Seq<char>> = if has_root(v@) {
        seq![root()]
    } else if leading_cur_dir(v@) {
        seq![dot()]
    } else {
        Seq::empty()
    };
    if v.len() > 0 && v[0] == '/' {
        let mut r = String::new();
        push_char(&mut r, '/');
        out.push(r);
    } else if v.len() > 0 && v[0] == '.' && (v.len() == 1 || v[1] == '/') {
        let mut d = String::new();
        push_char(&mut d, '.');
        out.push(d);
    }
    assert(out@.len() == head.len());
    let ghost tail = without_dots(segments(v@));
    let mut i: usize = 0;
    while i < named.len()
        invariant
            i <= named@.len() == tail.len(),
            tail == without_dots(segments(v@)),
            forall|k: int| 0 <= k < named@.len() ==> #[trigger] named@[k]@ == tail[k],
            out@.len() == head.len() + i,
            forall|k: int| 0 <= k < out@.len() ==> #[trigger] out@[k]@ == (head + tail)[k],
        decreases named@.len() - i,
    {
        out.push(named[i].clone());
        i = i + 1;
    }
    out
}

/// The file name of a path: its last component when that is a normal name.
pub fn file_name_of(path: &str) -> (r: Option<String>)
    ensures
        match file_name(path@) {
            Some(name) => r matches Some(s) && s@ == name,
            None => r.is_none(),
        },
{
    let comps = path_components(path);
    let n = comps.len();
    if n == 0 {
        return None;
    }
    let last = &comps[n - 1];
    let lv = chars_of(last.as_str());
    let special = (lv.len() == 1 && (lv[0] == '/' || lv[0] == '.')) || (lv.len() == 2 && lv[0]
        == '.' && lv[1] == '.');
    proof {
        let c = components(path@);
        assert(c.last() == comps@[n - 1]@);
        if lv@ == root() || lv@ == dot() || lv@ == dotdot() {
            assert(special);
        }
        if special {
            if lv.len() == 1 {
                if lv[0] == '/' {
                    assert(lv@ == root());
                } else {
                    assert(lv@ == dot());
                }
            } else {
                assert(lv@ == dotdot());
            }
        }
    }
    if special {
        None
    } else {
        Some(last.clone())
    }
}

/// Component-wise prefix test, as `Path::starts_with` decides it.
pub fn path_starts_with(path: &str, base: &str) -> (r: bool)
    ensures
        r == starts_with_components(path@, base@),
{
    let pc = path_components(path);
    let bc = path_components(base);
    let ghost pcs = components(path@);
    let ghost bcs = components(base@);
    if bc.len() > pc.len() {
        return false;
    }
    let mut i: usize = 0;
    while i < bc.len()
        invariant
            i <= bc@.len() <= pc@.len(),
            pcs == components(path@),
            bcs == components(base@),
            pc@.len() == pcs.len(),
            bc@.len() == bcs.len(),
            forall|k: int| 0 <= k < pc@.len() ==> #[trigger] pc@[k]@ == pcs[k],
            forall|k: int| 0 <= k < bc@.len() ==> #[trigger] bc@[k]@ == bcs[k],
            forall|k: int| 0 <= k < i ==> pcs[k] == bcs[k],
        decreases bc@.len() - i,
    {
        if !(pc[i] == bc[i]) {
            assert(pcs.take(bcs.len() as int)[i as int] != bcs[i as int]);
            assert(!(pcs.take(bcs.len() as int) =~= bcs));
            return false;
        }
        i = i + 1;
    }
    assert(pcs.take(bcs.len() as int) =~= bcs);
    true
}

proof fn lemma_join_push(ws: Seq<Seq<char>>, w: Seq<char>, sep: Seq<char>)
    ensures
        join(ws.push(w), sep) == if ws.len() == 0 {
            w
        } else {
            join(ws, sep) + sep + w
        },
{
    assert(ws.push(w).drop_last() == ws);
}

/// Renders path components, separating them with `/` after an optional root.
fn render_parts(rooted: bool, parts: &Vec<String>) -> (r: String)
    ensures
        r@ == render(rooted, parts@.map_values(|p: String| p@)),
{
    let ghost views = parts@.map_values(|p: String| p@);
    let mut out = String::new();
    if rooted {
        push_char(&mut out, '/');
    }
    let ghost start = out@;
    let mut i: usize = 0;
    while i < parts.len()
        invariant
            i <= parts@.len(),
            views == parts@.map_values(|p: String| p@),
            start == if rooted {
                root()
            } else {
                Seq::<char>::empty()
            },
            out@ == start + join(views.take(i as int), root()),
        decreases parts@.len() - i,
    {
        proof {
            lemma_join_push(views.take(i as int), views[i as int], root());
            assert(views.take(i + 1) == views.take(i as int).push(views[i as int]));
        }
        if i > 0 {
            push_char(&mut out, '/');
        }
        append_str(&mut out, parts[i].as_str());
        proof {
            if i > 0 {
                assert(out@ == start + (join(views.take(i as int), root()) + root() + views[
                    i as int]));
            } else {
                assert(out@ == start + views[i as int]);
            }
        }
        i = i + 1;
    }
    assert(views.take(parts@.len() as int) == views);
    out
}

/// Normalizes a path without touching the file system: `.` components are
/// dropped and `..` removes the preceding name (or is kept when there is
/// none and the path is relative).
pub fn lexical_normalize(path: &str) -> (r: String)
    ensures
        r@ == lexical_normal(path@),
{
    let v = chars_of(path);
    let rooted = v.len() > 0 && v[0] == '/';
    let named = named_segments(&v);
    let ghost parts = without_dots(segments(v@));
    let mut acc: Vec<String> = Vec::new();
    let mut i: usize = 0;
    while i < named.len()
        invariant
            i <= named@.len() == parts.len(),
            parts == without_dots(segments(v@)),
            rooted == has_root(v@),
            forall|k: int| 0 <= k < named@.len() ==> #[trigger] named@[k]@ == parts[k],
            acc@.map_values(|p: String| p@) == normalize_parts(parts.take(i as int), rooted),
        decreases named@.len() - i,
    {
        let ghost before = acc@.map_values(|p: String| p@);
        assert(parts.take(i + 1).drop_last() == parts.take(i as int));
        assert(parts.take(i + 1).last() == parts[i as int]);
        if is_dotdot(&named[i]) {
            let n = acc.len();
            if n > 0 && !is_dotdot(&acc[n - 1]) {
                acc.pop();
                assert(acc@.map_values(|p: String| p@) == before.drop_last());
            } else if rooted {
            } else {
                acc.push(named[i].clone());
                assert(acc@.map_values(|p: String| p@) == before.push(dotdot()));
            }
        } else {
            acc.push(named[i].clone());
            assert(acc@.map_values(|p: String| p@) == before.push(parts[i as int]));
        }
        i = i + 1;
    }
    assert(parts.take(parts.len() as int) == parts);
    render_parts(rooted, &acc)
}

/// The path text followed by `suffix`, naming a database's `-wal`, `-shm`
/// or `-journal` companion file.
pub fn sidecar_path(path: &str, suffix: &str) -> (r: String)
    ensures
        r@ == path@ + suffix@,
{
    let mut out = path.to_owned();
    append_str(&mut out, suffix);
    out
}

} // verus!
