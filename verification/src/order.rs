//! Text order and sorting: strings compared character by character (which
//! is the byte order of their UTF-8 form), and a stable insertion sort.

use vstd::prelude::*;

use crate::text::{chars_of, views};

verus! {

/// `a` sorts strictly before `b`: at the first position where they differ
/// `a` has the smaller character, or `a` is a proper prefix of `b`.
pub open spec fn chars_lt(a: Seq<char>, b: Seq<char>) -> bool
    decreases a.len(),
{
    if b.len() == 0 {
        false
    } else if a.len() == 0 {
        true
    } else if a[0] != b[0] {
        (a[0] as u32) < (b[0] as u32)
    } else {
        chars_lt(a.drop_first(), b.drop_first())
    }
}

/// Whether `a` sorts before `b` as strings.
pub fn str_lt(a: &str, b: &str) -> (r: bool)
    ensures
        r == chars_lt(a@, b@),
{
    let va = chars_of(a);
    let vb = chars_of(b);
    let mut i: usize = 0;
    assert(a@.skip(0) == a@);
    assert(b@.skip(0) == b@);
    while i < va.len() && i < vb.len() && va[i] == vb[i]
        invariant
            i <= va@.len(),
            i <= vb@.len(),
            va@ == a@,
            vb@ == b@,
            chars_lt(a@, b@) == chars_lt(a@.skip(i as int), b@.skip(i as int)),
        decreases va@.len() - i,
    {
        assert(a@.skip(i as int)[0] == va@[i as int]);
        assert(b@.skip(i as int)[0] == vb@[i as int]);
        assert(a@.skip(i as int).drop_first() == a@.skip(i + 1));
        assert(b@.skip(i as int).drop_first() == b@.skip(i + 1));
        i = i + 1;
    }
    if i == vb.len() {
        assert(b@.skip(i as int).len() == 0);
        false
    } else if i == va.len() {
        assert(a@.skip(i as int).len() == 0);
        assert(b@.skip(i as int).len() > 0);
        true
    } else {
        assert(a@.skip(i as int)[0] == va@[i as int]);
        assert(b@.skip(i as int)[0] == vb@[i as int]);
        (va[i] as u32) < (vb[i] as u32)
    }
}

/// `x` placed before the first element that sorts after it.
pub open spec fn insert_sorted(s: Seq<Seq<char>>, x: Seq<char>) -> Seq<Seq<char>>
    decreases s.len(),
{
    if s.len() == 0 {
        seq![x]
    } else if chars_lt(x, s[0]) {
        seq![x] + s
    } else {
        seq![s[0]] + insert_sorted(s.drop_first(), x)
    }
}

/// Insertion sort: each element in turn inserted into the sorted prefix.
pub open spec fn sorted_seq(s: Seq<Seq<char>>) -> Seq<Seq<char>>
    decreases s.len(),
{
    if s.len() == 0 {
        Seq::empty()
    } else {
        insert_sorted(sorted_seq(s.drop_last()), s.last())
    }
}

/// Non-decreasing in text order.
pub open spec fn is_sorted(s: Seq<Seq<char>>) -> bool {
    forall|i: int, j: int| 0 <= i < j < s.len() ==> !chars_lt(#[trigger] s[j], #[trigger] s[i])
}

proof fn lemma_insert_at(s: Seq<Seq<char>>, x: Seq<char>, j: int)
    requires
        0 <= j <= s.len(),
        forall|k: int| 0 <= k < j ==> !chars_lt(x, #[trigger] s[k]),
        j < s.len() ==> chars_lt(x, s[j]),
    ensures
        insert_sorted(s, x) == s.take(j) + seq![x] + s.skip(j),
    decreases s.len(),
{
    if s.len() == 0 {
        assert(s.take(j) + seq![x] + s.skip(j) =~= seq![x]);
    } else if j == 0 {
        assert(s.take(0) + seq![x] + s.skip(0) =~= seq![x] + s);
    } else {
        assert forall|k: int| 0 <= k < j - 1 implies !chars_lt(x, #[trigger] s.drop_first()[k]) by {
            assert(s.drop_first()[k] == s[k + 1]);
        }
        lemma_insert_at(s.drop_first(), x, j - 1);
        assert(s.take(j) + seq![x] + s.skip(j) =~= seq![s[0]] + (s.drop_first().take(j - 1) + seq![x]
            + s.drop_first().skip(j - 1)));
    }
}

/// Sorts strings into text order; equal strings keep their relative order.
pub fn sort_strings(v: Vec<String>) -> (r: Vec<String>)
    ensures
        views(r@) == sorted_seq(views(v@)),
{
    let ghost vs = views(v@);
    let mut out: Vec<String> = Vec::new();
    let mut i: usize = 0;
    while i < v.len()
        invariant
            i <= v@.len(),
            vs == views(v@),
            views(out@) == sorted_seq(vs.take(i as int)),
        decreases v@.len() - i,
    {
        let x = &v[i];
        let ghost so = views(out@);
        let mut j: usize = 0;
        while j < out.len() && !str_lt(x.as_str(), out[j].as_str())
            invariant
                j <= out@.len(),
                so == views(out@),
                forall|k: int| 0 <= k < j ==> !chars_lt(x@, #[trigger] so[k]),
            decreases out@.len() - j,
        {
            j = j + 1;
        }
        proof {
            lemma_insert_at(so, x@, j as int);
            assert(vs.take(i + 1).drop_last() == vs.take(i as int));
            assert(vs.take(i + 1).last() == x@);
        }
        out.insert(j, x.clone());
        assert(views(out@) =~= so.take(j as int) + seq![x@] + so.skip(j as int));
        i = i + 1;
    }
    assert(vs.take(v@.len() as int) == vs);
    out
}

// ── Properties of the order and the sort ─────────────────────────────────

proof fn lemma_lt_irrefl(a: Seq<char>)
    ensures
        !chars_lt(a, a),
    decreases a.len(),
{
    if a.len() > 0 {
        lemma_lt_irrefl(a.drop_first());
    }
}

proof fn lemma_lt_trans(a: Seq<char>, b: Seq<char>, c: Seq<char>)
    requires
        chars_lt(a, b),
        chars_lt(b, c),
    ensures
        chars_lt(a, c),
    decreases a.len(),
{
    if a.len() > 0 && b.len() > 0 && c.len() > 0 && a[0] == b[0] && b[0] == c[0] {
        lemma_lt_trans(a.drop_first(), b.drop_first(), c.drop_first());
    }
}

/// Every element of `insert_sorted(s, x)` is `x` or an element of `s`.
proof fn lemma_insert_elems(s: Seq<Seq<char>>, x: Seq<char>, j: int)
    requires
        0 <= j < insert_sorted(s, x).len(),
    ensures
        insert_sorted(s, x).len() == s.len() + 1,
        insert_sorted(s, x)[j] == x || exists|k: int| 0 <= k < s.len() && s[k] == insert_sorted(s, x)[j],
    decreases s.len(),
{
    if s.len() == 0 {
    } else if chars_lt(x, s[0]) {
        if j > 0 {
            assert(insert_sorted(s, x)[j] == s[j - 1]);
        }
    } else {
        let t = s.drop_first();
        if j > 0 {
            lemma_insert_elems(t, x, j - 1);
            let e = insert_sorted(s, x)[j];
            assert(e == insert_sorted(t, x)[j - 1]);
            if e != x {
                let k = choose|k: int| 0 <= k < t.len() && t[k] == e;
                assert(s[k + 1] == e);
            }
        } else {
            assert(insert_sorted(s, x)[0] == s[0]);
        }
        if s.len() > 0 {
            lemma_insert_len(t, x);
        }
    }
}

proof fn lemma_insert_len(s: Seq<Seq<char>>, x: Seq<char>)
    ensures
        insert_sorted(s, x).len() == s.len() + 1,
    decreases s.len(),
{
    if s.len() > 0 && !chars_lt(x, s[0]) {
        lemma_insert_len(s.drop_first(), x);
    }
}

proof fn lemma_singleton_multiset(x: Seq<char>)
    ensures
        seq![x].to_multiset() == vstd::multiset::Multiset::<Seq<char>>::empty().insert(x),
{
    broadcast use vstd::seq_lib::group_seq_properties;
    assert(seq![x] =~= Seq::<Seq<char>>::empty().push(x));
    assert(Seq::<Seq<char>>::empty().to_multiset() =~= vstd::multiset::Multiset::<Seq<char>>::empty());
}

proof fn lemma_insert_sorted_props(s: Seq<Seq<char>>, x: Seq<char>)
    requires
        is_sorted(s),
    ensures
        is_sorted(insert_sorted(s, x)),
        insert_sorted(s, x).to_multiset() =~= s.to_multiset().insert(x),
    decreases s.len(),
{
    broadcast use vstd::multiset::group_multiset_axioms;
    lemma_singleton_multiset(x);
    if s.len() == 0 {
        assert(s.to_multiset() =~= vstd::multiset::Multiset::<Seq<char>>::empty()) by {
            broadcast use vstd::seq_lib::group_seq_properties;
        }
    } else if chars_lt(x, s[0]) {
        let r = seq![x] + s;
        assert forall|i: int, j: int| 0 <= i < j < r.len() implies !chars_lt(
            #[trigger] r[j],
            #[trigger] r[i],
        ) by {
            if i == 0 {
                assert(r[j] == s[j - 1]);
                if chars_lt(s[j - 1], x) {
                    lemma_lt_trans(s[j - 1], x, s[0]);
                    if j - 1 == 0 {
                        lemma_lt_irrefl(s[0]);
                    }
                }
            } else {
                assert(r[i] == s[i - 1]);
                assert(r[j] == s[j - 1]);
            }
        }
        vstd::seq_lib::lemma_multiset_commutative(seq![x], s);
    } else {
        let t = s.drop_first();
        assert(is_sorted(t)) by {
            assert forall|i: int, j: int| 0 <= i < j < t.len() implies !chars_lt(
                #[trigger] t[j],
                #[trigger] t[i],
            ) by {
                assert(t[i] == s[i + 1]);
                assert(t[j] == s[j + 1]);
            }
        }
        lemma_insert_sorted_props(t, x);
        let it = insert_sorted(t, x);
        let r = seq![s[0]] + it;
        assert forall|i: int, j: int| 0 <= i < j < r.len() implies !chars_lt(
            #[trigger] r[j],
            #[trigger] r[i],
        ) by {
            if i == 0 {
                assert(r[j] == it[j - 1]);
                lemma_insert_elems(t, x, j - 1);
                let e = it[j - 1];
                if e != x {
                    let k = choose|k: int| 0 <= k < t.len() && t[k] == e;
                    assert(s[k + 1] == e);
                }
            } else {
                assert(r[i] == it[i - 1]);
                assert(r[j] == it[j - 1]);
            }
        }
        lemma_singleton_multiset(s[0]);
        vstd::seq_lib::lemma_multiset_commutative(seq![s[0]], it);
        vstd::seq_lib::lemma_multiset_commutative(seq![s[0]], t);
        assert(s =~= seq![s[0]] + t);
    }
}

/// The sort puts its input in text order and keeps every element, with its
/// multiplicity.
pub proof fn lemma_sorted_seq_props(s: Seq<Seq<char>>)
    ensures
        is_sorted(sorted_seq(s)),
        sorted_seq(s).to_multiset() == s.to_multiset(),
    decreases s.len(),
{
    broadcast use vstd::seq_lib::group_seq_properties;
    broadcast use vstd::multiset::group_multiset_axioms;
    if s.len() > 0 {
        lemma_sorted_seq_props(s.drop_last());
        lemma_insert_sorted_props(sorted_seq(s.drop_last()), s.last());
        assert(s =~= s.drop_last().push(s.last()));
    } else {
        assert(sorted_seq(s).to_multiset() =~= s.to_multiset());
    }
}

/// Text order is total: two texts neither of which sorts before the other
/// are the same text.
proof fn lemma_lt_total(a: Seq<char>, b: Seq<char>)
    requires
        !chars_lt(a, b),
        !chars_lt(b, a),
    ensures
        a == b,
    decreases a.len(),
{
    if a.len() > 0 && b.len() > 0 {
        if a[0] == b[0] {
            lemma_lt_total(a.drop_first(), b.drop_first());
            assert(a =~= seq![a[0]] + a.drop_first());
            assert(b =~= seq![b[0]] + b.drop_first());
        } else {
            let u = a[0] as u32;
            assert(u == (b[0] as u32));
            vstd::utf8::char_u32_cast(a[0], u);
            vstd::utf8::char_u32_cast(b[0], u);
        }
    } else {
        assert(a =~= b);
    }
}

/// Sorting is canonical: two sorted lists holding the same elements, with
/// the same multiplicities, are the same list.
pub proof fn lemma_sorted_unique(x: Seq<Seq<char>>, y: Seq<Seq<char>>)
    requires
        is_sorted(x),
        is_sorted(y),
        x.to_multiset() == y.to_multiset(),
    ensures
        x == y,
    decreases x.len(),
{
    broadcast use vstd::seq_lib::group_seq_properties;
    broadcast use vstd::multiset::group_multiset_axioms;
    vstd::seq_lib::to_multiset_len(x);
    vstd::seq_lib::to_multiset_len(y);
    if x.len() == 0 {
        assert(x =~= y);
    } else {
        let a = x[0];
        let b = y[0];
        vstd::seq_lib::to_multiset_contains(x, a);
        vstd::seq_lib::to_multiset_contains(y, a);
        vstd::seq_lib::to_multiset_contains(x, b);
        vstd::seq_lib::to_multiset_contains(y, b);
        assert(x.contains(a));
        assert(y.contains(b));
        let j = choose|j: int| 0 <= j < y.len() && y[j] == a;
        let k = choose|k: int| 0 <= k < x.len() && x[k] == b;
        if j > 0 {
            assert(!chars_lt(y[j], y[0]));
        } else {
            lemma_lt_irrefl(a);
        }
        if k > 0 {
            assert(!chars_lt(x[k], x[0]));
        } else {
            lemma_lt_irrefl(b);
        }
        lemma_lt_total(a, b);
        let xd = x.drop_first();
        let yd = y.drop_first();
        assert(x.remove(0) =~= xd);
        assert(y.remove(0) =~= yd);
        vstd::seq_lib::to_multiset_remove(x, 0);
        vstd::seq_lib::to_multiset_remove(y, 0);
        assert forall|i: int, j2: int| 0 <= i < j2 < xd.len() implies !chars_lt(
            #[trigger] xd[j2],
            #[trigger] xd[i],
        ) by {
            assert(xd[i] == x[i + 1]);
            assert(xd[j2] == x[j2 + 1]);
        }
        assert forall|i: int, j2: int| 0 <= i < j2 < yd.len() implies !chars_lt(
            #[trigger] yd[j2],
            #[trigger] yd[i],
        ) by {
            assert(yd[i] == y[i + 1]);
            assert(yd[j2] == y[j2 + 1]);
        }
        lemma_sorted_unique(xd, yd);
        assert(x =~= seq![a] + xd);
        assert(y =~= seq![b] + yd);
    }
}

} // verus!
