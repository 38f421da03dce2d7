//! Why schema normalization ignores formatting: the token scan of a schema
//! text only ever looks forward, so what follows a position decides the
//! tokens from there on. One more white-space character or a comment where
//! the scan passes only adds steps that produce no token, and the case of a
//! letter outside quoted and bracketed tokens is lowered or dropped.

use vstd::prelude::*;

use crate::sqlite::schema::{
    block_end, bracket_end, ident_char, ident_end, lemma_scan_ends, line_end, lowered, normalized_schema,
    quote_char, quote_end, schema_tokens_from,
};
use crate::text::{ascii_lower, char_whitespace};

verus! {

// ── The scan depends only on what follows ───────────────────────────────

proof fn lemma_line_end_shift(p: Seq<char>, r: Seq<char>, k: int)
    requires
        0 <= k,
    ensures
        line_end(p + r, p.len() + k) == p.len() + line_end(r, k),
    decreases r.len() - k,
{
    let s = p + r;
    if k < r.len() {
        assert(s[p.len() + k] == r[k]);
        if r[k] != '\n' {
            lemma_line_end_shift(p, r, k + 1);
        }
    }
}

proof fn lemma_block_end_shift(p: Seq<char>, r: Seq<char>, k: int)
    requires
        0 <= k,
    ensures
        block_end(p + r, p.len() + k) == p.len() + block_end(r, k),
    decreases r.len() - k,
{
    let s = p + r;
    if k + 1 < r.len() {
        assert(s[p.len() + k] == r[k]);
        assert(s[p.len() + k + 1] == r[k + 1]);
        if !(r[k] == '*' && r[k + 1] == '/') {
            lemma_block_end_shift(p, r, k + 1);
        }
    }
}

proof fn lemma_quote_end_shift(p: Seq<char>, r: Seq<char>, k: int, q: char)
    requires
        0 <= k,
    ensures
        quote_end(p + r, p.len() + k, q) == p.len() + quote_end(r, k, q),
    decreases r.len() - k,
{
    let s = p + r;
    if k < r.len() {
        assert(s[p.len() + k] == r[k]);
        if k + 1 < r.len() {
            assert(s[p.len() + k + 1] == r[k + 1]);
        }
        if r[k] == q {
            if k + 1 < r.len() && r[k + 1] == q {
                lemma_quote_end_shift(p, r, k + 2, q);
            }
        } else {
            lemma_quote_end_shift(p, r, k + 1, q);
        }
    }
}

proof fn lemma_bracket_end_shift(p: Seq<char>, r: Seq<char>, k: int)
    requires
        0 <= k,
    ensures
        bracket_end(p + r, p.len() + k) == p.len() + bracket_end(r, k),
    decreases r.len() - k,
{
    let s = p + r;
    if k < r.len() {
        assert(s[p.len() + k] == r[k]);
        if r[k] != ']' {
            lemma_bracket_end_shift(p, r, k + 1);
        }
    }
}

proof fn lemma_ident_end_shift(p: Seq<char>, r: Seq<char>, k: int)
    requires
        0 <= k,
    ensures
        ident_end(p + r, p.len() + k) == p.len() + ident_end(r, k),
    decreases r.len() - k,
{
    let s = p + r;
    if k < r.len() {
        assert(s[p.len() + k] == r[k]);
        if ident_char(r[k]) {
            lemma_ident_end_shift(p, r, k + 1);
        }
    }
}

/// The tokens from a position depend only on the text from there on.
proof fn lemma_tokens_shift(p: Seq<char>, r: Seq<char>, k: int)
    requires
        0 <= k,
    ensures
        schema_tokens_from(p + r, p.len() + k) == schema_tokens_from(r, k),
    decreases r.len() - k,
{
    let s = p + r;
    let o = p.len() as int;
    if k < r.len() {
        lemma_scan_ends(r, k + 1, r[k]);
        if k + 2 <= r.len() {
            lemma_scan_ends(r, k + 2, r[k]);
        }
        let c = r[k];
        assert(s[o + k] == c);
        if k + 1 < r.len() {
            assert(s[o + k + 1] == r[k + 1]);
        }
        if char_whitespace(c) {
            lemma_tokens_shift(p, r, k + 1);
        } else if c == '-' && k + 1 < r.len() && r[k + 1] == '-' {
            lemma_line_end_shift(p, r, k + 2);
            lemma_tokens_shift(p, r, line_end(r, k + 2));
        } else if c == '/' && k + 1 < r.len() && r[k + 1] == '*' {
            lemma_block_end_shift(p, r, k + 2);
            lemma_tokens_shift(p, r, block_end(r, k + 2));
        } else if quote_char(c) {
            let e = quote_end(r, k + 1, c);
            lemma_quote_end_shift(p, r, k + 1, c);
            lemma_tokens_shift(p, r, e);
            assert(s.subrange(o + k, o + e) =~= r.subrange(k, e));
        } else if c == '[' {
            let e = bracket_end(r, k + 1);
            lemma_bracket_end_shift(p, r, k + 1);
            lemma_tokens_shift(p, r, e);
            assert(s.subrange(o + k, o + e) =~= r.subrange(k, e));
        } else if ident_char(c) {
            let e = ident_end(r, k + 1);
            lemma_ident_end_shift(p, r, k + 1);
            lemma_tokens_shift(p, r, e);
            assert(s.subrange(o + k, o + e) =~= r.subrange(k, e));
        } else {
            lemma_tokens_shift(p, r, k + 1);
        }
    }
}


// ── Scanning a text that agrees up to a point ───────────────────────────

proof fn lemma_line_end_agree(s: Seq<char>, t: Seq<char>, k: int)
    requires
        0 <= k,
        line_end(s, k) < s.len(),
        line_end(s, k) < t.len(),
        forall|m: int| k <= m <= line_end(s, k) ==> t[m] == s[m],
    ensures
        line_end(t, k) == line_end(s, k),
    decreases s.len() - k,
{
    if k < s.len() {
        lemma_scan_ends(s, k, ' ');
        assert(t[k] == s[k]);
        if s[k] != '\n' {
            lemma_line_end_agree(s, t, k + 1);
        }
    }
}

proof fn lemma_block_end_agree(s: Seq<char>, t: Seq<char>, k: int)
    requires
        0 <= k,
        block_end(s, k) < s.len(),
        block_end(s, k) <= t.len(),
        forall|m: int| k <= m < block_end(s, k) ==> t[m] == s[m],
    ensures
        block_end(t, k) == block_end(s, k),
    decreases s.len() - k,
{
    if k + 1 < s.len() {
        lemma_scan_ends(s, k + 1, ' ');
        if s[k] == '*' && s[k + 1] == '/' {
            assert(t[k] == s[k]);
            assert(t[k + 1] == s[k + 1]);
        } else {
            if k + 2 <= s.len() {
                lemma_scan_ends(s, k + 2, ' ');
            }
            assert(block_end(s, k + 1) >= k + 2);
            assert(t[k] == s[k]);
            assert(t[k + 1] == s[k + 1]);
            lemma_block_end_agree(s, t, k + 1);
        }
    }
}

proof fn lemma_quote_end_agree(s: Seq<char>, t: Seq<char>, k: int, q: char)
    requires
        0 <= k,
        quote_end(s, k, q) < s.len(),
        quote_end(s, k, q) < t.len(),
        forall|m: int| k <= m < quote_end(s, k, q) ==> t[m] == s[m],
        t[quote_end(s, k, q)] == s[quote_end(s, k, q)] || t[quote_end(s, k, q)] != q,
    ensures
        quote_end(t, k, q) == quote_end(s, k, q),
    decreases s.len() - k,
{
    if k < s.len() {
        if s[k] == q {
            if k + 1 < s.len() && s[k + 1] == q {
                lemma_scan_ends(s, k + 2, q);
                lemma_quote_end_agree(s, t, k + 2, q);
            }
        } else {
            lemma_scan_ends(s, k + 1, q);
            lemma_quote_end_agree(s, t, k + 1, q);
        }
    }
}

proof fn lemma_bracket_end_agree(s: Seq<char>, t: Seq<char>, k: int)
    requires
        0 <= k,
        bracket_end(s, k) < s.len(),
        bracket_end(s, k) <= t.len(),
        forall|m: int| k <= m < bracket_end(s, k) ==> t[m] == s[m],
    ensures
        bracket_end(t, k) == bracket_end(s, k),
    decreases s.len() - k,
{
    if k < s.len() && s[k] != ']' {
        lemma_scan_ends(s, k + 1, ' ');
        lemma_bracket_end_agree(s, t, k + 1);
    }
}

proof fn lemma_ident_end_agree(s: Seq<char>, t: Seq<char>, k: int)
    requires
        0 <= k,
        ident_end(s, k) < t.len(),
        forall|m: int| k <= m < ident_end(s, k) ==> t[m] == s[m],
        !ident_char(t[ident_end(s, k)]),
    ensures
        ident_end(t, k) == ident_end(s, k),
    decreases s.len() - k,
{
    if 0 <= k < s.len() && ident_char(s[k]) {
        lemma_scan_ends(s, k + 1, ' ');
        lemma_ident_end_agree(s, t, k + 1);
    }
}


// ── Boundaries of the scan ───────────────────────────────────────────────

/// Where the scan goes from a position inside the text: past the white
/// space, comment or token that starts there.
pub open spec fn scan_next(s: Seq<char>, i: int) -> int {
    let c = s[i];
    if char_whitespace(c) {
        i + 1
    } else if c == '-' && i + 1 < s.len() && s[i + 1] == '-' {
        line_end(s, i + 2)
    } else if c == '/' && i + 1 < s.len() && s[i + 1] == '*' {
        block_end(s, i + 2)
    } else if quote_char(c) {
        quote_end(s, i + 1, c)
    } else if c == '[' {
        bracket_end(s, i + 1)
    } else if ident_char(c) {
        ident_end(s, i + 1)
    } else {
        i + 1
    }
}

pub proof fn lemma_scan_next_advances(s: Seq<char>, i: int)
    requires
        0 <= i < s.len(),
    ensures
        i < scan_next(s, i) <= s.len(),
{
    lemma_scan_ends(s, i + 1, s[i]);
    if i + 2 <= s.len() {
        lemma_scan_ends(s, i + 2, s[i]);
    }
}

/// Whether the scan from `j` stops at `i`: `i` lies between white space,
/// comments and tokens, not inside one.
pub open spec fn scan_visits(s: Seq<char>, j: int, i: int) -> bool
    decreases s.len() - j,
{
    if j == i {
        true
    } else if j < 0 || j >= s.len() || j > i {
        false
    } else {
        proof {
            lemma_scan_next_advances(s, j);
        }
        scan_visits(s, scan_next(s, j), i)
    }
}

/// `s` with `w` inserted before position `i`.
pub open spec fn inserted(s: Seq<char>, i: int, w: char) -> Seq<char> {
    s.take(i).push(w) + s.skip(i)
}

proof fn lemma_inserted_index(s: Seq<char>, i: int, w: char)
    requires
        0 <= i <= s.len(),
    ensures
        inserted(s, i, w).len() == s.len() + 1,
        inserted(s, i, w)[i] == w,
        forall|m: int| 0 <= m < i ==> #[trigger] inserted(s, i, w)[m] == s[m],
        forall|m: int| i < m <= s.len() ==> #[trigger] inserted(s, i, w)[m] == s[m - 1],
{
}

/// After the inserted character the scan sees the rest of `s` unchanged.
proof fn lemma_tokens_after_insert(s: Seq<char>, i: int, w: char)
    requires
        0 <= i <= s.len(),
    ensures
        schema_tokens_from(inserted(s, i, w), i + 1) == schema_tokens_from(s, i),
{
    let a = s.take(i).push(w);
    let b = s.skip(i);
    lemma_tokens_shift(a, b, 0);
    lemma_tokens_shift(s.take(i), b, 0);
    assert(s.take(i) + b =~= s);
}

proof fn lemma_whitespace_facts(w: char)
    requires
        char_whitespace(w),
    ensures
        !ident_char(w),
        !quote_char(w),
        w != '-' && w != '*' && w != '/' && w != '[' && w != ']',
{
    if (w as u32) < 128 {
        assert(w == '\t' || w == '\n' || w == '\x0B' || w == '\x0C' || w == '\r' || w == ' ');
    }
}

/// Whether a quoted token whose body starts at `k` is closed by its quote
/// character before the end of the text (a doubled quote stands for one
/// quote inside the token).
pub open spec fn quote_closed(s: Seq<char>, k: int, q: char) -> bool
    decreases s.len() - k,
{
    if k < 0 || k >= s.len() {
        false
    } else if s[k] == q {
        if k + 1 < s.len() && s[k + 1] == q {
            quote_closed(s, k + 2, q)
        } else {
            true
        }
    } else {
        quote_closed(s, k + 1, q)
    }
}

/// Whether a bracketed name whose body starts at `k` is closed by `]`.
pub open spec fn bracket_closed(s: Seq<char>, k: int) -> bool {
    k <= bracket_end(s, k) - 1 && s[bracket_end(s, k) - 1] == ']'
}

/// Whether a quoted or bracketed token starting at `b` runs to the end of
/// the text without being closed.
pub open spec fn unclosed_token_at(s: Seq<char>, b: int) -> bool {
    ||| quote_char(s[b]) && !quote_closed(s, b + 1, s[b])
    ||| s[b] == '[' && !bracket_closed(s, b + 1)
}

/// Whether the scan from `j` ends inside a quoted or bracketed token that
/// is never closed.
pub open spec fn ends_in_unclosed_token(s: Seq<char>, j: int) -> bool {
    exists|b: int|
        #[trigger] scan_visits(s, j, b) && 0 <= b < s.len() && scan_next(s, b) == s.len()
            && unclosed_token_at(s, b)
}

proof fn lemma_block_end_push(s: Seq<char>, k: int, w: char)
    requires
        0 <= k <= s.len(),
        block_end(s, k) == s.len(),
        w != '/',
    ensures
        s.len() <= block_end(s.push(w), k) <= s.len() + 1,
    decreases s.len() - k,
{
    let t = s.push(w);
    lemma_scan_ends(t, k, ' ');
    if k + 1 < s.len() {
        assert(t[k] == s[k] && t[k + 1] == s[k + 1]);
        if !(s[k] == '*' && s[k + 1] == '/') {
            lemma_block_end_push(s, k + 1, w);
        }
    } else if k + 1 == s.len() {
        assert(t[k + 1] == w);
        lemma_scan_ends(t, k + 1, ' ');
    }
}

proof fn lemma_quote_end_push(s: Seq<char>, k: int, q: char, w: char)
    requires
        0 <= k,
        quote_closed(s, k, q),
        w != q,
    ensures
        quote_end(s.push(w), k, q) == quote_end(s, k, q),
    decreases s.len() - k,
{
    let t = s.push(w);
    if k < s.len() {
        assert(t[k] == s[k]);
        if k + 1 < s.len() {
            assert(t[k + 1] == s[k + 1]);
        } else {
            assert(t[k + 1] == w);
        }
        if s[k] == q {
            if k + 1 < s.len() && s[k + 1] == q {
                lemma_quote_end_push(s, k + 2, q, w);
            }
        } else {
            lemma_quote_end_push(s, k + 1, q, w);
        }
    }
}

proof fn lemma_bracket_end_push(s: Seq<char>, k: int, w: char)
    requires
        0 <= k,
        bracket_closed(s, k),
    ensures
        bracket_end(s.push(w), k) == bracket_end(s, k),
    decreases s.len() - k,
{
    let t = s.push(w);
    lemma_scan_ends(s, k, ' ');
    if k < s.len() {
        assert(t[k] == s[k]);
        if s[k] != ']' {
            lemma_scan_ends(s, k + 1, ' ');
            lemma_bracket_end_push(s, k + 1, w);
        }
    }
}

/// Past the end of `s`, a text that only adds white space has no tokens.
proof fn lemma_no_tokens_past_end(s: Seq<char>, w: char, x: int)
    requires
        s.len() <= x <= s.len() + 1,
        char_whitespace(w),
    ensures
        schema_tokens_from(s.push(w), x) == Seq::<Seq<char>>::empty(),
{
    lemma_whitespace_facts(w);
    let t = s.push(w);
    if x == s.len() {
        assert(t[x] == w);
        assert(schema_tokens_from(t, x) == schema_tokens_from(t, x + 1));
    }
}

/// The tokens from a boundary at or before `i` are those of `s`.
proof fn lemma_insert_agrees(s: Seq<char>, i: int, w: char, j: int)
    requires
        0 <= j <= i <= s.len(),
        scan_visits(s, j, i),
        char_whitespace(w),
        i < s.len() || !ends_in_unclosed_token(s, j),
    ensures
        schema_tokens_from(inserted(s, i, w), j) == schema_tokens_from(s, j),
    decreases i - j,
{
    let t = inserted(s, i, w);
    lemma_inserted_index(s, i, w);
    lemma_whitespace_facts(w);
    if j == i {
        lemma_tokens_after_insert(s, i, w);
        assert(schema_tokens_from(t, i) == schema_tokens_from(t, i + 1));
    } else {
        lemma_scan_next_advances(s, j);
        let n = scan_next(s, j);
        assert(scan_visits(s, n, i));
        assert(n <= i);
        let c = s[j];
        assert(t[j] == c);
        lemma_scan_ends(s, j + 1, c);
        if j + 2 <= s.len() {
            lemma_scan_ends(s, j + 2, c);
        }
        if j + 1 < i {
            assert(t[j + 1] == s[j + 1]);
        }
        assert forall|b: int| #[trigger] scan_visits(s, n, b) implies scan_visits(s, j, b) by {
            if n <= b {
                assert(scan_visits(s, j, b) == scan_visits(s, n, b));
            }
        }
        if char_whitespace(c) {
            lemma_insert_agrees(s, i, w, j + 1);
        } else if c == '-' && j + 1 < s.len() && s[j + 1] == '-' {
            assert(t[j + 1] == '-');
            if n < i {
                lemma_line_end_agree(s, t, j + 2);
                lemma_insert_agrees(s, i, w, n);
            } else {
                lemma_line_end_to_insert(s, i, w, j + 2);
                if w == '\n' {
                    lemma_insert_agrees(s, i, w, i);
                } else {
                    lemma_tokens_after_insert(s, i, w);
                }
            }
        } else if c == '/' && j + 1 < s.len() && s[j + 1] == '*' {
            assert(t[j + 1] == '*');
            if n < s.len() {
                lemma_block_end_agree(s, t, j + 2);
                lemma_insert_agrees(s, i, w, n);
            } else {
                assert(t =~= s.push(w));
                lemma_block_end_push(s, j + 2, w);
                lemma_no_tokens_past_end(s, w, block_end(t, j + 2));
                lemma_no_tokens_past_end(s, w, s.len() as int);
                assert(schema_tokens_from(s, s.len() as int) == Seq::<Seq<char>>::empty());
            }
        } else if quote_char(c) {
            if n < s.len() {
                lemma_quote_end_agree(s, t, j + 1, c);
            } else {
                assert(t =~= s.push(w));
                assert(scan_visits(s, j, j));
                lemma_quote_end_push(s, j + 1, c, w);
            }
            assert(t.subrange(j, n) =~= s.subrange(j, n));
            lemma_insert_agrees(s, i, w, n);
        } else if c == '[' {
            if n < s.len() {
                lemma_bracket_end_agree(s, t, j + 1);
            } else {
                assert(t =~= s.push(w));
                assert(scan_visits(s, j, j));
                lemma_bracket_end_push(s, j + 1, w);
            }
            assert(t.subrange(j, n) =~= s.subrange(j, n));
            lemma_insert_agrees(s, i, w, n);
        } else if ident_char(c) {
            if n < i {
                lemma_ident_end_stops(s, j + 1);
                assert(t[n] == s[n]);
            }
            lemma_ident_end_agree(s, t, j + 1);
            assert(t.subrange(j, n) =~= s.subrange(j, n));
            lemma_insert_agrees(s, i, w, n);
        } else {
            lemma_insert_agrees(s, i, w, j + 1);
        }
    }
}

proof fn lemma_line_end_stops(s: Seq<char>, k: int)
    requires
        0 <= k,
        line_end(s, k) < s.len(),
    ensures
        s[line_end(s, k)] == '\n',
    decreases s.len() - k,
{
    if k < s.len() && s[k] != '\n' {
        lemma_line_end_stops(s, k + 1);
    }
}

proof fn lemma_ident_end_stops(s: Seq<char>, k: int)
    requires
        0 <= k,
        ident_end(s, k) < s.len(),
    ensures
        !ident_char(s[ident_end(s, k)]),
    decreases s.len() - k,
{
    if 0 <= k < s.len() && ident_char(s[k]) {
        lemma_ident_end_stops(s, k + 1);
    }
}

/// A line comment that ends at the insertion point ends at the inserted
/// line feed, or just after the inserted character at the original one.
proof fn lemma_line_end_to_insert(s: Seq<char>, i: int, w: char, k: int)
    requires
        0 <= k <= i <= s.len(),
        line_end(s, k) == i,
        char_whitespace(w),
    ensures
        line_end(inserted(s, i, w), k) == if w == '\n' {
            i
        } else {
            i + 1
        },
    decreases i - k,
{
    let t = inserted(s, i, w);
    lemma_inserted_index(s, i, w);
    if k < i {
        lemma_scan_ends(s, k + 1, ' ');
        assert(s[k] != '\n');
        assert(t[k] == s[k]);
        lemma_line_end_to_insert(s, i, w, k + 1);
        assert(line_end(t, k) == line_end(t, k + 1));
    } else if i < s.len() {
        lemma_scan_ends(s, i + 1, ' ');
        assert(s[i] == '\n');
        if w != '\n' {
            assert(t[i + 1] == s[i]);
            assert(line_end(t, i + 1) == i + 1);
            assert(line_end(t, i) == line_end(t, i + 1));
        }
    } else if w != '\n' {
        assert(line_end(t, i + 1) == i + 1);
        assert(line_end(t, i) == line_end(t, i + 1));
    }
}

/// Normalization ignores formatting: one more white-space character
/// at any point where the token scan passes leaves the normalized schema
/// unchanged; at the very end of the text, unless the text ends inside a
/// quoted or bracketed token that is never closed (the character would
/// join that token).
pub proof fn lemma_whitespace_insertion_ignored(s: Seq<char>, i: int, w: char)
    requires
        0 <= i <= s.len(),
        scan_visits(s, 0, i),
        char_whitespace(w),
        i < s.len() || !ends_in_unclosed_token(s, 0),
    ensures
        normalized_schema(inserted(s, i, w)) == normalized_schema(s),
{
    lemma_insert_agrees(s, i, w, 0);
}


// ── Scans that agree up to a boundary ───────────────────────────────────

/// An ASCII letter.
pub open spec fn ascii_letter(c: char) -> bool {
    ('a' <= c && c <= 'z') || ('A' <= c && c <= 'Z')
}

/// Characters the scan cannot tell apart when it looks one position ahead:
/// the same character, or two ASCII letters.
pub open spec fn lookahead_alike(x: char, y: char) -> bool {
    x == y || (ascii_letter(x) && ascii_letter(y))
}

proof fn lemma_ascii_letter_facts(c: char)
    requires
        ascii_letter(c),
    ensures
        ident_char(c),
        !char_whitespace(c),
        !quote_char(c),
        c != '-' && c != '*' && c != '/' && c != '[' && c != '\n',
        ascii_letter(ascii_lower(c)),
{
    assert((c as u32) < 128);
}

/// Two texts that agree before a boundary `b` of the scan of `s`, and whose
/// characters at `b` look alike to the scan, have the same tokens from any
/// earlier boundary on, as soon as they have them from `b` on.
proof fn lemma_prefix_agrees(s: Seq<char>, t: Seq<char>, b: int, j: int)
    requires
        0 <= j <= b < s.len(),
        b < t.len(),
        scan_visits(s, j, b),
        forall|m: int| 0 <= m < b ==> t[m] == s[m],
        lookahead_alike(s[b], t[b]),
        schema_tokens_from(t, b) == schema_tokens_from(s, b),
    ensures
        schema_tokens_from(t, j) == schema_tokens_from(s, j),
    decreases b - j,
{
    if j < b {
        lemma_scan_next_advances(s, j);
        let n = scan_next(s, j);
        assert(scan_visits(s, n, b));
        assert(n <= b);
        let c = s[j];
        assert(t[j] == c);
        lemma_scan_ends(s, j + 1, c);
        if j + 2 <= s.len() {
            lemma_scan_ends(s, j + 2, c);
        }
        if j + 1 < b {
            assert(t[j + 1] == s[j + 1]);
        } else if s[b] != t[b] {
            lemma_ascii_letter_facts(s[b]);
            lemma_ascii_letter_facts(t[b]);
        }
        if char_whitespace(c) {
            lemma_prefix_agrees(s, t, b, j + 1);
        } else if c == '-' && j + 1 < s.len() && s[j + 1] == '-' {
            assert(t[j + 1] == '-');
            lemma_line_end_stops(s, j + 2);
            if n == b && s[b] != t[b] {
                lemma_ascii_letter_facts(s[b]);
            }
            assert forall|m: int| j + 2 <= m <= n implies t[m] == s[m] by {
                if m == b && s[b] != t[b] {
                    lemma_ascii_letter_facts(s[b]);
                }
            }
            lemma_line_end_agree(s, t, j + 2);
            lemma_prefix_agrees(s, t, b, n);
        } else if c == '/' && j + 1 < s.len() && s[j + 1] == '*' {
            assert(t[j + 1] == '*');
            lemma_block_end_agree(s, t, j + 2);
            lemma_prefix_agrees(s, t, b, n);
        } else if quote_char(c) {
            if n == b && s[b] != t[b] {
                lemma_ascii_letter_facts(t[b]);
            }
            lemma_quote_end_agree(s, t, j + 1, c);
            assert(t.subrange(j, n) =~= s.subrange(j, n));
            lemma_prefix_agrees(s, t, b, n);
        } else if c == '[' {
            lemma_bracket_end_agree(s, t, j + 1);
            assert(t.subrange(j, n) =~= s.subrange(j, n));
            lemma_prefix_agrees(s, t, b, n);
        } else if ident_char(c) {
            lemma_ident_end_stops(s, j + 1);
            if n < b {
                assert(t[n] == s[n]);
            } else if s[b] != t[b] {
                lemma_ascii_letter_facts(s[b]);
            }
            lemma_ident_end_agree(s, t, j + 1);
            assert(t.subrange(j, n) =~= s.subrange(j, n));
            lemma_prefix_agrees(s, t, b, n);
        } else {
            lemma_prefix_agrees(s, t, b, j + 1);
        }
    }
}

// ── Letter case ──────────────────────────────────────────────────────────

proof fn lemma_ident_end_update(s: Seq<char>, k: int, i: int, c2: char)
    requires
        0 <= k,
        0 <= i < s.len(),
        ident_char(s[i]),
        ident_char(c2),
    ensures
        ident_end(s.update(i, c2), k) == ident_end(s, k),
    decreases s.len() - k,
{
    let t = s.update(i, c2);
    if 0 <= k < s.len() && ident_char(s[k]) {
        assert(ident_char(t[k]));
        lemma_ident_end_update(s, k + 1, i, c2);
    } else if 0 <= k < s.len() {
        assert(k != i);
        assert(t[k] == s[k]);
    }
}

proof fn lemma_line_end_update(s: Seq<char>, k: int, i: int, c2: char)
    requires
        0 <= k,
        0 <= i < s.len(),
        s[i] != '\n',
        c2 != '\n',
    ensures
        line_end(s.update(i, c2), k) == line_end(s, k),
    decreases s.len() - k,
{
    let t = s.update(i, c2);
    if k < s.len() {
        assert(t[k] == '\n' <==> s[k] == '\n');
        if s[k] != '\n' {
            lemma_line_end_update(s, k + 1, i, c2);
        }
    }
}

proof fn lemma_block_end_update(s: Seq<char>, k: int, i: int, c2: char)
    requires
        0 <= k,
        0 <= i < s.len(),
        s[i] != '*' && s[i] != '/',
        c2 != '*' && c2 != '/',
    ensures
        block_end(s.update(i, c2), k) == block_end(s, k),
    decreases s.len() - k,
{
    let t = s.update(i, c2);
    if k + 1 < s.len() {
        assert(t[k] == '*' <==> s[k] == '*');
        assert(t[k + 1] == '/' <==> s[k + 1] == '/');
        if !(s[k] == '*' && s[k + 1] == '/') {
            lemma_block_end_update(s, k + 1, i, c2);
        }
    }
}

/// Normalization ignores the case of keywords, names and comments:
/// changing an ASCII letter to its other case (or keeping it) anywhere in
/// the step of the scan at boundary `j`, unless that step is a quoted or
/// bracketed token, leaves the normalized schema unchanged. Letters inside
/// quoted and bracketed tokens are kept verbatim.
pub proof fn lemma_letter_case_ignored(s: Seq<char>, j: int, i: int, c2: char)
    requires
        0 <= j <= i < s.len(),
        scan_visits(s, 0, j),
        i < scan_next(s, j),
        !quote_char(s[j]) && s[j] != '[',
        ascii_letter(s[i]),
        ascii_letter(c2),
        ascii_lower(c2) == ascii_lower(s[i]),
    ensures
        normalized_schema(s.update(i, c2)) == normalized_schema(s),
{
    let t = s.update(i, c2);
    lemma_ascii_letter_facts(s[i]);
    lemma_ascii_letter_facts(c2);
    lemma_scan_next_advances(s, j);
    lemma_scan_ends(s, j + 1, ' ');
    if j + 2 <= s.len() {
        lemma_scan_ends(s, j + 2, ' ');
    }
    let e = scan_next(s, j);
    let x = s[j];
    if j < i {
        assert(t[j] == x);
    }
    if j + 1 < s.len() && j + 1 != i {
        assert(t[j + 1] == s[j + 1]);
    }
    lemma_tokens_shift(t.take(e), t.skip(e), 0);
    lemma_tokens_shift(s.take(e), s.skip(e), 0);
    assert(t.take(e) + t.skip(e) =~= t);
    assert(s.take(e) + s.skip(e) =~= s);
    assert(t.skip(e) =~= s.skip(e));
    assert(schema_tokens_from(t, e) == schema_tokens_from(s, e));
    if char_whitespace(x) {
        lemma_ascii_letter_facts(x);
        assert(false);
    } else if x == '-' && j + 1 < s.len() && s[j + 1] == '-' {
        lemma_line_end_update(s, j + 2, i, c2);
        assert(i >= j + 2);
    } else if x == '/' && j + 1 < s.len() && s[j + 1] == '*' {
        lemma_block_end_update(s, j + 2, i, c2);
        assert(i >= j + 2);
    } else if ident_char(x) {
        lemma_ident_end_update(s, j + 1, i, c2);
        assert(t[j] == s[j] || (i == j && t[j] == c2));
        assert(ident_char(t[j]) && !char_whitespace(t[j]));
        assert(!quote_char(t[j]) && t[j] != '[' && t[j] != '-' && t[j] != '/') by {
            if i == j {
                lemma_ascii_letter_facts(c2);
            }
        }
        assert(lowered(t.subrange(j, e)) =~= lowered(s.subrange(j, e)));
    } else {
        lemma_ascii_letter_facts(x);
        assert(false);
    }
    assert(schema_tokens_from(t, j) == schema_tokens_from(s, j));
    assert forall|m: int| 0 <= m < j implies t[m] == s[m] by {}
    lemma_prefix_agrees(s, t, j, 0);
}

// ── Comments ─────────────────────────────────────────────────────────────

/// A line comment: `--`, then anything but a line feed, then a line feed.
pub open spec fn line_comment(c: Seq<char>) -> bool {
    &&& c.len() >= 3
    &&& c[0] == '-' && c[1] == '-'
    &&& c.last() == '\n'
    &&& forall|k: int| 2 <= k < c.len() - 1 ==> c[k] != '\n'
}

/// A block comment: `/*`, then text without `*/`, then `*/`.
pub open spec fn block_comment(c: Seq<char>) -> bool {
    &&& c.len() >= 4
    &&& c[0] == '/' && c[1] == '*'
    &&& c[c.len() - 2] == '*' && c[c.len() - 1] == '/'
    &&& forall|k: int| 2 <= k < c.len() - 2 ==> !(#[trigger] c[k] == '*' && c[k + 1] == '/')
}

proof fn lemma_line_end_at(r: Seq<char>, k: int, e: int)
    requires
        0 <= k <= e < r.len(),
        r[e] == '\n',
        forall|m: int| k <= m < e ==> r[m] != '\n',
    ensures
        line_end(r, k) == e,
    decreases e - k,
{
    if k < e {
        lemma_line_end_at(r, k + 1, e);
    }
}

proof fn lemma_block_end_at(r: Seq<char>, k: int, e: int)
    requires
        0 <= k <= e - 2,
        e <= r.len(),
        r[e - 2] == '*' && r[e - 1] == '/',
        forall|m: int| k <= m < e - 2 ==> !(#[trigger] r[m] == '*' && r[m + 1] == '/'),
    ensures
        block_end(r, k) == e,
    decreases e - k,
{
    if k < e - 2 {
        lemma_block_end_at(r, k + 1, e);
    }
}

/// A block comment whose body starts at `k` is closed by `*/`.
pub open spec fn block_closed(s: Seq<char>, k: int) -> bool {
    k + 2 <= block_end(s, k) && s[block_end(s, k) - 2] == '*' && s[block_end(s, k) - 1] == '/'
}

/// Whether the step of the scan at boundary `p` ends before a comment put
/// right after it and cannot reach into it: a quoted or bracketed token or
/// a block comment must be closed, a line comment must not end inside the
/// comment, and a `-` must not meet the `--` of a line comment.
pub open spec fn comment_fits_after(s: Seq<char>, p: int, c: Seq<char>) -> bool {
    let x = s[p];
    if char_whitespace(x) {
        true
    } else if x == '-' && p + 1 < s.len() && s[p + 1] == '-' {
        forall|k: int| 0 <= k < c.len() - 1 ==> c[k] != '\n'
    } else if x == '/' && p + 1 < s.len() && s[p + 1] == '*' {
        block_closed(s, p + 2)
    } else if quote_char(x) {
        quote_closed(s, p + 1, x)
    } else if x == '[' {
        bracket_closed(s, p + 1)
    } else if ident_char(x) {
        true
    } else {
        x != '-' || block_comment(c)
    }
}

/// `s` with the text `c` put before position `i`.
pub open spec fn with_comment(s: Seq<char>, i: int, c: Seq<char>) -> Seq<char> {
    s.take(i) + c + s.skip(i)
}

proof fn lemma_with_comment_index(s: Seq<char>, i: int, c: Seq<char>)
    requires
        0 <= i <= s.len(),
    ensures
        with_comment(s, i, c).len() == s.len() + c.len(),
        forall|m: int| 0 <= m < i ==> #[trigger] with_comment(s, i, c)[m] == s[m],
        forall|m: int| 0 <= m < c.len() ==> #[trigger] with_comment(s, i, c)[i + m] == c[m],
        forall|m: int| i <= m < s.len() ==> #[trigger] with_comment(s, i, c)[m + c.len()] == s[m],
{
    let t = with_comment(s, i, c);
    assert forall|m: int| 0 <= m < c.len() implies #[trigger] t[i + m] == c[m] by {}
    assert forall|m: int| i <= m < s.len() implies #[trigger] t[m + c.len()] == s[m] by {}
}

proof fn lemma_comment_chars(c: Seq<char>)
    requires
        line_comment(c) || block_comment(c),
    ensures
        c.len() >= 3,
        c[0] == '-' || c[0] == '/',
        !char_whitespace(c[0]) && !ident_char(c[0]) && !quote_char(c[0]),
        c[0] != '*' && c[0] != '\n',
        line_comment(c) ==> c[0] == '-' && c[1] == '-',
        block_comment(c) ==> c[0] == '/' && c[1] == '*',
{
    assert(('-' as u32) < 128 && ('/' as u32) < 128);
}

proof fn lemma_line_end_before(s: Seq<char>, k: int)
    requires
        0 <= k,
    ensures
        forall|m: int| k <= m < line_end(s, k) ==> s[m] != '\n',
    decreases s.len() - k,
{
    if k < s.len() && s[k] != '\n' {
        lemma_line_end_before(s, k + 1);
    }
}

proof fn lemma_line_end_none(r: Seq<char>, k: int)
    requires
        0 <= k <= r.len(),
        forall|m: int| k <= m < r.len() ==> r[m] != '\n',
    ensures
        line_end(r, k) == r.len(),
    decreases r.len() - k,
{
    if k < r.len() {
        lemma_line_end_none(r, k + 1);
    }
}

proof fn lemma_block_end_closed_agree(s: Seq<char>, t: Seq<char>, k: int)
    requires
        0 <= k,
        block_closed(s, k),
        block_end(s, k) <= t.len(),
        forall|m: int| k <= m < block_end(s, k) ==> t[m] == s[m],
    ensures
        block_end(t, k) == block_end(s, k),
    decreases s.len() - k,
{
    lemma_scan_ends(s, k, ' ');
    if k + 1 < s.len() {
        assert(t[k] == s[k] && t[k + 1] == s[k + 1]);
        if !(s[k] == '*' && s[k + 1] == '/') {
            lemma_block_end_closed_agree(s, t, k + 1);
        }
    }
}

proof fn lemma_quote_end_closed_agree(s: Seq<char>, t: Seq<char>, k: int, q: char)
    requires
        0 <= k,
        quote_closed(s, k, q),
        quote_end(s, k, q) <= t.len(),
        forall|m: int| k <= m < quote_end(s, k, q) ==> t[m] == s[m],
        quote_end(s, k, q) < t.len() ==> t[quote_end(s, k, q)] != q,
    ensures
        quote_end(t, k, q) == quote_end(s, k, q),
    decreases s.len() - k,
{
    lemma_scan_ends(s, k, q);
    if k < s.len() {
        if s[k] == q {
            if k + 1 < s.len() && s[k + 1] == q {
                lemma_scan_ends(s, k + 2, q);
                assert(t[k] == s[k] && t[k + 1] == s[k + 1]);
                lemma_quote_end_closed_agree(s, t, k + 2, q);
            } else {
                assert(t[k] == s[k]);
            }
        } else {
            lemma_scan_ends(s, k + 1, q);
            assert(t[k] == s[k]);
            lemma_quote_end_closed_agree(s, t, k + 1, q);
        }
    }
}

proof fn lemma_bracket_end_closed_agree(s: Seq<char>, t: Seq<char>, k: int)
    requires
        0 <= k,
        bracket_closed(s, k),
        bracket_end(s, k) <= t.len(),
        forall|m: int| k <= m < bracket_end(s, k) ==> t[m] == s[m],
    ensures
        bracket_end(t, k) == bracket_end(s, k),
    decreases s.len() - k,
{
    lemma_scan_ends(s, k, ' ');
    if k < s.len() {
        assert(t[k] == s[k]);
        if s[k] != ']' {
            lemma_scan_ends(s, k + 1, ' ');
            lemma_bracket_end_closed_agree(s, t, k + 1);
        }
    }
}

/// From the insertion point on, the comment vanishes and the scan sees
/// the rest of `s`.
proof fn lemma_comment_skipped(s: Seq<char>, i: int, c: Seq<char>)
    requires
        0 <= i <= s.len(),
        line_comment(c) || block_comment(c),
    ensures
        schema_tokens_from(with_comment(s, i, c), i) == schema_tokens_from(s, i),
        schema_tokens_from(with_comment(s, i, c), i + c.len()) == schema_tokens_from(s, i),
{
    let t = with_comment(s, i, c);
    let l = c.len() as int;
    lemma_with_comment_index(s, i, c);
    lemma_comment_chars(c);
    assert(t[i] == c[0]);
    assert(t[i + 1] == c[1]);
    if line_comment(c) {
        assert forall|m: int| i + 2 <= m < i + l - 1 implies #[trigger] t[m] != '\n' by {
            assert(t[i + (m - i)] == c[m - i]);
        }
        assert(t[i + (l - 1)] == c[l - 1]);
        lemma_line_end_at(t, i + 2, i + l - 1);
        lemma_whitespace_facts('\n');
        assert(schema_tokens_from(t, i + l - 1) == schema_tokens_from(t, i + l));
    } else {
        assert forall|m: int| i + 2 <= m < i + l - 2 implies !(#[trigger] t[m] == '*' && t[m + 1] == '/') by {
            assert(t[i + (m - i)] == c[m - i]);
            assert(t[i + (m + 1 - i)] == c[m + 1 - i]);
        }
        assert(t[i + (l - 2)] == c[l - 2]);
        assert(t[i + (l - 1)] == c[l - 1]);
        lemma_block_end_at(t, i + 2, i + l);
    }
    assert(schema_tokens_from(t, i) == schema_tokens_from(t, i + l));
    lemma_tokens_shift(s.take(i) + c, s.skip(i), 0);
    lemma_tokens_shift(s.take(i), s.skip(i), 0);
    assert(s.take(i) + s.skip(i) =~= s);
}

/// The step of the scan at `p` reads the same with the comment put right
/// after it, and the tokens from `p` on are those of `s`.
proof fn lemma_step_before_comment(s: Seq<char>, p: int, c: Seq<char>)
    requires
        0 <= p < s.len(),
        line_comment(c) || block_comment(c),
        comment_fits_after(s, p, c),
    ensures
        schema_tokens_from(with_comment(s, scan_next(s, p), c), p) == schema_tokens_from(s, p),
{
    lemma_scan_next_advances(s, p);
    let i = scan_next(s, p);
    let t = with_comment(s, i, c);
    let l = c.len() as int;
    lemma_with_comment_index(s, i, c);
    lemma_comment_chars(c);
    lemma_comment_skipped(s, i, c);
    lemma_scan_ends(s, p + 1, s[p]);
    if p + 2 <= s.len() {
        lemma_scan_ends(s, p + 2, s[p]);
    }
    let x = s[p];
    assert(t[p] == x);
    assert(t[i] == c[0]);
    if p + 1 < i {
        assert(t[p + 1] == s[p + 1]);
    }
    if char_whitespace(x) {
        assert(schema_tokens_from(t, p) == schema_tokens_from(t, p + 1));
    } else if x == '-' && p + 1 < s.len() && s[p + 1] == '-' {
        lemma_line_end_before(s, p + 2);
        if line_comment(c) {
            assert forall|m: int| p + 2 <= m < i + l - 1 implies t[m] != '\n' by {
                if m >= i {
                    assert(t[i + (m - i)] == c[m - i]);
                }
            }
            assert(t[i + (l - 1)] == c[l - 1]);
            lemma_line_end_at(t, p + 2, i + l - 1);
            lemma_whitespace_facts('\n');
            assert(schema_tokens_from(t, i + l - 1) == schema_tokens_from(t, i + l));
        } else {
            assert(c[l - 1] == '/');
            assert forall|m: int| p + 2 <= m < i + l implies t[m] != '\n' by {
                if m >= i {
                    assert(t[i + (m - i)] == c[m - i]);
                }
            }
            if i < s.len() {
                lemma_line_end_stops(s, p + 2);
                assert(t[i + l] == s[i]);
                lemma_line_end_at(t, p + 2, i + l);
            } else {
                lemma_line_end_none(t, p + 2);
            }
        }
    } else if x == '/' && p + 1 < s.len() && s[p + 1] == '*' {
        lemma_block_end_closed_agree(s, t, p + 2);
    } else if quote_char(x) {
        lemma_quote_end_closed_agree(s, t, p + 1, x);
        assert(t.subrange(p, i) =~= s.subrange(p, i));
    } else if x == '[' {
        lemma_bracket_end_closed_agree(s, t, p + 1);
        assert(t.subrange(p, i) =~= s.subrange(p, i));
    } else if ident_char(x) {
        lemma_ident_end_agree(s, t, p + 1);
        assert(t.subrange(p, i) =~= s.subrange(p, i));
    } else {
        assert(i == p + 1);
        assert(schema_tokens_from(t, p) == seq![seq![x]] + schema_tokens_from(t, p + 1));
    }
}

/// Normalization ignores comments: a line comment or a block comment put
/// at the start of the text, or where a step of the token scan ends (right
/// after the white space, comment or token at boundary `p`) and the comment
/// fits after that step, leaves the normalized schema unchanged.
pub proof fn lemma_comment_insertion_ignored(s: Seq<char>, i: int, p: int, c: Seq<char>)
    requires
        0 <= i <= s.len(),
        line_comment(c) || block_comment(c),
        i == 0 || (0 <= p < s.len() && scan_visits(s, 0, p) && scan_next(s, p) == i
            && comment_fits_after(s, p, c)),
    ensures
        normalized_schema(with_comment(s, i, c)) == normalized_schema(s),
{
    let t = with_comment(s, i, c);
    lemma_with_comment_index(s, i, c);
    if i == 0 {
        lemma_comment_skipped(s, i, c);
    } else {
        lemma_scan_next_advances(s, p);
        lemma_step_before_comment(s, p, c);
        assert forall|m: int| 0 <= m < p implies t[m] == s[m] by {}
        assert(t[p] == s[p]);
        lemma_prefix_agrees(s, t, p, 0);
    }
}

// ── Formatting as a whole ───────────────────────────────────────────────

/// `b` is `a` with the white-space character `w` put at `i`, where the
/// scan of `a` passes (at the very end, not into a token that is never
/// closed).
pub open spec fn whitespace_edit(a: Seq<char>, b: Seq<char>, i: int, w: char) -> bool {
    &&& 0 <= i <= a.len()
    &&& scan_visits(a, 0, i)
    &&& char_whitespace(w)
    &&& i < a.len() || !ends_in_unclosed_token(a, 0)
    &&& b == inserted(a, i, w)
}

/// `b` is `a` with its ASCII letter at `i`, inside the step of the scan at
/// boundary `j` that is no quoted or bracketed token, put in case `c2`.
pub open spec fn letter_case_edit(a: Seq<char>, b: Seq<char>, j: int, i: int, c2: char) -> bool {
    &&& 0 <= j <= i < a.len()
    &&& scan_visits(a, 0, j)
    &&& i < scan_next(a, j)
    &&& !quote_char(a[j]) && a[j] != '['
    &&& ascii_letter(a[i]) && ascii_letter(c2) && ascii_lower(c2) == ascii_lower(a[i])
    &&& b == a.update(i, c2)
}

/// `b` is `a` with the comment `c` put at `i`: the start of the text, or
/// where the step of the scan at boundary `p` ends, with `c` fitting after
/// that step.
pub open spec fn comment_edit(a: Seq<char>, b: Seq<char>, i: int, p: int, c: Seq<char>) -> bool {
    &&& 0 <= i <= a.len()
    &&& line_comment(c) || block_comment(c)
    &&& i == 0 || (0 <= p < a.len() && scan_visits(a, 0, p) && scan_next(a, p) == i
        && comment_fits_after(a, p, c))
    &&& b == with_comment(a, i, c)
}

/// `b` is `a` with one white-space character added where it fits.
pub open spec fn whitespace_added(a: Seq<char>, b: Seq<char>) -> bool {
    exists|i: int, w: char| #[trigger] whitespace_edit(a, b, i, w)
}

/// `b` is `a` with the case of one letter changed where case is ignored.
pub open spec fn letter_case_changed(a: Seq<char>, b: Seq<char>) -> bool {
    exists|j: int, i: int, c2: char| #[trigger] letter_case_edit(a, b, j, i, c2)
}

/// `b` is `a` with one comment added where it fits.
pub open spec fn comment_added(a: Seq<char>, b: Seq<char>) -> bool {
    exists|i: int, p: int, c: Seq<char>| #[trigger] comment_edit(a, b, i, p, c)
}

/// One formatting edit, either way: white space added or removed, a
/// letter's case changed, a comment added or removed.
pub open spec fn formatting_step(a: Seq<char>, b: Seq<char>) -> bool {
    ||| whitespace_added(a, b)
    ||| whitespace_added(b, a)
    ||| letter_case_changed(a, b)
    ||| letter_case_changed(b, a)
    ||| comment_added(a, b)
    ||| comment_added(b, a)
}

/// A chain of texts, each one formatting edit away from the one before.
pub open spec fn formatting_chain(texts: Seq<Seq<char>>) -> bool {
    forall|k: int| 0 <= k < texts.len() - 1 ==> #[trigger] formatting_step(texts[k], texts[k + 1])
}

proof fn lemma_whitespace_added_ignored(a: Seq<char>, b: Seq<char>)
    requires
        whitespace_added(a, b),
    ensures
        normalized_schema(a) == normalized_schema(b),
{
    let (i, w) = choose|i: int, w: char| #[trigger] whitespace_edit(a, b, i, w);
    lemma_whitespace_insertion_ignored(a, i, w);
}

proof fn lemma_letter_case_changed_ignored(a: Seq<char>, b: Seq<char>)
    requires
        letter_case_changed(a, b),
    ensures
        normalized_schema(a) == normalized_schema(b),
{
    let (j, i, c2) = choose|j: int, i: int, c2: char| #[trigger] letter_case_edit(a, b, j, i, c2);
    lemma_letter_case_ignored(a, j, i, c2);
}

proof fn lemma_comment_added_ignored(a: Seq<char>, b: Seq<char>)
    requires
        comment_added(a, b),
    ensures
        normalized_schema(a) == normalized_schema(b),
{
    let (i, p, c) = choose|i: int, p: int, c: Seq<char>| #[trigger] comment_edit(a, b, i, p, c);
    lemma_comment_insertion_ignored(a, i, p, c);
}

/// Normalization ignores one formatting edit, made in either direction.
pub proof fn lemma_formatting_step_ignored(a: Seq<char>, b: Seq<char>)
    requires
        formatting_step(a, b),
    ensures
        normalized_schema(a) == normalized_schema(b),
{
    if whitespace_added(a, b) {
        lemma_whitespace_added_ignored(a, b);
    } else if whitespace_added(b, a) {
        lemma_whitespace_added_ignored(b, a);
    } else if letter_case_changed(a, b) {
        lemma_letter_case_changed_ignored(a, b);
    } else if letter_case_changed(b, a) {
        lemma_letter_case_changed_ignored(b, a);
    } else if comment_added(a, b) {
        lemma_comment_added_ignored(a, b);
    } else {
        lemma_comment_added_ignored(b, a);
    }
}

/// Normalization ignores formatting: two schema texts that differ by any
/// number of formatting edits (white space between tokens added or
/// removed, letter case outside quoted and bracketed tokens changed,
/// comments added or removed where they fit) normalize alike.
pub proof fn lemma_formatting_ignored(texts: Seq<Seq<char>>)
    requires
        texts.len() >= 1,
        formatting_chain(texts),
    ensures
        normalized_schema(texts[0]) == normalized_schema(texts[texts.len() - 1]),
    decreases texts.len(),
{
    if texts.len() > 1 {
        let shorter = texts.drop_last();
        assert forall|k: int| 0 <= k < shorter.len() - 1 implies #[trigger] formatting_step(
            shorter[k],
            shorter[k + 1],
        ) by {
            assert(formatting_step(texts[k], texts[k + 1]));
        }
        lemma_formatting_ignored(shorter);
        let k = texts.len() - 2;
        assert(formatting_step(texts[k], texts[k + 1]));
        lemma_formatting_step_ignored(texts[k], texts[k + 1]);
    }
}

} // verus!
