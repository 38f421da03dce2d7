//! Character classes, trimming, word splitting, joining and decimal
//! rendering/parsing over `str`/`String`, with their specifications.

use vstd::prelude::*;

verus! {

// ── Character classes ────────────────────────────────────────────────────

/// Unicode `White_Space` beyond ASCII: next line, no-break space, the Ogham
/// space mark, the spaces from en quad to hair space, the line and paragraph
/// separators, the narrow no-break space, the medium mathematical space and
/// the ideographic space.
pub open spec fn unicode_whitespace(c: char) -> bool {
    ||| c == '\u{85}' || c == '\u{A0}' || c == '\u{1680}'
    ||| '\u{2000}' <= c && c <= '\u{200A}'
    ||| c == '\u{2028}' || c == '\u{2029}' || c == '\u{202F}' || c == '\u{205F}'
    ||| c == '\u{3000}'
}

/// Unicode `Alphabetic` or `Numeric`, as `char::is_alphanumeric` decides it.
pub uninterp spec fn unicode_alphanumeric(c: char) -> bool;

/// The ASCII characters that are white space: tab, line feed, vertical tab,
/// form feed, carriage return and space.
pub open spec fn ascii_whitespace(c: char) -> bool {
    c == '\t' || c == '\n' || c == '\x0B' || c == '\x0C' || c == '\r' || c == ' '
}

pub open spec fn ascii_alphanumeric(c: char) -> bool {
    ('a' <= c && c <= 'z') || ('A' <= c && c <= 'Z') || ('0' <= c && c <= '9')
}

/// White space: the ASCII white space characters, and beyond ASCII the
/// characters Unicode names `White_Space`.
pub open spec fn char_whitespace(c: char) -> bool {
    if (c as u32) < 128 {
        ascii_whitespace(c)
    } else {
        unicode_whitespace(c)
    }
}

/// Letters and digits: the ASCII ones, and beyond ASCII the characters
/// Unicode names `Alphabetic` or `Numeric`, none of which is white space.
pub open spec fn char_alphanumeric(c: char) -> bool {
    if (c as u32) < 128 {
        ascii_alphanumeric(c)
    } else {
        !unicode_whitespace(c) && unicode_alphanumeric(c)
    }
}

/// `char::is_whitespace`: Unicode `White_Space`, a fixed list of
/// characters: tab, line feed, vertical tab, form feed, carriage return and
/// space in ASCII, and the characters of `unicode_whitespace` beyond it.
#[verifier::external_body]
pub(crate) fn is_whitespace(c: char) -> (r: bool)
    ensures
        r == char_whitespace(c),
{
    c.is_whitespace()
}

/// `char::is_alphanumeric`: Unicode `Alphabetic` or `Numeric`. For ASCII
/// characters these are exactly the letters and digits; no `White_Space`
/// character is either; beyond that the result is only named.
#[verifier::external_body]
pub(crate) fn is_alphanumeric(c: char) -> (r: bool)
    ensures
        (c as u32) < 128 ==> r == ascii_alphanumeric(c),
        (c as u32) >= 128 ==> r == (!unicode_whitespace(c) && unicode_alphanumeric(c)),
{
    c.is_alphanumeric()
}

/// `String::push`: appends one character.
#[verifier::external_body]
pub(crate) fn push_char(s: &mut String, c: char)
    ensures
        final(s)@ == old(s)@.push(c),
{
    s.push(c);
}

pub open spec fn ascii_lower(c: char) -> char {
    if 'A' <= c && c <= 'Z' {
        ((c as u32) + 32) as char
    } else {
        c
    }
}

pub fn to_ascii_lower(c: char) -> (r: char)
    ensures
        r == ascii_lower(c),
{
    if 'A' <= c && c <= 'Z' {
        let b = c as u8;
        assert(b as u32 == c as u32);
        ((b + 32) as char)
    } else {
        c
    }
}

pub open spec fn ascii_upper(c: char) -> char {
    if 'a' <= c && c <= 'z' {
        ((c as u32) - 32) as char
    } else {
        c
    }
}

pub fn to_ascii_upper(c: char) -> (r: char)
    ensures
        r == ascii_upper(c),
{
    if 'a' <= c && c <= 'z' {
        let b = c as u8;
        assert(b as u32 == c as u32);
        ((b - 32) as char)
    } else {
        c
    }
}

/// `str::to_ascii_uppercase`.
pub open spec fn uppercased(s: Seq<char>) -> Seq<char> {
    s.map_values(|c: char| ascii_upper(c))
}

pub fn to_ascii_uppercase(s: &str) -> (r: String)
    ensures
        r@ == uppercased(s@),
{
    let mut out = String::new();
    for c in it: s.chars()
        invariant
            it.seq() == s@,
            out@ == uppercased(s@.take(it.index() as int)),
    {
        let ghost i = it.index();
        push_char(&mut out, to_ascii_upper(c));
        assert(uppercased(s@.take(i + 1)) =~= uppercased(s@.take(i as int)).push(ascii_upper(c)));
    }
    assert(s@.take(s@.len() as int) == s@);
    out
}

// ── Conversions between str, String and Vec<char> ────────────────────────

pub fn chars_of(s: &str) -> (v: Vec<char>)
    ensures
        v@ == s@,
{
    let mut out: Vec<char> = Vec::new();
    for c in it: s.chars()
        invariant
            it.seq() == s@,
            out@ == s@.take(it.index() as int),
    {
        assert(s@.take(it.index() + 1) == s@.take(it.index() as int).push(c));
        out.push(c);
    }
    assert(s@.take(s@.len() as int) == s@);
    out
}

pub fn string_from_chars(v: &[char]) -> (s: String)
    ensures
        s@ == v@,
{
    let mut out = String::new();
    let mut i: usize = 0;
    while i < v.len()
        invariant
            i <= v@.len(),
            out@ == v@.take(i as int),
        decreases v@.len() - i,
    {
        assert(v@.take(i + 1) == v@.take(i as int).push(v@[i as int]));
        push_char(&mut out, v[i]);
        i = i + 1;
    }
    assert(v@.take(v@.len() as int) == v@);
    out
}

pub fn string_from_subrange(v: &Vec<char>, start: usize, end: usize) -> (s: String)
    requires
        start <= end <= v@.len(),
    ensures
        s@ == v@.subrange(start as int, end as int),
{
    let mut out = String::new();
    let mut i: usize = start;
    while i < end
        invariant
            start <= i <= end <= v@.len(),
            out@ == v@.subrange(start as int, i as int),
        decreases end - i,
    {
        assert(v@.subrange(start as int, i + 1) == v@.subrange(start as int, i as int).push(
            v@[i as int],
        ));
        push_char(&mut out, v[i]);
        i = i + 1;
    }
    out
}

pub fn append_str(s: &mut String, t: &str)
    ensures
        final(s)@ == old(s)@ + t@,
{
    let ghost start = s@;
    for c in it: t.chars()
        invariant
            it.seq() == t@,
            s@ == start + t@.take(it.index() as int),
    {
        assert(t@.take(it.index() + 1) == t@.take(it.index() as int).push(c));
        push_char(s, c);
    }
    assert(t@.take(t@.len() as int) == t@);
}

pub fn str_eq(a: &str, b: &str) -> (r: bool)
    ensures
        r == (a@ == b@),
{
    let sa = a.to_owned();
    let sb = b.to_owned();
    sa == sb
}

pub fn char_count(s: &str) -> (n: usize)
    ensures
        n == s@.len(),
{
    let v = chars_of(s);
    v.len()
}

// ── Trimming ─────────────────────────────────────────────────────────────

pub open spec fn trim_left(s: Seq<char>) -> Seq<char>
    decreases s.len(),
{
    if s.len() > 0 && char_whitespace(s[0]) {
        trim_left(s.drop_first())
    } else {
        s
    }
}

pub open spec fn trim_right(s: Seq<char>) -> Seq<char>
    decreases s.len(),
{
    if s.len() > 0 && char_whitespace(s.last()) {
        trim_right(s.drop_last())
    } else {
        s
    }
}

/// `str::trim`: leading and trailing white space removed.
pub open spec fn trimmed(s: Seq<char>) -> Seq<char> {
    trim_right(trim_left(s))
}

/// A sequence is blank when trimming leaves nothing.
pub open spec fn blank(s: Seq<char>) -> bool {
    trimmed(s).len() == 0
}

proof fn lemma_trim_left_skip(s: Seq<char>, i: int)
    requires
        0 <= i <= s.len(),
        forall|k: int| 0 <= k < i ==> char_whitespace(#[trigger] s[k]),
    ensures
        trim_left(s) == trim_left(s.subrange(i, s.len() as int)),
    decreases i,
{
    if i > 0 {
        assert(s.drop_first() == s.subrange(1, s.len() as int));
        lemma_trim_left_skip(s.drop_first(), i - 1);
        assert(s.drop_first().subrange(i - 1, s.drop_first().len() as int) == s.subrange(
            i,
            s.len() as int,
        ));
    } else {
        assert(s.subrange(0, s.len() as int) == s);
    }
}

proof fn lemma_trim_right_cut(s: Seq<char>, j: int)
    requires
        0 <= j <= s.len(),
        forall|k: int| j <= k < s.len() ==> char_whitespace(#[trigger] s[k]),
    ensures
        trim_right(s) == trim_right(s.subrange(0, j)),
    decreases s.len() - j,
{
    if j < s.len() {
        assert(s.drop_last() == s.subrange(0, s.len() - 1));
        lemma_trim_right_cut(s.drop_last(), j);
        assert(s.drop_last().subrange(0, j) == s.subrange(0, j));
    } else {
        assert(s.subrange(0, j) == s);
    }
}

/// Returns `(start, end)` such that `v[start..end]` is `v` trimmed.
pub fn trim_bounds(v: &Vec<char>) -> (r: (usize, usize))
    ensures
        r.0 <= r.1 <= v@.len(),
        v@.subrange(r.0 as int, r.1 as int) == trimmed(v@),
{
    let n = v.len();
    let mut i: usize = 0;
    while i < n && is_whitespace(v[i])
        invariant
            i <= n == v@.len(),
            forall|k: int| 0 <= k < i ==> char_whitespace(#[trigger] v@[k]),
        decreases n - i,
    {
        i = i + 1;
    }
    proof {
        lemma_trim_left_skip(v@, i as int);
        let rest = v@.subrange(i as int, n as int);
        if i < n {
            assert(rest[0] == v@[i as int]);
        }
        assert(trim_left(rest) == rest);
    }
    let ghost left = v@.subrange(i as int, n as int);
    let mut j: usize = n;
    while j > i && is_whitespace(v[j - 1])
        invariant
            i <= j <= n == v@.len(),
            left == v@.subrange(i as int, n as int),
            forall|k: int| (j - i) <= k < left.len() ==> char_whitespace(#[trigger] left[k]),
        decreases j,
    {
        j = j - 1;
    }
    proof {
        lemma_trim_right_cut(left, (j - i) as int);
        let cut = left.subrange(0, (j - i) as int);
        assert(cut == v@.subrange(i as int, j as int));
        if j > i {
            assert(cut.last() == v@[j - 1]);
        }
        assert(trim_right(cut) == cut);
    }
    (i, j)
}

pub fn trim(s: &str) -> (r: String)
    ensures
        r@ == trimmed(s@),
{
    let v = chars_of(s);
    let (a, b) = trim_bounds(&v);
    string_from_subrange(&v, a, b)
}

pub fn is_blank(s: &str) -> (r: bool)
    ensures
        r == blank(s@),
{
    let v = chars_of(s);
    let (a, b) = trim_bounds(&v);
    a == b
}

// ── Splitting on white space and joining ─────────────────────────────────

/// The words of `s` after `cur` has been collected from earlier characters:
/// maximal runs of non-white-space characters, in order.
pub open spec fn words_from(s: Seq<char>, cur: Seq<char>) -> Seq<Seq<char>>
    decreases s.len(),
{
    if s.len() == 0 {
        if cur.len() == 0 {
            Seq::empty()
        } else {
            seq![cur]
        }
    } else if char_whitespace(s[0]) {
        if cur.len() == 0 {
            words_from(s.drop_first(), Seq::empty())
        } else {
            seq![cur] + words_from(s.drop_first(), Seq::empty())
        }
    } else {
        words_from(s.drop_first(), cur.push(s[0]))
    }
}

/// `str::split_whitespace`: the maximal runs of non-white-space characters.
pub open spec fn words(s: Seq<char>) -> Seq<Seq<char>> {
    words_from(s, Seq::empty())
}

pub open spec fn all_nonempty(ws: Seq<Seq<char>>) -> bool {
    forall|i: int| 0 <= i < ws.len() ==> #[trigger] ws[i].len() > 0
}

proof fn lemma_words_from_nonempty(s: Seq<char>, cur: Seq<char>)
    ensures
        all_nonempty(words_from(s, cur)),
    decreases s.len(),
{
    if s.len() == 0 {
    } else if char_whitespace(s[0]) {
        lemma_words_from_nonempty(s.drop_first(), Seq::empty());
        if cur.len() > 0 {
            let rest = words_from(s.drop_first(), Seq::empty());
            assert forall|i: int| 0 <= i < (seq![cur] + rest).len() implies #[trigger] (seq![cur]
                + rest)[i].len() > 0 by {
                if i > 0 {
                    assert((seq![cur] + rest)[i] == rest[i - 1]);
                }
            }
        }
    } else {
        lemma_words_from_nonempty(s.drop_first(), cur.push(s[0]));
    }
}

pub proof fn lemma_words_nonempty(s: Seq<char>)
    ensures
        all_nonempty(words(s)),
{
    lemma_words_from_nonempty(s, Seq::empty());
}

pub fn split_whitespace(s: &str) -> (r: Vec<String>)
    ensures
        r@.len() == words(s@).len(),
        forall|i: int| 0 <= i < r@.len() ==> #[trigger] r@[i]@ == words(s@)[i],
{
    let v = chars_of(s);
    let n = v.len();
    let mut out: Vec<String> = Vec::new();
    let mut cur_start: usize = 0;
    let mut in_word = false;
    let mut i: usize = 0;
    let ghost mut done: Seq<Seq<char>> = Seq::empty();
    assert(v@.subrange(0, n as int) == v@);
    while i < n
        invariant
            i <= n == v@.len(),
            cur_start <= i,
            out@.len() == done.len(),
            forall|k: int| 0 <= k < out@.len() ==> #[trigger] out@[k]@ == done[k],
            done + words_from(
                v@.subrange(i as int, n as int),
                if in_word {
                    v@.subrange(cur_start as int, i as int)
                } else {
                    Seq::empty()
                },
            ) == words(v@),
            in_word ==> cur_start < i,
        decreases n - i,
    {
        let c = v[i];
        let ghost rest = v@.subrange(i as int, n as int);
        let ghost cur = if in_word {
            v@.subrange(cur_start as int, i as int)
        } else {
            Seq::empty()
        };
        assert(rest[0] == c);
        assert(rest.drop_first() == v@.subrange(i + 1, n as int));
        if is_whitespace(c) {
            if in_word {
                let w = string_from_subrange(&v, cur_start, i);
                proof {
                    assert(words_from(rest, cur) == seq![cur] + words_from(
                        rest.drop_first(),
                        Seq::empty(),
                    ));
                    assert(done + (seq![cur] + words_from(rest.drop_first(), Seq::empty())) == (
                    done.push(cur)) + words_from(rest.drop_first(), Seq::empty()));
                    done = done.push(cur);
                }
                out.push(w);
                in_word = false;
            }
        } else {
            if !in_word {
                cur_start = i;
                in_word = true;
                assert(v@.subrange(cur_start as int, i + 1) == Seq::<char>::empty().push(c));
            } else {
                assert(v@.subrange(cur_start as int, i + 1) == cur.push(c));
            }
        }
        i = i + 1;
    }
    proof {
        assert(v@.subrange(n as int, n as int).len() == 0);
    }
    if in_word {
        let w = string_from_subrange(&v, cur_start, n);
        proof {
            done = done.push(v@.subrange(cur_start as int, n as int));
        }
        out.push(w);
    }
    proof {
        assert(done == words(v@));
    }
    out
}

/// The maximal runs of characters other than `sep`, after `cur` has been
/// collected from earlier characters.
pub open spec fn runs_from(s: Seq<char>, cur: Seq<char>, sep: char) -> Seq<Seq<char>>
    decreases s.len(),
{
    if s.len() == 0 {
        if cur.len() == 0 {
            Seq::empty()
        } else {
            seq![cur]
        }
    } else if s[0] == sep {
        if cur.len() == 0 {
            runs_from(s.drop_first(), Seq::empty(), sep)
        } else {
            seq![cur] + runs_from(s.drop_first(), Seq::empty(), sep)
        }
    } else {
        runs_from(s.drop_first(), cur.push(s[0]), sep)
    }
}

/// Splits `v` into its maximal runs of characters other than `sep`.
pub fn split_runs(v: &Vec<char>, sep: char) -> (r: Vec<String>)
    ensures
        r@.len() == runs_from(v@, Seq::empty(), sep).len(),
        forall|i: int| 0 <= i < r@.len() ==> #[trigger] r@[i]@ == runs_from(v@, Seq::empty(), sep)[i],
{
    let n = v.len();
    let mut out: Vec<String> = Vec::new();
    let mut cur_start: usize = 0;
    let mut in_run = false;
    let mut i: usize = 0;
    let ghost mut done: Seq<Seq<char>> = Seq::empty();
    assert(v@.subrange(0, n as int) == v@);
    while i < n
        invariant
            i <= n == v@.len(),
            cur_start <= i,
            out@.len() == done.len(),
            forall|k: int| 0 <= k < out@.len() ==> #[trigger] out@[k]@ == done[k],
            done + runs_from(
                v@.subrange(i as int, n as int),
                if in_run {
                    v@.subrange(cur_start as int, i as int)
                } else {
                    Seq::empty()
                },
                sep,
            ) == runs_from(v@, Seq::empty(), sep),
            in_run ==> cur_start < i,
        decreases n - i,
    {
        let c = v[i];
        let ghost rest = v@.subrange(i as int, n as int);
        let ghost cur = if in_run {
            v@.subrange(cur_start as int, i as int)
        } else {
            Seq::empty()
        };
        assert(rest[0] == c);
        assert(rest.drop_first() == v@.subrange(i + 1, n as int));
        if c == sep {
            if in_run {
                let w = string_from_subrange(v, cur_start, i);
                proof {
                    assert(done + (seq![cur] + runs_from(rest.drop_first(), Seq::empty(), sep)) == (
                    done.push(cur)) + runs_from(rest.drop_first(), Seq::empty(), sep));
                    done = done.push(cur);
                }
                out.push(w);
                in_run = false;
            }
        } else {
            if !in_run {
                cur_start = i;
                in_run = true;
                assert(v@.subrange(cur_start as int, i + 1) == Seq::<char>::empty().push(c));
            } else {
                assert(v@.subrange(cur_start as int, i + 1) == cur.push(c));
            }
        }
        i = i + 1;
    }
    assert(v@.subrange(n as int, n as int).len() == 0);
    if in_run {
        let w = string_from_subrange(v, cur_start, n);
        proof {
            done = done.push(v@.subrange(cur_start as int, n as int));
        }
        out.push(w);
    }
    out
}

/// The text of each string.
pub open spec fn views(v: Seq<String>) -> Seq<Seq<char>> {
    v.map_values(|s: String| s@)
}

/// Words joined with `sep` between consecutive words.
pub open spec fn join(ws: Seq<Seq<char>>, sep: Seq<char>) -> Seq<char>
    decreases ws.len(),
{
    if ws.len() == 0 {
        Seq::empty()
    } else if ws.len() == 1 {
        ws[0]
    } else {
        join(ws.drop_last(), sep) + sep + ws.last()
    }
}

pub fn join_strings(parts: &Vec<String>, sep: &str) -> (r: String)
    ensures
        r@ == join(views(parts@), sep@),
{
    let ghost vs = views(parts@);
    let mut out = String::new();
    let mut i: usize = 0;
    while i < parts.len()
        invariant
            i <= parts@.len(),
            vs == views(parts@),
            out@ == join(vs.take(i as int), sep@),
        decreases parts@.len() - i,
    {
        assert(vs.take(i + 1).drop_last() == vs.take(i as int));
        if i > 0 {
            append_str(&mut out, sep);
        }
        append_str(&mut out, parts[i].as_str());
        i = i + 1;
    }
    assert(vs.take(parts@.len() as int) == vs);
    out
}

// ── Decimal rendering ────────────────────────────────────────────────────

pub open spec fn digit_char(d: int) -> char {
    if d == 0 {
        '0'
    } else if d == 1 {
        '1'
    } else if d == 2 {
        '2'
    } else if d == 3 {
        '3'
    } else if d == 4 {
        '4'
    } else if d == 5 {
        '5'
    } else if d == 6 {
        '6'
    } else if d == 7 {
        '7'
    } else if d == 8 {
        '8'
    } else {
        '9'
    }
}

pub open spec fn is_digit(c: char) -> bool {
    '0' <= c && c <= '9'
}

pub open spec fn digit_value(c: char) -> int {
    (c as u32) - ('0' as u32)
}

/// Base-ten digits of `n`, most significant first, without leading zeros.
pub open spec fn decimal(n: nat) -> Seq<char>
    decreases n,
{
    if n < 10 {
        seq![digit_char(n as int)]
    } else {
        decimal(n / 10).push(digit_char((n % 10) as int))
    }
}

/// `{}` formatting of a signed integer.
pub open spec fn signed_decimal(n: int) -> Seq<char> {
    if n < 0 {
        seq!['-'] + decimal((-n) as nat)
    } else {
        decimal(n as nat)
    }
}

fn digit(d: u64) -> (c: char)
    requires
        d < 10,
    ensures
        c == digit_char(d as int),
{
    if d == 0 {
        '0'
    } else if d == 1 {
        '1'
    } else if d == 2 {
        '2'
    } else if d == 3 {
        '3'
    } else if d == 4 {
        '4'
    } else if d == 5 {
        '5'
    } else if d == 6 {
        '6'
    } else if d == 7 {
        '7'
    } else if d == 8 {
        '8'
    } else {
        '9'
    }
}

pub fn u64_to_decimal(n: u64) -> (s: String)
    ensures
        s@ == decimal(n as nat),
    decreases n,
{
    if n < 10 {
        let mut s = String::new();
        push_char(&mut s, digit(n));
        s
    } else {
        let mut s = u64_to_decimal(n / 10);
        push_char(&mut s, digit(n % 10));
        s
    }
}

pub fn i64_to_decimal(n: i64) -> (s: String)
    ensures
        s@ == signed_decimal(n as int),
{
    if n < 0 {
        let magnitude: u64 = if n == i64::MIN {
            9223372036854775808u64
        } else {
            (-n) as u64
        };
        let mut s = String::new();
        push_char(&mut s, '-');
        let digits = u64_to_decimal(magnitude);
        append_str(&mut s, digits.as_str());
        s
    } else {
        u64_to_decimal(n as u64)
    }
}

// ── Decimal parsing ──────────────────────────────────────────────────────

pub open spec fn all_digits(s: Seq<char>) -> bool {
    forall|i: int| 0 <= i < s.len() ==> is_digit(#[trigger] s[i])
}

/// The value of a digit string, most significant digit first.
pub open spec fn digits_value(s: Seq<char>) -> nat
    decreases s.len(),
{
    if s.len() == 0 {
        0
    } else {
        (digits_value(s.drop_last()) * 10 + digit_value(s.last())) as nat
    }
}

/// The value that `str::parse` gives for an unsigned integer whose largest
/// value is `max`: an optional `+`, then one or more ASCII digits.
pub open spec fn parse_unsigned(s: Seq<char>, max: nat) -> Option<nat> {
    let body = if s.len() > 0 && s[0] == '+' {
        s.drop_first()
    } else {
        s
    };
    if body.len() > 0 && all_digits(body) && digits_value(body) <= max {
        Some(digits_value(body))
    } else {
        None
    }
}

/// The value that `str::parse::<i64>` gives: an optional sign, then one or
/// more ASCII digits, within range.
pub open spec fn parse_i64_spec(s: Seq<char>) -> Option<int> {
    if s.len() > 0 && s[0] == '-' {
        let body = s.drop_first();
        if body.len() > 0 && all_digits(body) && digits_value(body) <= 9223372036854775808 {
            Some(-(digits_value(body) as int))
        } else {
            None
        }
    } else {
        match parse_unsigned(s, 9223372036854775807) {
            Some(v) => Some(v as int),
            None => None,
        }
    }
}

pub proof fn lemma_digits_value_monotone(s: Seq<char>, k: int)
    requires
        0 <= k <= s.len(),
        all_digits(s),
    ensures
        digits_value(s.take(k)) <= digits_value(s),
    decreases s.len() - k,
{
    if k < s.len() {
        lemma_digits_value_monotone(s, k + 1);
        assert(s.take(k + 1).drop_last() == s.take(k));
        assert(is_digit(s[k]));
    } else {
        assert(s.take(k) == s);
    }
}

/// Parses `v[start..]` as one or more ASCII digits whose value is at most
/// `max`.
fn parse_digits_bounded(v: &Vec<char>, start: usize, max: u64) -> (r: Option<u64>)
    requires
        start <= v@.len(),
        max >= 9,
    ensures
        ({
            let body = v@.subrange(start as int, v@.len() as int);
            match r {
                Some(x) => body.len() > 0 && all_digits(body) && digits_value(body) == x
                    && x <= max,
                None => !(body.len() > 0 && all_digits(body) && digits_value(body) <= max),
            }
        }),
{
    let ghost body = v@.subrange(start as int, v@.len() as int);
    if start == v.len() {
        return None;
    }
    let mut acc: u64 = 0;
    let mut i: usize = start;
    while i < v.len()
        invariant
            start <= i <= v@.len(),
            body == v@.subrange(start as int, v@.len() as int),
            all_digits(v@.subrange(start as int, i as int)),
            acc == digits_value(v@.subrange(start as int, i as int)),
            acc <= max,
            max >= 9,
        decreases v@.len() - i,
    {
        let c = v[i];
        let ghost pre = v@.subrange(start as int, i as int);
        assert(v@.subrange(start as int, i + 1) == pre.push(c));
        assert(pre.push(c).drop_last() == pre);
        if !('0' <= c && c <= '9') {
            proof {
                assert(body[i - start] == c);
            }
            return None;
        }
        let d = ((c as u32) - ('0' as u32)) as u64;
        if acc > (max - d) / 10 {
            proof {
                assert(acc * 10 + d > max) by (nonlinear_arith)
                    requires
                        acc > (max - d) / 10,
                        d <= 9,
                        d <= max,
                ;
                if d > max {
                }
                let k = i + 1 - start;
                assert(body.take(k as int) == v@.subrange(start as int, i + 1));
                assert forall|t: int| 0 <= t < body.len() implies is_digit(#[trigger] body[t]) || !all_digits(body) by {}
                if all_digits(body) {
                    lemma_digits_value_monotone(body, k as int);
                }
            }
            return None;
        }
        proof {
            assert(acc * 10 + d <= max) by (nonlinear_arith)
                requires
                    acc <= (max - d) / 10,
                    d <= max,
            ;
        }
        acc = acc * 10 + d;
        i = i + 1;
    }
    assert(v@.subrange(start as int, v@.len() as int) == body);
    Some(acc)
}

pub fn parse_u64(s: &str) -> (r: Option<u64>)
    ensures
        match parse_unsigned(s@, u64::MAX as nat) {
            Some(x) => r == Some(x as u64),
            None => r.is_none(),
        },
{
    let v = chars_of(s);
    let start: usize = if v.len() > 0 && v[0] == '+' {
        1
    } else {
        0
    };
    assert(v@.subrange(start as int, v@.len() as int) == (if s@.len() > 0 && s@[0] == '+' {
        s@.drop_first()
    } else {
        s@
    }));
    parse_digits_bounded(&v, start, u64::MAX)
}

pub fn parse_u32(s: &str) -> (r: Option<u32>)
    ensures
        match parse_unsigned(s@, u32::MAX as nat) {
            Some(x) => r == Some(x as u32),
            None => r.is_none(),
        },
{
    let v = chars_of(s);
    let start: usize = if v.len() > 0 && v[0] == '+' {
        1
    } else {
        0
    };
    assert(v@.subrange(start as int, v@.len() as int) == (if s@.len() > 0 && s@[0] == '+' {
        s@.drop_first()
    } else {
        s@
    }));
    match parse_digits_bounded(&v, start, u32::MAX as u64) {
        Some(x) => Some(x as u32),
        None => None,
    }
}

pub fn parse_i64(s: &str) -> (r: Option<i64>)
    ensures
        match parse_i64_spec(s@) {
            Some(x) => r == Some(x as i64),
            None => r.is_none(),
        },
{
    let v = chars_of(s);
    if v.len() > 0 && v[0] == '-' {
        assert(v@.subrange(1, v@.len() as int) == s@.drop_first());
        match parse_digits_bounded(&v, 1, 9223372036854775808u64) {
            Some(x) => {
                if x == 9223372036854775808u64 {
                    Some(i64::MIN)
                } else {
                    Some(-(x as i64))
                }
            },
            None => None,
        }
    } else {
        let start: usize = if v.len() > 0 && v[0] == '+' {
            1
        } else {
            0
        };
        assert(v@.subrange(start as int, v@.len() as int) == (if s@.len() > 0 && s@[0] == '+' {
            s@.drop_first()
        } else {
            s@
        }));
        match parse_digits_bounded(&v, start, i64::MAX as u64) {
            Some(x) => Some(x as i64),
            None => None,
        }
    }
}

// ── Prefixes and suffixes ────────────────────────────────────────────────

pub open spec fn has_prefix(s: Seq<char>, p: Seq<char>) -> bool {
    p.len() <= s.len() && s.take(p.len() as int) == p
}

pub open spec fn has_suffix(s: Seq<char>, p: Seq<char>) -> bool {
    p.len() <= s.len() && s.skip(s.len() - p.len()) == p
}

pub fn starts_with(s: &str, p: &str) -> (r: bool)
    ensures
        r == has_prefix(s@, p@),
{
    let sv = chars_of(s);
    let pv = chars_of(p);
    if pv.len() > sv.len() {
        return false;
    }
    let mut i: usize = 0;
    while i < pv.len()
        invariant
            i <= pv@.len() <= sv@.len(),
            sv@ == s@,
            pv@ == p@,
            forall|k: int| 0 <= k < i ==> sv@[k] == pv@[k],
        decreases pv@.len() - i,
    {
        if sv[i] != pv[i] {
            assert(sv@.take(pv@.len() as int)[i as int] != pv@[i as int]);
            assert(!(sv@.take(pv@.len() as int) =~= pv@));
            return false;
        }
        i = i + 1;
    }
    assert(sv@.take(pv@.len() as int) == pv@);
    true
}

pub fn ends_with(s: &str, p: &str) -> (r: bool)
    ensures
        r == has_suffix(s@, p@),
{
    let sv = chars_of(s);
    let pv = chars_of(p);
    if pv.len() > sv.len() {
        return false;
    }
    let off = sv.len() - pv.len();
    let mut i: usize = 0;
    while i < pv.len()
        invariant
            i <= pv@.len() <= sv@.len(),
            off + pv@.len() == sv@.len(),
            sv@.len() == sv.len(),
            sv@ == s@,
            pv@ == p@,
            forall|k: int| 0 <= k < i ==> sv@[off + k] == pv@[k],
        decreases pv@.len() - i,
    {
        if sv[off + i] != pv[i] {
            assert(sv@.skip(off as int)[i as int] != pv@[i as int]);
            assert(!(sv@.skip(off as int) =~= pv@));
            return false;
        }
        i = i + 1;
    }
    assert(sv@.skip(off as int) == pv@);
    true
}

// ── Replacing ────────────────────────────────────────────────────────────

/// `s` from position `i` with every occurrence of `from` (left to right,
/// not overlapping) replaced by `to`.
pub open spec fn replaced_from(s: Seq<char>, i: int, from: Seq<char>, to: Seq<char>) -> Seq<char>
    decreases s.len() - i,
{
    if i < 0 || i >= s.len() {
        Seq::empty()
    } else if from.len() > 0 && i + from.len() <= s.len() && s.subrange(i, i + from.len()) == from {
        to + replaced_from(s, i + from.len(), from, to)
    } else {
        seq![s[i]] + replaced_from(s, i + 1, from, to)
    }
}

/// `str::replace` for a non-empty pattern.
pub open spec fn replaced(s: Seq<char>, from: Seq<char>, to: Seq<char>) -> Seq<char> {
    replaced_from(s, 0, from, to)
}

fn matches_at(v: &Vec<char>, i: usize, pat: &Vec<char>) -> (r: bool)
    requires
        i <= v@.len(),
    ensures
        r == (i + pat@.len() <= v@.len() && v@.subrange(i as int, i + pat@.len()) == pat@),
{
    let n = v.len();
    if pat.len() > n - i {
        return false;
    }
    let mut k: usize = 0;
    while k < pat.len()
        invariant
            n == v@.len(),
            k <= pat@.len(),
            i + pat@.len() <= v@.len(),
            forall|t: int| 0 <= t < k ==> v@[i + t] == pat@[t],
        decreases pat@.len() - k,
    {
        if v[i + k] != pat[k] {
            assert(v@.subrange(i as int, i + pat@.len())[k as int] != pat@[k as int]);
            return false;
        }
        k = k + 1;
    }
    assert(v@.subrange(i as int, i + pat@.len()) =~= pat@);
    true
}

/// Every occurrence of `from` replaced by `to`.
pub fn replace_all(s: &str, from: &str, to: &str) -> (r: String)
    requires
        from@.len() > 0,
    ensures
        r@ == replaced(s@, from@, to@),
{
    let v = chars_of(s);
    let pat = chars_of(from);
    let mut out = String::new();
    let mut i: usize = 0;
    while i < v.len()
        invariant
            i <= v@.len(),
            v@ == s@,
            pat@ == from@,
            pat@.len() > 0,
            out@ + replaced_from(v@, i as int, pat@, to@) == replaced(v@, pat@, to@),
        decreases v@.len() - i,
    {
        let ghost before = out@;
        if matches_at(&v, i, &pat) {
            append_str(&mut out, to);
            assert(before + replaced_from(v@, i as int, pat@, to@) == out@ + replaced_from(
                v@,
                i + pat@.len(),
                pat@,
                to@,
            ));
            i = i + pat.len();
        } else {
            push_char(&mut out, v[i]);
            assert(before + replaced_from(v@, i as int, pat@, to@) == out@ + replaced_from(
                v@,
                i + 1,
                pat@,
                to@,
            ));
            i = i + 1;
        }
    }
    assert(out@ + replaced_from(v@, i as int, pat@, to@) == out@);
    out
}

} // verus!
