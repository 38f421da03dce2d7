//! The legacy `library.tsv` catalogue: its lines and the rows imported from
//! them.

use vstd::prelude::*;

use crate::text::{chars_of, parse_u64, parse_unsigned, string_from_subrange, views};

verus! {

/// Position of the first `c` at or after `i`, or the end.
pub open spec fn next_index(s: Seq<char>, i: int, c: char) -> int
    decreases s.len() - i,
{
    if i < 0 || i >= s.len() {
        s.len() as int
    } else if s[i] == c {
        i
    } else {
        next_index(s, i + 1, c)
    }
}

pub proof fn lemma_next_index(s: Seq<char>, i: int, c: char)
    requires
        0 <= i <= s.len(),
    ensures
        i <= next_index(s, i, c) <= s.len(),
        next_index(s, i, c) < s.len() ==> s[next_index(s, i, c)] == c,
    decreases s.len() - i,
{
    if i < s.len() && s[i] != c {
        lemma_next_index(s, i + 1, c);
    }
}

/// A line without the carriage return of a `\r\n` ending.
pub open spec fn strip_cr(line: Seq<char>) -> Seq<char> {
    if line.len() > 0 && line.last() == '\r' {
        line.drop_last()
    } else {
        line
    }
}

/// `str::lines` from position `i`: text split at line feeds, a carriage
/// return before a line feed dropped, no empty line after a final line
/// feed.
pub open spec fn lines_from(s: Seq<char>, i: int) -> Seq<Seq<char>>
    decreases s.len() - i,
{
    if i < 0 || i >= s.len() {
        Seq::empty()
    } else {
        let j = next_index(s, i, '\n');
        proof {
            lemma_next_index(s, i, '\n');
        }
        if j < s.len() {
            seq![strip_cr(s.subrange(i, j))] + lines_from(s, j + 1)
        } else {
            seq![s.subrange(i, j)]
        }
    }
}

/// `str::split` on one character from position `i`: every field, empty ones
/// included.
pub open spec fn fields_from(s: Seq<char>, i: int, sep: char) -> Seq<Seq<char>>
    decreases s.len() - i,
{
    if i < 0 || i > s.len() {
        Seq::empty()
    } else {
        let j = next_index(s, i, sep);
        proof {
            lemma_next_index(s, i, sep);
        }
        if j < s.len() {
            seq![s.subrange(i, j)] + fields_from(s, j + 1, sep)
        } else {
            seq![s.subrange(i, j)]
        }
    }
}

/// One row of the catalogue: kind, extension, renderer, size, modification
/// time, resolution and path, tab-separated.
#[derive(Debug, Clone)]
pub struct TsvRow {
    pub path: String,
    pub file_type: String,
    pub ext: String,
    pub backend: String,
    pub size: u64,
    pub mtime: u64,
    pub resolution: String,
}

/// A number field: its unsigned value, or zero when it is not one.
pub open spec fn number_or_zero(s: Seq<char>) -> u64 {
    match parse_unsigned(s, u64::MAX as nat) {
        Some(v) => v as u64,
        None => 0,
    }
}

/// Whether a row was read from the given fields (at least seven; later
/// fields are ignored).
pub open spec fn row_from_fields(r: TsvRow, f: Seq<Seq<char>>) -> bool {
    &&& r.file_type@ == f[0]
    &&& r.ext@ == f[1]
    &&& r.backend@ == f[2]
    &&& r.size == number_or_zero(f[3])
    &&& r.mtime == number_or_zero(f[4])
    &&& r.resolution@ == f[5]
    &&& r.path@ == f[6]
}

/// The lines that hold at least seven fields.
pub open spec fn catalogue_lines(lines: Seq<Seq<char>>) -> Seq<Seq<Seq<char>>>
    decreases lines.len(),
{
    if lines.len() == 0 {
        Seq::empty()
    } else {
        let f = fields_from(lines.last(), 0, '\t');
        if f.len() < 7 {
            catalogue_lines(lines.drop_last())
        } else {
            catalogue_lines(lines.drop_last()).push(f)
        }
    }
}

fn split_fields(line: &Vec<char>, sep: char) -> (r: Vec<String>)
    ensures
        views(r@) == fields_from(line@, 0, sep),
{
    let ghost s = line@;
    let mut out: Vec<String> = Vec::new();
    let mut start: usize = 0;
    let mut done = false;
    while !done
        invariant
            s == line@,
            start <= s.len(),
            !done ==> views(out@) + fields_from(s, start as int, sep) == fields_from(s, 0, sep),
            done ==> views(out@) == fields_from(s, 0, sep),
        decreases s.len() - start + if done { 0int } else { 1int },
    {
        let mut j: usize = start;
        while j < line.len() && line[j] != sep
            invariant
                start <= j <= s.len(),
                s == line@,
                next_index(s, j as int, sep) == next_index(s, start as int, sep),
            decreases s.len() - j,
        {
            j = j + 1;
        }
        proof {
            lemma_next_index(s, start as int, sep);
        }
        let field = string_from_subrange(line, start, j);
        let ghost before = views(out@);
        out.push(field);
        assert(views(out@) == before.push(s.subrange(start as int, j as int)));
        if j < line.len() {
            assert(fields_from(s, start as int, sep) == seq![s.subrange(start as int, j as int)]
                + fields_from(s, j + 1, sep));
            assert(before.push(s.subrange(start as int, j as int)) + fields_from(s, j + 1, sep)
                == before + (seq![s.subrange(start as int, j as int)] + fields_from(s, j + 1, sep)));
            start = j + 1;
        } else {
            assert(fields_from(s, start as int, sep) == seq![s.subrange(start as int, j as int)]);
            assert(before.push(s.subrange(start as int, j as int)) == before + seq![
                s.subrange(start as int, j as int),
            ]);
            done = true;
        }
    }
    out
}

fn split_lines(v: &Vec<char>) -> (r: Vec<Vec<char>>)
    ensures
        r@.len() == lines_from(v@, 0).len(),
        forall|k: int| 0 <= k < r@.len() ==> (#[trigger] r@[k])@ == lines_from(v@, 0)[k],
{
    let ghost s = v@;
    let ghost mut done_lines: Seq<Seq<char>> = Seq::empty();
    let mut out: Vec<Vec<char>> = Vec::new();
    let mut start: usize = 0;
    while start < v.len()
        invariant
            s == v@,
            start <= s.len(),
            out@.len() == done_lines.len(),
            forall|k: int| 0 <= k < out@.len() ==> (#[trigger] out@[k])@ == done_lines[k],
            done_lines + lines_from(s, start as int) == lines_from(s, 0),
        decreases s.len() - start,
    {
        let mut j: usize = start;
        while j < v.len() && v[j] != '\n'
            invariant
                start <= j <= s.len(),
                s == v@,
                next_index(s, j as int, '\n') == next_index(s, start as int, '\n'),
            decreases s.len() - j,
        {
            j = j + 1;
        }
        proof {
            lemma_next_index(s, start as int, '\n');
        }
        let mut end: usize = j;
        if j < v.len() && j > start && v[j - 1] == '\r' {
            end = j - 1;
        }
        let mut line: Vec<char> = Vec::new();
        let mut k: usize = start;
        while k < end
            invariant
                start <= k <= end <= s.len(),
                s == v@,
                line@ == s.subrange(start as int, k as int),
            decreases end - k,
        {
            line.push(v[k]);
            assert(s.subrange(start as int, k + 1) == s.subrange(start as int, k as int).push(s[k as int]));
            k = k + 1;
        }
        let ghost piece = if j < s.len() {
            strip_cr(s.subrange(start as int, j as int))
        } else {
            s.subrange(start as int, j as int)
        };
        proof {
            if j < s.len() {
                if j > start && s[j - 1] == '\r' {
                    assert(s.subrange(start as int, j as int).drop_last() == s.subrange(start as int, end as int));
                } else {
                    assert(end == j);
                }
            }
            assert(line@ == piece);
        }
        out.push(line);
        proof {
            let old_done = done_lines;
            done_lines = done_lines.push(piece);
            if j < s.len() {
                assert(lines_from(s, start as int) == seq![piece] + lines_from(s, j + 1));
                assert(old_done + (seq![piece] + lines_from(s, j + 1)) == done_lines + lines_from(s, j + 1));
            } else {
                assert(lines_from(s, start as int) == seq![piece]);
                assert(lines_from(s, j as int) == Seq::<Seq<char>>::empty());
                assert(old_done + seq![piece] == done_lines + lines_from(s, j as int));
            }
        }
        if j < v.len() {
            start = j + 1;
        } else {
            start = j;
        }
    }
    assert(done_lines + lines_from(s, start as int) == done_lines);
    out
}

/// The rows of a `library.tsv` text, in order; lines with fewer than seven
/// tab-separated fields are skipped, and a size or time that is not a number
/// reads as zero.
pub fn parse_library_tsv(content: &str) -> (r: Vec<TsvRow>)
    ensures
        r@.len() == catalogue_lines(lines_from(content@, 0)).len(),
        forall|i: int|
            0 <= i < r@.len() ==> row_from_fields(
                #[trigger] r@[i],
                catalogue_lines(lines_from(content@, 0))[i],
            ),
{
    let v = chars_of(content);
    let lines = split_lines(&v);
    let ghost ls = lines_from(content@, 0);
    let mut out: Vec<TsvRow> = Vec::new();
    let mut i: usize = 0;
    while i < lines.len()
        invariant
            i <= lines@.len() == ls.len(),
            ls == lines_from(content@, 0),
            forall|k: int| 0 <= k < lines@.len() ==> (#[trigger] lines@[k])@ == ls[k],
            out@.len() == catalogue_lines(ls.take(i as int)).len(),
            forall|k: int|
                0 <= k < out@.len() ==> row_from_fields(
                    #[trigger] out@[k],
                    catalogue_lines(ls.take(i as int))[k],
                ),
        decreases lines@.len() - i,
    {
        assert(ls.take(i + 1).drop_last() == ls.take(i as int));
        assert(ls.take(i + 1).last() == lines@[i as int]@);
        let fields = split_fields(&lines[i], '\t');
        if fields.len() >= 7 {
            let size = match parse_u64(fields[3].as_str()) {
                Some(n) => n,
                None => 0,
            };
            let mtime = match parse_u64(fields[4].as_str()) {
                Some(n) => n,
                None => 0,
            };
            let row = TsvRow {
                path: fields[6].clone(),
                file_type: fields[0].clone(),
                ext: fields[1].clone(),
                backend: fields[2].clone(),
                size,
                mtime,
                resolution: fields[5].clone(),
            };
            proof {
                let f = fields_from(lines@[i as int]@, 0, '\t');
                assert(views(fields@) == f);
                assert(f[0] == fields@[0]@);
                assert(f[3] == fields@[3]@);
                assert(f[4] == fields@[4]@);
                assert(row_from_fields(row, f));
            }
            out.push(row);
        }
        i = i + 1;
    }
    assert(ls.take(ls.len() as int) == ls);
    out
}

} // verus!
