//! The library revision: a counter in `db_meta` that every library-visible
//! commit raises, how its stored text is read, and how a watcher tells a
//! library change from any other commit.

use vstd::prelude::*;

use crate::error::WcError;
use crate::text::{
    all_digits, append_str, chars_of, digit_value, digits_value, is_digit,
    lemma_digits_value_monotone,
};

verus! {

/// The `db_meta` key that holds the library revision.
pub const LIBRARY_REVISION_KEY: &'static str = "library_revision";

/// Why text is not an unsigned integer, in the words of `ParseIntError`.
pub enum IntFault {
    Empty,
    InvalidDigit,
    PosOverflow,
}

pub open spec fn int_fault_text(f: IntFault) -> Seq<char> {
    match f {
        IntFault::Empty => "cannot parse integer from empty string"@,
        IntFault::InvalidDigit => "invalid digit found in string"@,
        IntFault::PosOverflow => "number too large to fit in target type"@,
    }
}

/// The length of the run of ASCII digits that `s` starts with.
pub open spec fn digit_run(s: Seq<char>) -> nat
    decreases s.len(),
{
    if s.len() > 0 && is_digit(s[0]) {
        1 + digit_run(s.drop_first())
    } else {
        0
    }
}

/// How `str::parse::<u64>` treats `s`: digits are read left to right, so a
/// value that overflows before the first non-digit is an overflow, and a
/// non-digit reached first is an invalid digit.
pub open spec fn u64_parse(s: Seq<char>) -> Result<u64, IntFault> {
    if s.len() == 0 {
        Err(IntFault::Empty)
    } else {
        let body = if s[0] == '+' {
            s.drop_first()
        } else {
            s
        };
        let p = digit_run(body) as int;
        if body.len() == 0 {
            Err(IntFault::InvalidDigit)
        } else if digits_value(body.take(p)) > u64::MAX {
            Err(IntFault::PosOverflow)
        } else if p < body.len() {
            Err(IntFault::InvalidDigit)
        } else {
            Ok(digits_value(body) as u64)
        }
    }
}

proof fn lemma_digit_run(s: Seq<char>, i: int)
    requires
        0 <= i <= s.len(),
        all_digits(s.take(i)),
    ensures
        i < s.len() && !is_digit(s[i]) ==> digit_run(s) == i,
        i == s.len() ==> digit_run(s) == i,
        digit_run(s) >= i,
        digit_run(s) <= s.len(),
        all_digits(s.take(digit_run(s) as int)),
    decreases i,
{
    if i > 0 {
        assert(s.drop_first().take(i - 1) =~= s.take(i).drop_first());
        assert(s.take(i)[0] == s[0]);
        lemma_digit_run(s.drop_first(), i - 1);
        let d = digit_run(s.drop_first()) as int;
        assert(s.take(d + 1) =~= seq![s[0]] + s.drop_first().take(d));
        assert forall|k: int| 0 <= k < d + 1 implies is_digit(#[trigger] s.take(d + 1)[k]) by {
            if k > 0 {
                assert(s.take(d + 1)[k] == s.drop_first().take(d)[k - 1]);
            }
        }
    } else {
        lemma_digit_run_bounds(s);
    }
}

proof fn lemma_digit_run_bounds(s: Seq<char>)
    ensures
        digit_run(s) <= s.len(),
        all_digits(s.take(digit_run(s) as int)),
        s.len() > 0 && !is_digit(s[0]) ==> digit_run(s) == 0,
    decreases s.len(),
{
    if s.len() > 0 && is_digit(s[0]) {
        lemma_digit_run_bounds(s.drop_first());
        let d = digit_run(s.drop_first()) as int;
        assert(s.take(d + 1) =~= seq![s[0]] + s.drop_first().take(d));
        assert forall|k: int| 0 <= k < d + 1 implies is_digit(#[trigger] s.take(d + 1)[k]) by {
            if k > 0 {
                assert(s.take(d + 1)[k] == s.drop_first().take(d)[k - 1]);
            }
        }
    } else {
        assert(s.take(0) =~= Seq::<char>::empty());
    }
}

/// `str::parse::<u64>`, with the reason when it fails.
pub fn parse_u64_detailed(s: &str) -> (r: Result<u64, IntFault>)
    ensures
        r == u64_parse(s@),
{
    let v = chars_of(s);
    if v.len() == 0 {
        return Err(IntFault::Empty);
    }
    let start: usize = if v[0] == '+' {
        1
    } else {
        0
    };
    let ghost body = v@.subrange(start as int, v@.len() as int);
    assert(body == (if s@[0] == '+' {
        s@.drop_first()
    } else {
        s@
    }));
    if start == v.len() {
        return Err(IntFault::InvalidDigit);
    }
    let mut acc: u64 = 0;
    let mut i: usize = start;
    while i < v.len()
        invariant
            start <= i <= v@.len(),
            start < v@.len(),
            v@ == s@,
            body == v@.subrange(start as int, v@.len() as int),
            body == (if s@[0] == '+' {
                s@.drop_first()
            } else {
                s@
            }),
            all_digits(body.take(i - start)),
            acc == digits_value(body.take(i - start)),
        decreases v@.len() - i,
    {
        let c = v[i];
        let ghost k = i - start;
        assert(body[k] == c);
        assert(body.take(k + 1).drop_last() == body.take(k));
        assert(body.take(k + 1).last() == c);
        if !('0' <= c && c <= '9') {
            proof {
                lemma_digit_run(body, k);
            }
            return Err(IntFault::InvalidDigit);
        }
        let d = ((c as u32) - ('0' as u32)) as u64;
        if acc > (u64::MAX - d) / 10 {
            proof {
                assert(acc * 10 + d > u64::MAX) by (nonlinear_arith)
                    requires
                        acc > (u64::MAX - d) / 10,
                        d <= 9,
                ;
                assert forall|t: int| 0 <= t < k + 1 implies is_digit(#[trigger] body.take(k + 1)[t]) by {
                    if t < k {
                        assert(body.take(k + 1)[t] == body.take(k)[t]);
                    }
                }
                lemma_digit_run(body, k + 1);
                let p = digit_run(body) as int;
                assert(body.take(p).take(k + 1) == body.take(k + 1));
                lemma_digits_value_monotone(body.take(p), k + 1);
            }
            return Err(IntFault::PosOverflow);
        }
        proof {
            assert(acc * 10 + d <= u64::MAX) by (nonlinear_arith)
                requires
                    acc <= (u64::MAX - d) / 10,
            ;
            assert forall|t: int| 0 <= t < k + 1 implies is_digit(#[trigger] body.take(k + 1)[t]) by {
                if t < k {
                    assert(body.take(k + 1)[t] == body.take(k)[t]);
                }
            }
        }
        acc = acc * 10 + d;
        i = i + 1;
    }
    proof {
        assert(body.take(body.len() as int) == body);
        lemma_digit_run(body, body.len() as int);
    }
    Ok(acc)
}

/// Reads the stored text of the library revision. Text that is not an
/// unsigned 64-bit integer is reported as a database error that quotes the
/// parse failure.
pub fn parse_library_revision(value: &str) -> (r: Result<u64, WcError>)
    ensures
        match u64_parse(value@) {
            Ok(n) => r == Ok::<u64, WcError>(n),
            Err(f) => r matches Err(WcError::Sqlite(m)) && m@
                == "invalid library revision stored in database: "@ + int_fault_text(f),
        },
{
    match parse_u64_detailed(value) {
        Ok(n) => Ok(n),
        Err(f) => {
            let mut m = String::new();
            append_str(&mut m, "invalid library revision stored in database: ");
            match f {
                IntFault::Empty => append_str(&mut m, "cannot parse integer from empty string"),
                IntFault::InvalidDigit => append_str(&mut m, "invalid digit found in string"),
                IntFault::PosOverflow => append_str(&mut m, "number too large to fit in target type"),
            }
            Err(WcError::Sqlite(m))
        },
    }
}

/// The revision check of a publish guard or an exact total: the revision
/// observed must be the one the caller expects.
pub fn require_library_revision(expected: u64, observed: u64) -> (r: Result<(), WcError>)
    ensures
        expected == observed ==> r is Ok,
        expected != observed ==> r == Err::<(), WcError>(
            WcError::RevisionChanged { expected, observed },
        ),
{
    if observed != expected {
        Err(WcError::RevisionChanged { expected, observed })
    } else {
        Ok(())
    }
}

/// Tells library commits from other commits. SQLite's `data_version` changes
/// on every commit by another connection; only a changed library revision
/// is reported.
#[derive(Debug, Clone, Copy, PartialEq, Eq, Structural)]
pub struct LibraryRevisionObserver {
    data_version: i64,
    library_revision: u64,
}

impl View for LibraryRevisionObserver {
    /// The data version and the library revision last seen.
    type V = (i64, u64);

    closed spec fn view(&self) -> (i64, u64) {
        (self.data_version, self.library_revision)
    }
}

impl LibraryRevisionObserver {
    /// An observer that has seen the given data version and revision.
    pub fn from_state(data_version: i64, library_revision: u64) -> (r: Self)
        ensures
            r@ == (data_version, library_revision),
    {
        LibraryRevisionObserver { data_version, library_revision }
    }

    /// The data version last seen.
    pub fn data_version(&self) -> (r: i64)
        ensures
            r == self@.0,
    {
        self.data_version
    }

    /// The library revision last seen.
    pub fn library_revision(&self) -> (r: u64)
        ensures
            r == self@.1,
    {
        self.library_revision
    }

    /// Records a data version read from the connection. `false` means
    /// nothing was committed since the last observation and the revision
    /// need not be read; `true` means it must be read and handed to
    /// `observe_revision`.
    pub fn observe_data_version(&mut self, data_version: i64) -> (changed: bool)
        ensures
            changed == (data_version != old(self)@.0),
            final(self)@ == (data_version, old(self)@.1),
    {
        if data_version == self.data_version {
            false
        } else {
            self.data_version = data_version;
            true
        }
    }

    /// Records a revision read after a commit; reports it when it differs
    /// from the last one seen.
    pub fn observe_revision(&mut self, revision: u64) -> (r: Option<u64>)
        ensures
            (final(self)@, r) == revision_step(old(self)@, revision),
    {
        if revision == self.library_revision {
            None
        } else {
            self.library_revision = revision;
            Some(revision)
        }
    }
}

/// The observer's state after a revision read, and what it reports: the
/// revision when it differs from the last one seen, nothing otherwise.
pub open spec fn revision_step(o: (i64, u64), revision: u64) -> ((i64, u64), Option<u64>) {
    if revision == o.1 {
        (o, None)
    } else {
        ((o.0, revision), Some(revision))
    }
}

/// A revision is reported at most once: reading the same revision again
/// reports nothing, and a changed revision is always reported.
pub proof fn lemma_revision_reported_once(o: (i64, u64), revision: u64)
    ensures
        revision_step(revision_step(o, revision).0, revision).1 is None,
        revision != o.1 ==> revision_step(o, revision).1 == Some(revision),
{
}

} // verus!
