//! Calendar dates and the UTC timestamps written into the database and into
//! backup file names.

use vstd::prelude::*;

use crate::text::{append_str, decimal, push_char, u64_to_decimal};

verus! {

/// The proleptic Gregorian date `(year, month, day)` of a count of days
/// since 1970-01-01, by the era/year-of-era decomposition of the civil
/// calendar: 400-year eras of 146097 days, years starting on March 1.
/// `lemma_civil_counts_days` shows that it counts days on the calendar.
pub open spec fn civil(days: int) -> (int, int, int) {
    let z = days + 719468;
    let era = z / 146097;
    let doe = z % 146097;
    let yoe = (doe - doe / 1460 + doe / 36524 - doe / 146096) / 365;
    let y = yoe + era * 400;
    let doy = doe - (365 * yoe + yoe / 4 - yoe / 100);
    let mp = (5 * doy + 2) / 153;
    let d = doy - (153 * mp + 2) / 5 + 1;
    let m = if mp < 10 {
        mp + 3
    } else {
        mp - 9
    };
    (if m <= 2 {
        y + 1
    } else {
        y
    }, m, d)
}

proof fn lemma_year_of_era(doe: u32)
    requires
        doe < 146097,
    ensures
        (doe - doe / 1460 + doe / 36524 - doe / 146096) / 365 <= 399,
        0 <= doe - (365 * ((doe - doe / 1460 + doe / 36524 - doe / 146096) / 365) + ((doe - doe
            / 1460 + doe / 36524 - doe / 146096) / 365) / 4 - ((doe - doe / 1460 + doe / 36524
            - doe / 146096) / 365) / 100) <= 365,
{
    assert(((doe - doe / 1460 + doe / 36524 - doe / 146096) / 365) <= 399 && doe - (365 * ((doe
        - doe / 1460 + doe / 36524 - doe / 146096) / 365) + ((doe - doe / 1460 + doe / 36524 - doe
        / 146096) / 365) / 4 - ((doe - doe / 1460 + doe / 36524 - doe / 146096) / 365) / 100)
        >= 0 && doe - (365 * ((doe - doe / 1460 + doe / 36524 - doe / 146096) / 365) + ((doe - doe
        / 1460 + doe / 36524 - doe / 146096) / 365) / 4 - ((doe - doe / 1460 + doe / 36524 - doe
        / 146096) / 365) / 100) <= 365) by (bit_vector)
        requires
            doe < 146097,
    ;
}

proof fn lemma_month_day(doy: u32)
    requires
        doy <= 365,
    ensures
        (5 * doy + 2) / 153 <= 11,
        1 <= doy - (153 * ((5 * doy + 2) / 153) + 2) / 5 + 1 <= 31,
{
    assert((5 * doy + 2) / 153 <= 11 && 1 <= doy - (153 * ((5 * doy + 2) / 153) + 2) / 5 + 1 <= 31)
        by (bit_vector)
        requires
            doy <= 365,
    ;
}

/// Every count of days names a month from 1 to 12 and a day from 1 to 31.
pub proof fn lemma_civil_ranges(days: int)
    ensures
        1 <= civil(days).1 <= 12,
        1 <= civil(days).2 <= 31,
{
    let z = days + 719468;
    let doe = z % 146097;
    let yoe = (doe - doe / 1460 + doe / 36524 - doe / 146096) / 365;
    lemma_year_of_era(doe as u32);
    let doy = doe - (365 * yoe + yoe / 4 - yoe / 100);
    lemma_month_day(doy as u32);
}

/// Converts days since the Unix epoch to `(year, month, day)`.
pub fn civil_from_days(days: i64) -> (r: (i64, u32, u32))
    requires
        days + 719468 <= i64::MAX,
    ensures
        r.0 == civil(days as int).0,
        r.1 == civil(days as int).1,
        r.2 == civil(days as int).2,
        1 <= r.2 <= days_in_month(r.0 as int, r.1 as int),
{
    proof {
        lemma_civil_day_in_month(days as int);
    }
    let z: i128 = days as i128 + 719468;
    let k: i128 = 63136244999999;
    let shifted: u128 = (z + k * 146097) as u128;
    let q: u128 = shifted / 146097;
    let rem: u128 = shifted % 146097;
    proof {
        vstd::arithmetic::div_mod::lemma_fundamental_div_mod(shifted as int, 146097);
        vstd::arithmetic::div_mod::lemma_fundamental_div_mod_converse(
            z as int,
            146097,
            q as int - k as int,
            rem as int,
        );
        assert(q <= 340282366920938463463374607431768211455u128 / 146097);
    }
    let era: i128 = q as i128 - k;
    let doe: u32 = rem as u32;
    proof {
        lemma_year_of_era(doe);
    }
    let yoe: u32 = (doe - doe / 1460 + doe / 36524 - doe / 146096) / 365;
    let doy: u32 = doe - (365 * yoe + yoe / 4 - yoe / 100);
    proof {
        lemma_month_day(doy);
        assert(era * 146097 <= z);
        assert(era <= 9223372036854775807i128 / 146097 + 1);
        assert(era >= -9223372036854775808i128 / 146097 - 1);
    }
    let y: i128 = yoe as i128 + era * 400;
    let mp: u32 = (5 * doy + 2) / 153;
    let d: u32 = doy - (153 * mp + 2) / 5 + 1;
    let m: u32 = if mp < 10 {
        mp + 3
    } else {
        mp - 9
    };
    let y = if m <= 2 {
        y + 1
    } else {
        y
    };
    (y as i64, m, d)
}

// ── The calendar the day count follows ───────────────────────────────────

/// The first day, counted from the start of an era, of year `y` of the era.
pub open spec fn era_year_start(y: int) -> int {
    365 * y + y / 4 - y / 100
}

/// The day after the last day of year `y` of an era.
pub open spec fn era_year_end(y: int) -> int {
    if y == 399 {
        146097
    } else {
        era_year_start(y + 1)
    }
}

/// Whether year `y` of an era (a March-to-February year) holds a
/// February 29: the calendar year in which it ends is a leap year.
pub open spec fn long_era_year(y: int) -> bool {
    y % 4 == 3 && (y % 100 != 99 || y == 399)
}

proof fn lemma_year_of_era_bounds(doe: u32)
    requires
        doe < 146097,
    ensures
        ((doe) - (doe) / 1460 + (doe) / 36524 - (doe) / 146096) / 365 <= 399 && (365 * (((doe) - (doe) / 1460 + (doe) / 36524 - (doe) / 146096) / 365) + (((doe) - (doe) / 1460 + (doe) / 36524 - (doe) / 146096) / 365) / 4 - (((doe) - (doe) / 1460 + (doe) / 36524 - (doe) / 146096) / 365) / 100) <= doe && doe < (if (((doe) - (doe) / 1460 + (doe) / 36524 - (doe) / 146096) / 365) == 399 { 146097int } else { (365 * ((((doe) - (doe) / 1460 + (doe) / 36524 - (doe) / 146096) / 365) + 1) + ((((doe) - (doe) / 1460 + (doe) / 36524 - (doe) / 146096) / 365) + 1) / 4 - ((((doe) - (doe) / 1460 + (doe) / 36524 - (doe) / 146096) / 365) + 1) / 100) }),
{
    assert(((doe) - (doe) / 1460 + (doe) / 36524 - (doe) / 146096) / 365 <= 399 && (365 * (((doe) - (doe) / 1460 + (doe) / 36524 - (doe) / 146096) / 365) + (((doe) - (doe) / 1460 + (doe) / 36524 - (doe) / 146096) / 365) / 4 - (((doe) - (doe) / 1460 + (doe) / 36524 - (doe) / 146096) / 365) / 100) <= doe && doe < (if (((doe) - (doe) / 1460 + (doe) / 36524 - (doe) / 146096) / 365) == 399 { 146097int } else { (365 * ((((doe) - (doe) / 1460 + (doe) / 36524 - (doe) / 146096) / 365) + 1) + ((((doe) - (doe) / 1460 + (doe) / 36524 - (doe) / 146096) / 365) + 1) / 4 - ((((doe) - (doe) / 1460 + (doe) / 36524 - (doe) / 146096) / 365) + 1) / 100) })) by (bit_vector)
        requires
            doe < 146097,
    ;
}

proof fn lemma_era_year_length(y: u32)
    requires
        y < 400,
    ensures
        (if (y) == 399 { 146097int } else { (365 * ((y) + 1) + ((y) + 1) / 4 - ((y) + 1) / 100) }) - (365 * (y) + (y) / 4 - (y) / 100) == (if y % 4 == 3 && (y % 100 != 99 || y == 399) { 366int } else { 365int }),
{
    assert((if (y) == 399 { 146097int } else { (365 * ((y) + 1) + ((y) + 1) / 4 - ((y) + 1) / 100) }) - (365 * (y) + (y) / 4 - (y) / 100) == (if y % 4 == 3 && (y % 100 != 99 || y == 399) { 366int } else { 365int })) by (bit_vector)
        requires
            y < 400,
    ;
}

proof fn lemma_era_year_start_monotone(p: int, q: int)
    requires
        0 <= p < q <= 399,
    ensures
        era_year_start(p) + 365 <= era_year_start(q),
        era_year_end(p) <= era_year_start(q),
{
}

proof fn lemma_year_day_step(doy: u32)
    requires
        doy < 365,
    ensures
        (((5 * ((doy + 1)) + 2) / 153) == ((5 * (doy) + 2) / 153) && (((doy + 1)) - (153 * ((5 * ((doy + 1)) + 2) / 153) + 2) / 5 + 1) == ((doy) - (153 * ((5 * (doy) + 2) / 153) + 2) / 5 + 1) + 1 && (((5 * (doy) + 2) / 153) <= 10 ==> ((doy) - (153 * ((5 * (doy) + 2) / 153) + 2) / 5 + 1) < (if ((5 * (doy) + 2) / 153) == 1 || ((5 * (doy) + 2) / 153) == 3 || ((5 * (doy) + 2) / 153) == 6 || ((5 * (doy) + 2) / 153) == 8 { 30u32 } else { 31u32 })) && (((5 * (doy) + 2) / 153) == 11 ==> ((doy) - (153 * ((5 * (doy) + 2) / 153) + 2) / 5 + 1) + 336 == doy)) || (((5 * ((doy + 1)) + 2) / 153) == ((5 * (doy) + 2) / 153) + 1 && (((doy + 1)) - (153 * ((5 * ((doy + 1)) + 2) / 153) + 2) / 5 + 1) == 1 && ((doy) - (153 * ((5 * (doy) + 2) / 153) + 2) / 5 + 1) == (if ((5 * (doy) + 2) / 153) == 1 || ((5 * (doy) + 2) / 153) == 3 || ((5 * (doy) + 2) / 153) == 6 || ((5 * (doy) + 2) / 153) == 8 { 30u32 } else { 31u32 }) && ((5 * (doy) + 2) / 153) <= 10),
{
    assert((((5 * ((doy + 1)) + 2) / 153) == ((5 * (doy) + 2) / 153) && (((doy + 1)) - (153 * ((5 * ((doy + 1)) + 2) / 153) + 2) / 5 + 1) == ((doy) - (153 * ((5 * (doy) + 2) / 153) + 2) / 5 + 1) + 1 && (((5 * (doy) + 2) / 153) <= 10 ==> ((doy) - (153 * ((5 * (doy) + 2) / 153) + 2) / 5 + 1) < (if ((5 * (doy) + 2) / 153) == 1 || ((5 * (doy) + 2) / 153) == 3 || ((5 * (doy) + 2) / 153) == 6 || ((5 * (doy) + 2) / 153) == 8 { 30u32 } else { 31u32 })) && (((5 * (doy) + 2) / 153) == 11 ==> ((doy) - (153 * ((5 * (doy) + 2) / 153) + 2) / 5 + 1) + 336 == doy)) || (((5 * ((doy + 1)) + 2) / 153) == ((5 * (doy) + 2) / 153) + 1 && (((doy + 1)) - (153 * ((5 * ((doy + 1)) + 2) / 153) + 2) / 5 + 1) == 1 && ((doy) - (153 * ((5 * (doy) + 2) / 153) + 2) / 5 + 1) == (if ((5 * (doy) + 2) / 153) == 1 || ((5 * (doy) + 2) / 153) == 3 || ((5 * (doy) + 2) / 153) == 6 || ((5 * (doy) + 2) / 153) == 8 { 30u32 } else { 31u32 }) && ((5 * (doy) + 2) / 153) <= 10)) by (bit_vector)
        requires
            doy < 365,
    ;
}

proof fn lemma_year_ends(doy: u32)
    requires
        doy <= 365,
    ensures
        ((doy == 364 || doy == 365) ==> (((5 * (doy) + 2) / 153) == 11 && ((doy) - (153 * ((5 * (doy) + 2) / 153) + 2) / 5 + 1) + 336 == doy)) && (doy == 0 ==> (((5 * (doy) + 2) / 153) == 0 && ((doy) - (153 * ((5 * (doy) + 2) / 153) + 2) / 5 + 1) == 1)),
{
    assert(((doy == 364 || doy == 365) ==> (((5 * (doy) + 2) / 153) == 11 && ((doy) - (153 * ((5 * (doy) + 2) / 153) + 2) / 5 + 1) + 336 == doy)) && (doy == 0 ==> (((5 * (doy) + 2) / 153) == 0 && ((doy) - (153 * ((5 * (doy) + 2) / 153) + 2) / 5 + 1) == 1))) by (bit_vector)
        requires
            doy <= 365,
    ;
}

/// The year of an era a day of that era falls in, as `civil` computes it.
pub open spec fn year_of_era(doe: int) -> int {
    (doe - doe / 1460 + doe / 36524 - doe / 146096) / 365
}

/// Proleptic Gregorian leap years.
pub open spec fn is_leap_year(y: int) -> bool {
    y % 4 == 0 && (y % 100 != 0 || y % 400 == 0)
}

pub open spec fn days_in_month(y: int, m: int) -> int {
    if m == 2 {
        if is_leap_year(y) {
            29
        } else {
            28
        }
    } else if m == 4 || m == 6 || m == 9 || m == 11 {
        30
    } else {
        31
    }
}

/// The calendar day after `(year, month, day)`.
pub open spec fn next_date(date: (int, int, int)) -> (int, int, int) {
    let (y, m, d) = date;
    if d < days_in_month(y, m) {
        (y, m, d + 1)
    } else if m < 12 {
        (y, m + 1, 1)
    } else {
        (y + 1, 1, 1)
    }
}

proof fn lemma_year_of_era_int(doe: int)
    requires
        0 <= doe < 146097,
    ensures
        0 <= year_of_era(doe) <= 399,
        era_year_start(year_of_era(doe)) <= doe < era_year_end(year_of_era(doe)),
{
    lemma_year_of_era_bounds(doe as u32);
}

proof fn lemma_year_of_era_unique(doe: int, y: int)
    requires
        0 <= doe < 146097,
        0 <= y <= 399,
        era_year_start(y) <= doe < era_year_end(y),
    ensures
        year_of_era(doe) == y,
{
    lemma_year_of_era_int(doe);
    let z = year_of_era(doe);
    if z < y {
        lemma_era_year_start_monotone(z, y);
    } else if y < z {
        lemma_era_year_start_monotone(y, z);
    }
}

proof fn lemma_era_year_length_int(y: int)
    requires
        0 <= y <= 399,
    ensures
        era_year_end(y) - era_year_start(y) == if long_era_year(y) {
            366int
        } else {
            365int
        },
{
    lemma_era_year_length(y as u32);
}

/// The calendar year ending in year `y` of an era is a leap year exactly
/// when that era year is long.
proof fn lemma_leap_of_era_year(y: int, era: int)
    requires
        0 <= y <= 399,
    ensures
        is_leap_year(y + 1 + era * 400) == long_era_year(y),
{
    let x = y + 1;
    vstd::arithmetic::div_mod::lemma_mod_multiples_vanish(era * 100, x, 4);
    vstd::arithmetic::div_mod::lemma_mod_multiples_vanish(era * 4, x, 100);
    vstd::arithmetic::div_mod::lemma_mod_multiples_vanish(era, x, 400);
    assert(4 * (era * 100) + x == y + 1 + era * 400) by (nonlinear_arith)
        requires
            x == y + 1,
    ;
    assert(100 * (era * 4) + x == y + 1 + era * 400) by (nonlinear_arith)
        requires
            x == y + 1,
    ;
    assert(400 * era + x == y + 1 + era * 400) by (nonlinear_arith)
        requires
            x == y + 1,
    ;
}

proof fn lemma_month_of(mp: int, y: int)
    requires
        0 <= mp <= 10,
    ensures
        days_in_month(y, if mp < 10 { mp + 3 } else { mp - 9 }) == if mp == 1 || mp == 3 || mp == 6
            || mp == 8 {
            30int
        } else {
            31int
        },
{
}

/// Day counting follows the proleptic Gregorian calendar: day 0 is
/// 1970-01-01, and the day after any day is the calendar day after its
/// date.
pub proof fn lemma_civil_counts_days(days: int)
    ensures
        civil(0) == (1970int, 1int, 1int),
        civil(days + 1) == next_date(civil(days)),
{
    assert(civil(0) == (1970int, 1int, 1int)) by {
        assert(719468int / 146097 == 4);
        assert(719468int % 146097 == 135080);
        assert(year_of_era(135080) == 369);
    }
    let z = days + 719468;
    let era = z / 146097;
    let doe = z % 146097;
    vstd::arithmetic::div_mod::lemma_fundamental_div_mod(z, 146097);
    lemma_year_of_era_int(doe);
    let yoe = year_of_era(doe);
    let doy = doe - era_year_start(yoe);
    lemma_era_year_length_int(yoe);
    let era2 = (z + 1) / 146097;
    let doe2 = (z + 1) % 146097;
    if doe < 146096 {
        vstd::arithmetic::div_mod::lemma_fundamental_div_mod_converse(z + 1, 146097, era, doe + 1);
        assert(era2 == era && doe2 == doe + 1);
        if doe + 1 < era_year_end(yoe) {
            lemma_year_of_era_unique(doe + 1, yoe);
            assert(doy < 365);
            lemma_year_day_step(doy as u32);
            let mp = (5 * doy + 2) / 153;
            if mp <= 10 {
                lemma_month_of(mp, yoe + era * 400);
                lemma_month_of(mp, yoe + era * 400 + 1);
            } else {
                lemma_leap_of_era_year(yoe, era);
            }
        } else {
            assert(doe + 1 == era_year_end(yoe));
            assert(yoe < 399);
            lemma_era_year_length_int(yoe + 1);
            lemma_year_of_era_unique(doe + 1, yoe + 1);
            lemma_year_ends(doy as u32);
            lemma_year_ends(0);
            lemma_leap_of_era_year(yoe, era);
        }
    } else {
        vstd::arithmetic::div_mod::lemma_fundamental_div_mod_converse(z + 1, 146097, era + 1, 0);
        assert(era2 == era + 1 && doe2 == 0);
        assert(year_of_era(146096) == 399);
        assert(year_of_era(0) == 0);
        lemma_year_ends(365);
        lemma_year_ends(0);
        lemma_leap_of_era_year(399, era);
    }
}


proof fn lemma_month_day_max(doy: u32)
    requires
        doy <= 365,
    ensures
        (((5 * (doy) + 2) / 153) <= 10 ==> ((doy) - (153 * ((5 * (doy) + 2) / 153) + 2) / 5 + 1) <= (if ((5 * (doy) + 2) / 153) == 1 || ((5 * (doy) + 2) / 153) == 3 || ((5 * (doy) + 2) / 153) == 6 || ((5 * (doy) + 2) / 153) == 8 { 30u32 } else { 31u32 })) && (((5 * (doy) + 2) / 153) == 11 ==> ((doy) - (153 * ((5 * (doy) + 2) / 153) + 2) / 5 + 1) + 336 == doy),
{
    assert((((5 * (doy) + 2) / 153) <= 10 ==> ((doy) - (153 * ((5 * (doy) + 2) / 153) + 2) / 5 + 1) <= (if ((5 * (doy) + 2) / 153) == 1 || ((5 * (doy) + 2) / 153) == 3 || ((5 * (doy) + 2) / 153) == 6 || ((5 * (doy) + 2) / 153) == 8 { 30u32 } else { 31u32 })) && (((5 * (doy) + 2) / 153) == 11 ==> ((doy) - (153 * ((5 * (doy) + 2) / 153) + 2) / 5 + 1) + 336 == doy)) by (bit_vector)
        requires
            doy <= 365,
    ;
}

/// Every date the day count names is a real calendar date: its day is at
/// least 1 and at most the length of its month (29 in February of a leap
/// year, 28 in other Februaries).
pub proof fn lemma_civil_day_in_month(days: int)
    ensures
        1 <= civil(days).1 <= 12,
        1 <= civil(days).2 <= days_in_month(civil(days).0, civil(days).1),
{
    lemma_civil_ranges(days);
    let z = days + 719468;
    let era = z / 146097;
    let doe = z % 146097;
    vstd::arithmetic::div_mod::lemma_fundamental_div_mod(z, 146097);
    lemma_year_of_era_int(doe);
    let yoe = year_of_era(doe);
    let doy = doe - era_year_start(yoe);
    lemma_era_year_length_int(yoe);
    lemma_month_day_max(doy as u32);
    let mp = (5 * doy + 2) / 153;
    if mp <= 10 {
        lemma_month_of(mp, yoe + era * 400);
    } else {
        lemma_leap_of_era_year(yoe, era);
    }
}


// ── Timestamps ───────────────────────────────────────────────────────────

/// `n` in decimal, left-padded with zeros to at least `width` digits.
pub open spec fn zero_padded(n: nat, width: nat) -> Seq<char>
    decreases width,
{
    if decimal(n).len() >= width {
        decimal(n)
    } else {
        seq!['0'] + zero_padded(n, (width - 1) as nat)
    }
}

fn zero_padded_of(n: u64, width: u64) -> (r: String)
    ensures
        r@ == zero_padded(n as nat, width as nat),
    decreases width,
{
    let digits = u64_to_decimal(n);
    if crate::text::char_count(digits.as_str()) as u64 >= width {
        digits
    } else {
        let rest = zero_padded_of(n, width - 1);
        let mut s = String::new();
        push_char(&mut s, '0');
        append_str(&mut s, rest.as_str());
        s
    }
}

/// `std::time::SystemTime`, a reading of the system clock.
#[verifier::external_type_specification]
#[verifier::external_body]
pub struct ExSystemTime(std::time::SystemTime);

/// `SystemTime::now`: the current reading of the system clock. Nothing is
/// promised of which moment it is.
#[verifier::external_body]
fn system_now() -> std::time::SystemTime {
    std::time::SystemTime::now()
}

/// `SystemTime::duration_since(UNIX_EPOCH)`: how long after the epoch the
/// reading lies, or `None` for a reading before the epoch. The reading is
/// opaque, so nothing is stated of the result.
#[verifier::external_body]
fn since_epoch(t: &std::time::SystemTime) -> Option<std::time::Duration> {
    t.duration_since(std::time::UNIX_EPOCH).ok()
}

/// `Duration::as_secs`: the whole seconds of a duration. The duration is
/// opaque, so nothing is stated of the result.
#[verifier::external_body]
fn duration_secs(d: &std::time::Duration) -> u64 {
    d.as_secs()
}

/// Seconds since the Unix epoch by the system clock; a clock set before
/// the epoch reads as zero.
fn unix_now_secs() -> u64 {
    let now = system_now();
    match since_epoch(&now) {
        Some(d) => duration_secs(&d),
        None => 0,
    }
}

/// The date and time of day of a moment, in seconds since the epoch.
pub open spec fn moment_parts(secs: nat) -> (int, int, int, nat, nat, nat) {
    let (y, m, d) = civil((secs / 86400) as int);
    let t = secs % 86400;
    (y, m, d, t / 3600, (t % 3600) / 60, t % 60)
}

/// `YYYY-MM-DDTHH:MM:SS` (UTC).
pub open spec fn iso_timestamp_text(secs: nat) -> Seq<char> {
    let (y, m, d, h, mi, s) = moment_parts(secs);
    zero_padded(y as nat, 4) + seq!['-'] + zero_padded(m as nat, 2) + seq!['-'] + zero_padded(
        d as nat,
        2,
    ) + seq!['T'] + zero_padded(h, 2) + seq![':'] + zero_padded(mi, 2) + seq![':'] + zero_padded(
        s,
        2,
    )
}

/// `YYYYMMDD-HHMMSS` (UTC).
pub open spec fn compact_timestamp_text(secs: nat) -> Seq<char> {
    let (y, m, d, h, mi, s) = moment_parts(secs);
    zero_padded(y as nat, 4) + zero_padded(m as nat, 2) + zero_padded(d as nat, 2) + seq!['-']
        + zero_padded(h, 2) + zero_padded(mi, 2) + zero_padded(s, 2)
}

proof fn lemma_civil_year_nonneg(days: int)
    requires
        days >= 0,
    ensures
        civil(days).0 >= 0,
{
    let z = days + 719468;
    let doe = z % 146097;
    let yoe = (doe - doe / 1460 + doe / 36524 - doe / 146096) / 365;
    lemma_year_of_era(doe as u32);
    assert(z / 146097 >= 0);
}

fn moment_of(secs: u64) -> (r: (u64, u64, u64, u64, u64, u64))
    ensures
        r.0 as int == moment_parts(secs as nat).0,
        r.1 as int == moment_parts(secs as nat).1,
        r.2 as int == moment_parts(secs as nat).2,
        r.3 as nat == moment_parts(secs as nat).3,
        r.4 as nat == moment_parts(secs as nat).4,
        r.5 as nat == moment_parts(secs as nat).5,
{
    let days = (secs / 86400) as i64;
    let (y, m, d) = civil_from_days(days);
    proof {
        lemma_civil_year_nonneg(days as int);
    }
    let t = secs % 86400;
    (y as u64, m as u64, d as u64, t / 3600, (t % 3600) / 60, t % 60)
}

/// The ISO-8601 UTC timestamp of a moment.
pub fn timestamp_of(secs: u64) -> (r: String)
    ensures
        r@ == iso_timestamp_text(secs as nat),
{
    let (y, m, d, h, mi, s) = moment_of(secs);
    let mut out = zero_padded_of(y, 4);
    push_char(&mut out, '-');
    append_str(&mut out, zero_padded_of(m, 2).as_str());
    push_char(&mut out, '-');
    append_str(&mut out, zero_padded_of(d, 2).as_str());
    push_char(&mut out, 'T');
    append_str(&mut out, zero_padded_of(h, 2).as_str());
    push_char(&mut out, ':');
    append_str(&mut out, zero_padded_of(mi, 2).as_str());
    push_char(&mut out, ':');
    append_str(&mut out, zero_padded_of(s, 2).as_str());
    out
}

/// The compact UTC timestamp of a moment, as used in file names.
pub fn compact_timestamp_of(secs: u64) -> (r: String)
    ensures
        r@ == compact_timestamp_text(secs as nat),
{
    let (y, m, d, h, mi, s) = moment_of(secs);
    let mut out = zero_padded_of(y, 4);
    append_str(&mut out, zero_padded_of(m, 2).as_str());
    append_str(&mut out, zero_padded_of(d, 2).as_str());
    push_char(&mut out, '-');
    append_str(&mut out, zero_padded_of(h, 2).as_str());
    append_str(&mut out, zero_padded_of(mi, 2).as_str());
    append_str(&mut out, zero_padded_of(s, 2).as_str());
    out
}

/// The current UTC time as `YYYY-MM-DDTHH:MM:SS`. The clock reading is not
/// determined; the text is that of whatever moment was read.
pub fn chrono_now() -> (r: String)
    ensures
        exists|secs: nat| secs <= u64::MAX && r@ == iso_timestamp_text(secs),
{
    let secs = unix_now_secs();
    timestamp_of(secs)
}

/// The current UTC time as `YYYYMMDD-HHMMSS`.
pub fn chrono_now_compact() -> (r: String)
    ensures
        exists|secs: nat| secs <= u64::MAX && r@ == compact_timestamp_text(secs),
{
    let secs = unix_now_secs();
    compact_timestamp_of(secs)
}

} // verus!
