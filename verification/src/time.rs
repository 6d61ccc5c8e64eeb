//! UTC timestamps in ISO 8601 form (`2024-03-01T12:34:56Z`), computed from
//! a count of seconds since the Unix epoch in the proleptic Gregorian
//! calendar.
use vstd::prelude::*;
use crate::text::{dec, dec_exec, extend, extend_str, to_string};

verus! {

pub open spec fn is_leap(y: nat) -> bool {
    y % 4 == 0 && (y % 100 != 0 || y % 400 == 0)
}

/// Days in year `y`.
pub open spec fn year_len(y: nat) -> nat {
    if is_leap(y) {
        366
    } else {
        365
    }
}

/// Days in month `m` (1 to 12) of year `y`.
pub open spec fn month_len(y: nat, m: nat) -> nat {
    if m == 2 {
        if is_leap(y) {
            29
        } else {
            28
        }
    } else if m == 4 || m == 6 || m == 9 || m == 11 {
        30
    } else {
        31
    }
}

/// The year holding the day `d` days after January 1 of year `y`, and the
/// day's index within that year.
pub open spec fn year_of(d: nat, y: nat) -> (nat, nat)
    decreases d,
{
    if d < year_len(y) {
        (y, d)
    } else {
        year_of((d - year_len(y)) as nat, y + 1)
    }
}

/// The month holding day index `d` of year `y`, counted from month `m`, and
/// the day's index within that month.
pub open spec fn month_of(d: nat, y: nat, m: nat) -> (nat, nat)
    decreases 12 - m,
{
    if m >= 12 || d < month_len(y, m) {
        (m, d)
    } else {
        month_of((d - month_len(y, m)) as nat, y, m + 1)
    }
}

/// Days of year `y` before month `m`.
pub open spec fn days_before_month(y: nat, m: nat) -> nat
    decreases m,
{
    if m <= 1 {
        0
    } else {
        days_before_month(y, (m - 1) as nat) + month_len(y, (m - 1) as nat)
    }
}

/// `(year, month, day of month)` of the day `days` days after 1970-01-01.
pub open spec fn civil(days: nat) -> (nat, nat, nat) {
    let (y, yd) = year_of(days, 1970);
    let (m, md) = month_of(yd, y, 1);
    (y, m, md + 1)
}

/// Two decimal digits of `n < 100`.
pub open spec fn two_digits(n: nat) -> Seq<char> {
    if n < 10 {
        seq!['0'] + dec(n)
    } else {
        dec(n)
    }
}

/// `YYYY-MM-DDTHH:MM:SSZ` for `secs` seconds after the epoch (years from
/// 1970 have at least four digits, so the year is its plain decimal text).
pub open spec fn iso8601(secs: nat) -> Seq<char> {
    let (y, m, d) = civil(secs / 86400);
    let t = secs % 86400;
    dec(y) + seq!['-'] + two_digits(m) + seq!['-'] + two_digits(d) + seq!['T'] + two_digits(t / 3600) + seq![':']
        + two_digits((t % 3600) / 60) + seq![':'] + two_digits(t % 60) + seq!['Z']
}

proof fn lemma_year_of_bounds(d: nat, y: nat)
    ensures
        year_of(d, y).0 >= y,
        year_of(d, y).1 < year_len(year_of(d, y).0),
    decreases d,
{
    if d >= year_len(y) {
        lemma_year_of_bounds((d - year_len(y)) as nat, y + 1);
    }
}

proof fn lemma_month_of_bounds(d: nat, y: nat, m: nat)
    requires
        1 <= m <= 12,
        d + days_before_month(y, m) < year_len(y),
    ensures
        m <= month_of(d, y, m).0 <= 12,
        month_of(d, y, m).1 < month_len(y, month_of(d, y, m).0),
    decreases 12 - m,
{
    if m >= 12 {
        assert(days_before_month(y, 12) + 31 == year_len(y)) by {
            reveal_with_fuel(days_before_month, 12);
        }
    } else if d >= month_len(y, m) {
        assert(days_before_month(y, m + 1) == days_before_month(y, m) + month_len(y, m));
        lemma_month_of_bounds((d - month_len(y, m)) as nat, y, m + 1);
    }
}

/// Law: every timestamp names a real calendar day: a year from 1970 on, a
/// month from 1 to 12 and a day within that month.
pub proof fn lemma_civil_valid(days: nat)
    ensures
        civil(days).0 >= 1970,
        1 <= civil(days).1 <= 12,
        1 <= civil(days).2 <= month_len(civil(days).0, civil(days).1),
{
    lemma_year_of_bounds(days, 1970);
    let (y, yd) = year_of(days, 1970);
    lemma_month_of_bounds(yd, y, 1);
}

/// Law: the months have their Gregorian lengths. The days of a year before
/// each month are 0, 31, 59, 90, 120, 151, 181, 212, 243, 273, 304 and 334,
/// one more from March on in a leap year, and a year has 365 days, 366 in a
/// leap year.
pub proof fn lemma_month_starts(y: nat)
    ensures
        ({
            let l: nat = if is_leap(y) {
                1
            } else {
                0
            };
            &&& days_before_month(y, 1) == 0
            &&& days_before_month(y, 2) == 31
            &&& days_before_month(y, 3) == 59 + l
            &&& days_before_month(y, 4) == 90 + l
            &&& days_before_month(y, 5) == 120 + l
            &&& days_before_month(y, 6) == 151 + l
            &&& days_before_month(y, 7) == 181 + l
            &&& days_before_month(y, 8) == 212 + l
            &&& days_before_month(y, 9) == 243 + l
            &&& days_before_month(y, 10) == 273 + l
            &&& days_before_month(y, 11) == 304 + l
            &&& days_before_month(y, 12) == 334 + l
            &&& days_before_month(y, 13) == 365 + l
            &&& year_len(y) == 365 + l
        }),
{
    reveal_with_fuel(days_before_month, 13);
}

/// Days from January 1 of year `a` to January 1 of year `b`.
pub open spec fn days_between(a: nat, b: nat) -> nat
    decreases b - a,
{
    if b <= a {
        0
    } else {
        year_len(a) + days_between(a + 1, b)
    }
}

proof fn lemma_year_of_count(d: nat, y: nat)
    ensures
        y <= year_of(d, y).0,
        d == days_between(y, year_of(d, y).0) + year_of(d, y).1,
    decreases d,
{
    if d >= year_len(y) {
        lemma_year_of_count((d - year_len(y)) as nat, y + 1);
    }
}

proof fn lemma_month_of_count(d: nat, y: nat, m: nat)
    requires
        1 <= m,
    ensures
        m <= month_of(d, y, m).0,
        d + days_before_month(y, m) == days_before_month(y, month_of(d, y, m).0) + month_of(d, y, m).1,
    decreases 12 - m,
{
    if !(m >= 12 || d < month_len(y, m)) {
        lemma_month_of_count((d - month_len(y, m)) as nat, y, m + 1);
        assert(days_before_month(y, m + 1) == days_before_month(y, m) + month_len(y, m));
    }
}

/// Law: a date counts back to its day: the days from 1970-01-01 to January 1
/// of its year, plus the days of that year before its month, plus its day of
/// the month less one, are the day number it was computed from.
pub proof fn lemma_civil_counts_back(days: nat)
    ensures
        days == days_between(1970, civil(days).0) + days_before_month(civil(days).0, civil(days).1) + civil(days).2
            - 1,
{
    lemma_year_of_count(days, 1970);
    let (y, yd) = year_of(days, 1970);
    lemma_month_of_count(yd, y, 1);
}

fn year_len_exec(y: u64) -> (r: u64)
    ensures
        r == year_len(y as nat),
{
    if y % 4 == 0 && (y % 100 != 0 || y % 400 == 0) {
        366
    } else {
        365
    }
}

fn month_len_exec(y: u64, m: u64) -> (r: u64)
    ensures
        r == month_len(y as nat, m as nat),
{
    if m == 2 {
        if y % 4 == 0 && (y % 100 != 0 || y % 400 == 0) {
            29
        } else {
            28
        }
    } else if m == 4 || m == 6 || m == 9 || m == 11 {
        30
    } else {
        31
    }
}

fn push_two_digits(v: &mut Vec<char>, n: u64)
    requires
        n < 100,
    ensures
        final(v)@ == old(v)@ + two_digits(n as nat),
{
    if n < 10 {
        v.push('0');
    }
    let d = dec_exec(n);
    extend(v, &d);
    if n < 10 {
        assert(final(v)@ =~= old(v)@ + two_digits(n as nat));
    }
}

/// The ISO 8601 UTC timestamp of `secs` seconds after the Unix epoch.
pub fn iso8601_utc(secs: u64) -> (r: String)
    ensures
        r@ == iso8601(secs as nat),
{
    let days = secs / 86400;
    let t = secs % 86400;
    let mut y: u64 = 1970;
    let mut d: u64 = days;
    while d >= year_len_exec(y)
        invariant
            year_of(days as nat, 1970) == year_of(d as nat, y as nat),
            1970 <= y,
            y - 1970 <= days - d,
            d <= days,
            days <= u64::MAX / 86400,
        decreases d,
    {
        let len = year_len_exec(y);
        d = d - len;
        y = y + 1;
    }
    let mut m: u64 = 1;
    let mut md: u64 = d;
    while m < 12 && md >= month_len_exec(y, m)
        invariant
            1 <= m <= 12,
            month_of(d as nat, y as nat, 1) == month_of(md as nat, y as nat, m as nat),
            md + days_before_month(y as nat, m as nat) == d,
            d < year_len(y as nat),
        decreases 12 - m,
    {
        let len = month_len_exec(y, m);
        md = md - len;
        m = m + 1;
    }
    assert(md < 31) by {
        if m < 12 {
            assert(md < month_len(y as nat, m as nat));
        } else {
            assert(days_before_month(y as nat, 12) + 31 == year_len(y as nat)) by {
                reveal_with_fuel(days_before_month, 12);
            }
        }
    }
    assert(year_of(days as nat, 1970) == (y as nat, d as nat));
    assert(month_of(d as nat, y as nat, 1) == (m as nat, md as nat));
    assert(civil((secs as nat) / 86400) == (y as nat, m as nat, (md + 1) as nat));
    let mut v: Vec<char> = Vec::new();
    let yd = dec_exec(y);
    extend(&mut v, &yd);
    v.push('-');
    push_two_digits(&mut v, m);
    v.push('-');
    push_two_digits(&mut v, md + 1);
    v.push('T');
    push_two_digits(&mut v, t / 3600);
    v.push(':');
    push_two_digits(&mut v, (t % 3600) / 60);
    v.push(':');
    push_two_digits(&mut v, t % 60);
    v.push('Z');
    assert(v@ =~= iso8601(secs as nat));
    to_string(&v)
}

} // verus!
