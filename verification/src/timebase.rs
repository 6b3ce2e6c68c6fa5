use vstd::prelude::*;

verus! {

/// The proleptic Gregorian leap-year rule.
pub open spec fn is_leap_year(y: int) -> bool {
    y % 4 == 0 && (y % 100 != 0 || y % 400 == 0)
}

pub open spec fn days_in_month(y: int, m: int) -> int {
    if m == 2 {
        if is_leap_year(y) {
            29
        } else {
            28
        }
    } else if m == 4 || m == 6 || m == 9 || m == 11 {
        30
    } else {
        31
    }
}

/// Days from 1970-01-01 to January 1 of year `y`.
pub open spec fn days_before_year(y: int) -> int
    decreases y - 1970,
{
    if y <= 1970 {
        0
    } else {
        days_before_year(y - 1) + if is_leap_year(y - 1) {
            366int
        } else {
            365int
        }
    }
}

/// Days from January 1 of year `y` to the first of month `m` of that year.
pub open spec fn days_before_month(y: int, m: int) -> int
    decreases m,
{
    if m <= 1 {
        0
    } else {
        days_before_month(y, m - 1) + days_in_month(y, m - 1)
    }
}

/// Days from 1970-01-01 to the civil date (y, m, d).
pub open spec fn days_from_civil(y: int, m: int, d: int) -> int {
    days_before_year(y) + days_before_month(y, m) + d - 1
}

/// Microseconds since 1970-01-01T00:00:00 UTC of a civil UTC instant,
/// leap seconds not counted, as Unix time has it.
pub open spec fn civil_to_micros(y: int, m: int, d: int, h: int, mi: int, s: int, us: int) -> int {
    (days_from_civil(y, m, d) * 86400 + h * 3600 + mi * 60 + s) * 1000000 + us
}

pub fn leap_year(y: u64) -> (r: bool)
    ensures
        r == is_leap_year(y as int),
{
    y % 4 == 0 && (y % 100 != 0 || y % 400 == 0)
}

pub fn month_days(y: u64, m: u64) -> (r: u64)
    requires
        1 <= m <= 12,
    ensures
        r == days_in_month(y as int, m as int),
{
    if m == 2 {
        if leap_year(y) {
            29
        } else {
            28
        }
    } else if m == 4 || m == 6 || m == 9 || m == 11 {
        30
    } else {
        31
    }
}

proof fn lemma_days_before_year_bound(y: int)
    requires
        y >= 1970,
    ensures
        0 <= days_before_year(y) <= (y - 1970) * 366,
    decreases y - 1970,
{
    if y > 1970 {
        lemma_days_before_year_bound(y - 1);
    }
}

fn days_to_year(y: u64) -> (r: u64)
    requires
        1970 <= y <= 9999,
    ensures
        r == days_before_year(y as int),
        r <= 2938614,
{
    let mut i: u64 = 1970;
    let mut acc: u64 = 0;
    while i < y
        invariant
            1970 <= i <= y <= 9999,
            acc == days_before_year(i as int),
            acc <= (i - 1970) * 366,
        decreases y - i,
    {
        acc = acc + if leap_year(i) { 366 } else { 365 };
        i = i + 1;
    }
    proof {
        lemma_days_before_year_bound(y as int);
        assert((y - 1970) * 366 <= 8029 * 366);
    }
    acc
}

fn days_to_month(y: u64, m: u64) -> (r: u64)
    requires
        1 <= m <= 12,
    ensures
        r == days_before_month(y as int, m as int),
        r <= 341,
{
    let mut i: u64 = 1;
    let mut acc: u64 = 0;
    while i < m
        invariant
            1 <= i <= m <= 12,
            acc == days_before_month(y as int, i as int),
            acc <= 31 * (i - 1),
        decreases m - i,
    {
        acc = acc + month_days(y, i);
        i = i + 1;
    }
    acc
}

/// The Unix time in microseconds of the civil UTC instant
/// (y, m, d, h, mi, s) plus `us` microseconds.
pub fn civil_micros(y: u64, m: u64, d: u64, h: u64, mi: u64, s: u64, us: u64) -> (r: i64)
    requires
        1970 <= y <= 9999,
        1 <= m <= 12,
        1 <= d <= days_in_month(y as int, m as int),
        h <= 23,
        mi <= 59,
        s <= 59,
        us <= 999999,
    ensures
        r == civil_to_micros(y as int, m as int, d as int, h as int, mi as int, s as int, us as int),
        0 <= r <= 300000000000000000,
{
    let days: u64 = days_to_year(y) + days_to_month(y, m) + (d - 1);
    let secs: u64 = days * 86400 + h * 3600 + mi * 60 + s;
    let micros: u64 = secs * 1000000 + us;
    micros as i64
}

} // verus!
