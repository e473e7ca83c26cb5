//! The proleptic Gregorian calendar, as days since 1970-01-01.
use vstd::prelude::*;

verus! {

/// The number of leap years from the year 1 to the year `y`.
pub open spec fn leap_days(y: int) -> int {
    y / 4 - y / 100 + y / 400
}

/// Whether `y` is a leap year.
pub open spec fn is_leap(y: int) -> bool {
    y % 4 == 0 && (y % 100 != 0 || y % 400 == 0)
}

/// The number of days of a year before the month `m`.
pub open spec fn days_before_month(y: int, m: int) -> int {
    let leap: int = if is_leap(y) {
        1
    } else {
        0
    };
    if m <= 1 {
        0
    } else if m == 2 {
        31
    } else if m == 3 {
        59 + leap
    } else if m == 4 {
        90 + leap
    } else if m == 5 {
        120 + leap
    } else if m == 6 {
        151 + leap
    } else if m == 7 {
        181 + leap
    } else if m == 8 {
        212 + leap
    } else if m == 9 {
        243 + leap
    } else if m == 10 {
        273 + leap
    } else if m == 11 {
        304 + leap
    } else if m == 12 {
        334 + leap
    } else {
        365 + leap
    }
}

/// The number of days of the month `m`.
pub open spec fn month_len(y: int, m: int) -> int {
    days_before_month(y, m + 1) - days_before_month(y, m)
}

/// Whether there is a day `d` in the month `m` of the year `y`.
pub open spec fn is_date(y: int, m: int, d: int) -> bool {
    1 <= m <= 12 && 1 <= d <= month_len(y, m)
}

/// The number of days from 1970-01-01 to the day `d` of the month `m` of the
/// year `y`. A day past the end of its month counts on into the next.
pub open spec fn day_number(y: int, m: int, d: int) -> int {
    365 * (y - 1) + leap_days(y - 1) + days_before_month(y, m) + d - 719163
}

/// The whole part of a quotient, rounded down.
pub fn floor_div(a: i64, b: i64) -> (q: i64)
    requires
        b > 0,
    ensures
        q == a as int / b as int,
{
    if a >= 0 {
        let q: u64 = (a as u64) / (b as u64);
        proof {
            assert(q <= a) by (nonlinear_arith)
                requires
                    q == a / b,
                    a >= 0,
                    b > 0,
            ;
        }
        q as i64
    } else {
        let m: u64 = (-(a as i128) - 1) as u64;
        let q: u64 = m / (b as u64);
        proof {
            assert(q <= m) by (nonlinear_arith)
                requires
                    q == m / (b as u64),
                    b > 0,
            ;
            assert(a as int / b as int == -(q as int) - 1) by (nonlinear_arith)
                requires
                    q as int == m as int / b as int,
                    m as int == -(a as int) - 1,
                    b > 0,
            ;
        }
        (-(q as i128) - 1) as i64
    }
}

/// A year has one leap day more behind it than the year before, if it is a leap
/// year.
proof fn lemma_leap_step(y: int)
    ensures
        leap_days(y) - leap_days(y - 1) == (if is_leap(y) {
            1int
        } else {
            0
        }),
{
}

/// The leap days of a year within an era of 400 years.
proof fn lemma_era(era: int, k: int)
    requires
        0 <= k < 400,
    ensures
        leap_days(400 * era + k) == 97 * era + k / 4 - k / 100,
{
}

/// Counts the days from 1970-01-01 to a date.
pub fn days_from_civil(year: i64, month: i64, day: i64) -> (n: i64)
    requires
        -1_000_000_000 <= year <= 1_000_000_000,
        1 <= month <= 12,
        0 <= day <= 100,
    ensures
        n == day_number(year as int, month as int, day as int),
{
    let y: i64 = if month <= 2 {
        year - 1
    } else {
        year
    };
    let era: i64 = floor_div(y, 400);
    let yoe: i64 = y - era * 400;
    let mp: i64 = if month > 2 {
        month - 3
    } else {
        month + 9
    };
    let doy: i64 = floor_div(153 * mp + 2, 5) + day - 1;
    let doe: i64 = yoe * 365 + floor_div(yoe, 4) - floor_div(yoe, 100) + doy;
    proof {
        lemma_era(era as int, yoe as int);
        lemma_leap_step(year as int);
    }
    era * 146_097 + doe - 719_468
}

/// The day of an era of 400 years lies in the year of the era that the quotient
/// gives.
proof fn lemma_year_of_era(doe: int) -> (yoe: int)
    requires
        0 <= doe < 146_097,
    ensures
        yoe == (doe - doe / 1460 + doe / 36524 - doe / 146096) / 365,
        0 <= yoe < 400,
        0 <= doe - (365 * yoe + yoe / 4 - yoe / 100) <= 365,
        doe - (365 * yoe + yoe / 4 - yoe / 100) == 365 ==> (yoe + 1) % 4 == 0 && ((yoe + 1) % 100
            != 0 || yoe == 399),
{
    (doe - doe / 1460 + doe / 36524 - doe / 146096) / 365
}

/// The month and the day of a day of the year that begins with March.
proof fn lemma_month_of_year(doy: int) -> (mp: int)
    requires
        0 <= doy <= 365,
    ensures
        mp == (5 * doy + 2) / 153,
        0 <= mp <= 11,
        1 <= doy - (153 * mp + 2) / 5 + 1 <= 31,
        doy >= 306 <==> mp >= 10,
        doy - (153 * mp + 2) / 5 + 1 <= (if mp == 11 {
            29int
        } else if mp == 1 || mp == 3 || mp == 6 || mp == 8 {
            30int
        } else {
            31int
        }),
        mp == 11 && doy - (153 * mp + 2) / 5 + 1 == 29 ==> doy == 365,
{
    (5 * doy + 2) / 153
}

/// The date of a number of days since 1970-01-01: its year, month and day.
pub fn civil_from_days(days: i64) -> (r: (i64, i64, i64))
    requires
        -1_000_000_000_000 <= days <= 1_000_000_000_000,
    ensures
        is_date(r.0 as int, r.1 as int, r.2 as int),
        day_number(r.0 as int, r.1 as int, r.2 as int) == days,
        -3_000_000_000 <= r.0 <= 3_000_000_000,
{
    let z: i64 = days + 719_468;
    let era: i64 = floor_div(z, 146_097);
    let doe: i64 = z - era * 146_097;
    proof {
        lemma_year_of_era(doe as int);
    }
    let yoe: i64 = floor_div(
        doe - floor_div(doe, 1460) + floor_div(doe, 36524) - floor_div(doe, 146_096),
        365,
    );
    let y: i64 = yoe + era * 400;
    let doy: i64 = doe - (365 * yoe + floor_div(yoe, 4) - floor_div(yoe, 100));
    proof {
        lemma_month_of_year(doy as int);
    }
    let mp: i64 = floor_div(5 * doy + 2, 153);
    let day: i64 = doy - floor_div(153 * mp + 2, 5) + 1;
    let month: i64 = if mp < 10 {
        mp + 3
    } else {
        mp - 9
    };
    let year: i64 = if month <= 2 {
        y + 1
    } else {
        y
    };
    proof {
        lemma_era(era as int, yoe as int);
        lemma_leap_step(year as int);
        if doy == 365 {
            assert(is_leap(y + 1)) by {
                lemma_era_leap(era as int, yoe as int);
            }
        }
    }
    (year, month, day)
}

/// A year of an era is a leap year as the year of the first era is.
proof fn lemma_era_leap(era: int, k: int)
    requires
        0 <= k < 400,
        (k + 1) % 4 == 0 && ((k + 1) % 100 != 0 || k == 399),
    ensures
        is_leap(400 * era + k + 1),
{
}

// ---------------------------------------------------------------------------
// Laws
// ---------------------------------------------------------------------------

/// The first day of the next year follows on the last day of a year.
proof fn lemma_year_start(y: int)
    ensures
        day_number(y + 1, 1, 1) == day_number(y, 12, 31) + 1,
        day_number(y + 1, 1, 1) >= day_number(y, 1, 1) + 365,
{
    lemma_leap_step(y);
}

proof fn lemma_year_starts(y: int, z: int)
    requires
        y < z,
    ensures
        day_number(y + 1, 1, 1) <= day_number(z, 1, 1),
    decreases z - y,
{
    if y + 1 < z {
        lemma_year_starts(y, z - 1);
        lemma_year_start(z - 1);
    }
}

proof fn lemma_date_in_year(y: int, m: int, d: int)
    requires
        is_date(y, m, d),
    ensures
        day_number(y, 1, 1) <= day_number(y, m, d) < day_number(y + 1, 1, 1),
{
    lemma_leap_step(y);
}

/// No two dates have the same number of days.
pub proof fn dates_are_unique(y: int, m: int, d: int, y2: int, m2: int, d2: int)
    requires
        is_date(y, m, d),
        is_date(y2, m2, d2),
        day_number(y, m, d) == day_number(y2, m2, d2),
    ensures
        y == y2 && m == m2 && d == d2,
{
    lemma_date_in_year(y, m, d);
    lemma_date_in_year(y2, m2, d2);
    if y < y2 {
        lemma_year_starts(y, y2);
    } else if y2 < y {
        lemma_year_starts(y2, y);
    }
}

/// The date of a number of days since 1970-01-01.
pub open spec fn date_of(n: int) -> (int, int, int) {
    choose|t: (int, int, int)|
        #![trigger day_number(t.0, t.1, t.2)]
        is_date(t.0, t.1, t.2) && day_number(t.0, t.1, t.2) == n
}

/// The date of a number of days is the one date with that number.
pub proof fn date_of_is(y: int, m: int, d: int)
    requires
        is_date(y, m, d),
    ensures
        date_of(day_number(y, m, d)) == (y, m, d),
{
    let n = day_number(y, m, d);
    let w = (y, m, d);
    assert(is_date(w.0, w.1, w.2) && day_number(w.0, w.1, w.2) == n);
    let t = date_of(n);
    dates_are_unique(t.0, t.1, t.2, y, m, d);
}

/// Every number of days is that of a date.
pub proof fn every_day_has_a_date(n: int)
    ensures
        is_date(date_of(n).0, date_of(n).1, date_of(n).2),
        day_number(date_of(n).0, date_of(n).1, date_of(n).2) == n,
{
    let z = n + 719_468;
    let era = z / 146_097;
    let doe = z % 146_097;
    let yoe = lemma_year_of_era(doe);
    let y = yoe + era * 400;
    let doy = doe - (365 * yoe + yoe / 4 - yoe / 100);
    let mp = lemma_month_of_year(doy);
    let day = doy - (153 * mp + 2) / 5 + 1;
    let month = if mp < 10 {
        mp + 3
    } else {
        mp - 9
    };
    let year = if month <= 2 {
        y + 1
    } else {
        y
    };
    lemma_era(era, yoe);
    lemma_leap_step(year);
    if doy == 365 {
        lemma_era_leap(era, yoe);
    }
    assert(is_date(year, month, day));
    assert(day_number(year, month, day) == n);
    date_of_is(year, month, day);
}

/// The days of the years from 0 to 9999 have dates in those years.
pub proof fn lemma_years_of_four_digits(n: int)
    requires
        day_number(0, 1, 1) <= n <= day_number(9999, 12, 31),
    ensures
        0 <= date_of(n).0 <= 9999,
{
    every_day_has_a_date(n);
    let (y, m, d) = date_of(n);
    lemma_date_in_year(y, m, d);
    if y < 0 {
        lemma_year_starts(y, 0);
    } else if y > 9999 {
        lemma_year_start(9999);
        if y > 10_000 {
            lemma_year_starts(9999, y);
        }
    }
}

/// The days are counted from the first of 1970, each one behind the day before it: a month
/// follows on its thirty-first day or its thirtieth, February on its twenty-eighth, or on
/// its twenty-ninth in a leap year, and a year on the last day of December.
pub proof fn days_follow_each_other(y: int, m: int, d: int)
    requires
        1 <= m <= 12,
    ensures
        day_number(1970, 1, 1) == 0,
        day_number(y, m, d + 1) == day_number(y, m, d) + 1,
        m == 1 || m == 3 || m == 5 || m == 7 || m == 8 || m == 10 ==> day_number(y, m + 1, 1)
            == day_number(y, m, 31) + 1 && is_date(y, m, 31) && !is_date(y, m, 32),
        m == 4 || m == 6 || m == 9 || m == 11 ==> day_number(y, m + 1, 1) == day_number(y, m, 30) + 1
            && is_date(y, m, 30) && !is_date(y, m, 31),
        m == 2 && y % 4 == 0 && (y % 100 != 0 || y % 400 == 0) ==> day_number(y, 3, 1)
            == day_number(y, 2, 29) + 1 && is_date(y, 2, 29) && !is_date(y, 2, 30),
        m == 2 && !(y % 4 == 0 && (y % 100 != 0 || y % 400 == 0)) ==> day_number(y, 3, 1)
            == day_number(y, 2, 28) + 1 && is_date(y, 2, 28) && !is_date(y, 2, 29),
        m == 12 ==> day_number(y + 1, 1, 1) == day_number(y, 12, 31) + 1 && is_date(y, 12, 31)
            && !is_date(y, 12, 32),
{
    lemma_leap_step(y);
}

} // verus!
