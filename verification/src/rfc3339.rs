//! Timestamps of transcript lines.
use vstd::prelude::*;

use crate::calendar::{
    date_of, day_number, days_from_civil, every_day_has_a_date, lemma_years_of_four_digits,
};
use crate::num::{
    digit_char, digit_value, is_digit, lemma_digit_char, lemma_four_digits, lemma_two_digits,
    numeral_value, zero_padded,
};
use crate::text::chars_of;
use crate::timefmt::utc_text;

verus! {

/// The number that two digits at `i` write.
pub open spec fn two_at(s: Seq<char>, i: int) -> Option<int> {
    if 0 <= i && i + 1 < s.len() && is_digit(s[i]) && is_digit(s[i + 1]) {
        Some(10 * digit_value(s[i]) + digit_value(s[i + 1]))
    } else {
        None
    }
}

/// The end of the run of digits that begins at `i`.
pub open spec fn digits_end(s: Seq<char>, i: int) -> int
    decreases s.len() - i,
{
    if 0 <= i < s.len() && is_digit(s[i]) {
        digits_end(s, i + 1)
    } else {
        i
    }
}

/// The milliseconds that a fraction of a second writes: its first three digits,
/// with zeros behind where there are fewer.
pub open spec fn fraction_millis(d: Seq<char>) -> int {
    if d.len() == 0 {
        0
    } else if d.len() == 1 {
        100 * numeral_value(d)
    } else if d.len() == 2 {
        10 * numeral_value(d)
    } else {
        numeral_value(d.take(3))
    }
}

/// The offset from UTC, in seconds, that the zone at `i` writes: none or `Z` is
/// UTC, else `+HH:MM` or `+HHMM`, with either sign.
pub open spec fn zone_seconds(s: Seq<char>, i: int) -> Option<int> {
    if i >= s.len() || s[i] == 'Z' || s[i] == 'z' {
        Some(0)
    } else if s[i] == '+' || s[i] == '-' {
        let m_start = if i + 3 < s.len() && s[i + 3] == ':' {
            i + 4
        } else {
            i + 3
        };
        match (two_at(s, i + 1), two_at(s, m_start)) {
            (Some(h), Some(m)) => if h <= 23 && m <= 59 {
                if s[i] == '-' {
                    Some(-(3600 * h + 60 * m))
                } else {
                    Some(3600 * h + 60 * m)
                }
            } else {
                None
            },
            _ => None,
        }
    } else {
        None
    }
}

/// Whether `s` begins with `YYYY-MM-DDTHH:MM:SS`, with numbers that a date and
/// a time can have, a leap second among them.
pub open spec fn has_date_time(s: Seq<char>) -> bool {
    &&& s.len() >= 19
    &&& two_at(s, 0) is Some && two_at(s, 2) is Some
    &&& s[4] == '-' && s[7] == '-'
    &&& (s[10] == 'T' || s[10] == 't' || s[10] == ' ')
    &&& s[13] == ':' && s[16] == ':'
    &&& two_at(s, 5) matches Some(month) && 1 <= month <= 12
    &&& two_at(s, 8) matches Some(day) && 1 <= day <= 31
    &&& two_at(s, 11) matches Some(hour) && hour <= 23
    &&& two_at(s, 14) matches Some(minute) && minute <= 59
    &&& two_at(s, 17) matches Some(second) && second <= 60
}

/// The position behind the seconds and their fraction.
pub open spec fn zone_start(s: Seq<char>) -> int {
    if s.len() > 19 && s[19] == '.' {
        digits_end(s, 20)
    } else {
        19
    }
}

/// The milliseconds of the second.
pub open spec fn millis_of(s: Seq<char>) -> int {
    if s.len() > 19 && s[19] == '.' {
        fraction_millis(s.subrange(20, digits_end(s, 20)))
    } else {
        0
    }
}

/// The instant that a timestamp writes, in milliseconds since 1970-01-01 UTC.
pub open spec fn instant_of(s: Seq<char>) -> Option<int> {
    if has_date_time(s) {
        match zone_seconds(s, zone_start(s)) {
            Some(offset) => {
                let year = 100 * two_at(s, 0)->0 + two_at(s, 2)->0;
                let days = day_number(year, two_at(s, 5)->0, two_at(s, 8)->0);
                let secs = 86400 * days + 3600 * two_at(s, 11)->0 + 60 * two_at(s, 14)->0 + two_at(
                    s,
                    17,
                )->0 - offset;
                Some(1000 * secs + millis_of(s))
            },
            None => None,
        }
    } else {
        None
    }
}

fn two(b: &Vec<char>, i: usize) -> (r: Option<i64>)
    requires
        i <= usize::MAX - 1,
    ensures
        match r {
            Some(n) => two_at(b@, i as int) == Some(n as int) && 0 <= n <= 99,
            None => two_at(b@, i as int) is None,
        },
{
    if i + 1 >= b.len() {
        return None;
    }
    let x = b[i];
    let y = b[i + 1];
    if !('0' <= x && x <= '9') || !('0' <= y && y <= '9') {
        return None;
    }
    let p: i64 = (x as u8 - 48) as i64;
    let q: i64 = (y as u8 - 48) as i64;
    Some(10 * p + q)
}

/// The offset of the zone at `i`.
fn parse_offset(b: &Vec<char>, i: usize) -> (r: Option<i64>)
    requires
        i <= b@.len(),
    ensures
        match r {
            Some(n) => zone_seconds(b@, i as int) == Some(n as int) && -90_000 <= n <= 90_000,
            None => zone_seconds(b@, i as int) is None,
        },
{
    let n: usize = b.len();
    if i >= n {
        return Some(0);
    }
    let c = b[i];
    if c == 'Z' || c == 'z' {
        return Some(0);
    }
    if c != '+' && c != '-' {
        return None;
    }
    if n - i < 5 {
        // Two digits for the hours and two for the minutes do not fit.
        return None;
    }
    let colon = b[i + 3] == ':';
    let m_start: usize = if colon {
        i + 4
    } else {
        i + 3
    };
    match (two(b, i + 1), two(b, m_start)) {
        (Some(h), Some(m)) => {
            if h > 23 || m > 59 {
                return None;
            }
            let magnitude: i64 = 3600 * h + 60 * m;
            if c == '-' {
                Some(-magnitude)
            } else {
                Some(magnitude)
            }
        },
        _ => None,
    }
}

proof fn lemma_digits_end(s: Seq<char>, i: int, k: int)
    requires
        0 <= i <= k <= s.len(),
        forall|j: int| i <= j < k ==> is_digit(#[trigger] s[j]),
        k < s.len() ==> !is_digit(s[k]),
    ensures
        digits_end(s, i) == k,
    decreases k - i,
{
    if i < k {
        assert(is_digit(s[i]));
        lemma_digits_end(s, i + 1, k);
    }
}

/// The milliseconds of the fraction at 19, and the position behind it.
fn parse_fraction(b: &Vec<char>) -> (r: (i64, usize))
    requires
        b@.len() >= 19,
    ensures
        r.0 == millis_of(b@),
        0 <= r.0 <= 999,
        r.1 == zone_start(b@),
        r.1 <= b@.len(),
{
    let n: usize = b.len();
    if n == 19 || b[19] != '.' {
        return (0, 19);
    }
    let mut k: usize = 20;
    while k < n && '0' <= b[k] && b[k] <= '9'
        invariant
            n == b@.len(),
            20 <= k <= n,
            forall|j: int| 20 <= j < k ==> is_digit(#[trigger] b@[j]),
        decreases n - k,
    {
        k = k + 1;
    }
    proof {
        lemma_digits_end(b@, 20, k as int);
    }
    let ghost d = b@.subrange(20, k as int);
    let mut millis: i64 = 0;
    if k > 20 {
        proof {
            assert(is_digit(b@[20]));
            assert(d.take(1).drop_last() =~= Seq::<char>::empty());
            assert(numeral_value(d.take(1).drop_last()) == 0);
            assert(d.take(1).last() == b@[20]);
        }
        let x: i64 = (b[20] as u8 - 48) as i64;
        proof {
            assert(numeral_value(d.take(1)) == x);
            assert(d.len() == 1 ==> d.take(1) =~= d);
        }
        if k > 21 {
            proof {
                assert(is_digit(b@[21]));
                assert(d.take(2).drop_last() =~= d.take(1));
                assert(d.take(2).last() == b@[21]);
                assert(d.len() == 2 ==> d.take(2) =~= d);
            }
            let y: i64 = (b[21] as u8 - 48) as i64;
            proof {
                assert(numeral_value(d.take(2)) == 10 * x + y);
            }
            if k > 22 {
                proof {
                    assert(is_digit(b@[22]));
                    assert(d.take(3).drop_last() =~= d.take(2));
                    assert(d.take(3).last() == b@[22]);
                }
                let z: i64 = (b[22] as u8 - 48) as i64;
                proof {
                    assert(numeral_value(d.take(3)) == 100 * x + 10 * y + z);
                }
                millis = 100 * x + 10 * y + z;
            } else {
                millis = 100 * x + 10 * y;
            }
        } else {
            millis = 100 * x;
        }
    }
    (millis, k)
}

/// Reads an RFC 3339 timestamp as Unix epoch milliseconds. Gives none for
/// anything that it cannot read.
pub fn epoch_ms_from_rfc3339(s: &str) -> (r: Option<i64>)
    ensures
        match r {
            Some(ms) => instant_of(s@) == Some(ms as int),
            None => instant_of(s@) is None,
        },
{
    let b = chars_of(s);
    if b.len() < 19 {
        return None;
    }
    if b[4] != '-' || b[7] != '-' || b[13] != ':' || b[16] != ':' {
        return None;
    }
    if b[10] != 'T' && b[10] != 't' && b[10] != ' ' {
        return None;
    }
    let year: i64 = match (two(&b, 0), two(&b, 2)) {
        (Some(x), Some(y)) => 100 * x + y,
        _ => {
            return None;
        },
    };
    let (month, day) = match (two(&b, 5), two(&b, 8)) {
        (Some(x), Some(y)) => (x, y),
        _ => {
            return None;
        },
    };
    let (hour, minute, second) = match (two(&b, 11), two(&b, 14), two(&b, 17)) {
        (Some(x), Some(y), Some(z)) => (x, y, z),
        _ => {
            return None;
        },
    };
    if month < 1 || month > 12 || day < 1 || day > 31 || hour > 23 || minute > 59 || second > 60 {
        return None;
    }
    let (millis, at) = parse_fraction(&b);
    let offset: i64 = match parse_offset(&b, at) {
        Some(x) => x,
        None => {
            return None;
        },
    };
    let days: i64 = days_from_civil(year, month, day);
    let secs: i64 = days * 86_400 + hour * 3600 + minute * 60 + second - offset;
    Some(secs * 1000 + millis)
}

// ---------------------------------------------------------------------------
// Laws
// ---------------------------------------------------------------------------

/// Two digits are read back as the number that they were padded from.
proof fn lemma_two_at(s: Seq<char>, i: int, n: int)
    requires
        0 <= i && i + 1 < s.len(),
        0 <= n <= 99,
        s[i] == digit_char(n / 10),
        s[i + 1] == digit_char(n % 10),
    ensures
        two_at(s, i) == Some(n),
{
    lemma_digit_char(n / 10);
    lemma_digit_char(n % 10);
}

/// A date, as it is shown, has its numbers at their positions.
proof fn lemma_shown_date(date: Seq<char>, year: int, month: int, day: int)
    requires
        0 <= year <= 9999,
        1 <= month <= 12,
        1 <= day <= 31,
        date == zero_padded(year, 4) + "-"@ + zero_padded(month, 2) + "-"@ + zero_padded(day, 2),
    ensures
        date.len() == 10,
        two_at(date, 0) == Some(year / 100),
        two_at(date, 2) == Some(year % 100),
        date[4] == '-',
        two_at(date, 5) == Some(month),
        date[7] == '-',
        two_at(date, 8) == Some(day),
{
    reveal_strlit("-");
    lemma_digit_pairs_of_year(year);
    lemma_four_digits(year);
    lemma_two_digits(month);
    lemma_two_digits(day);
    lemma_two_at(date, 0, year / 100);
    lemma_two_at(date, 2, year % 100);
    lemma_two_at(date, 5, month);
    lemma_two_at(date, 8, day);
}

/// A time of day, as it is shown, has its numbers at their positions.
proof fn lemma_shown_time(time: Seq<char>, hour: int, minute: int, second: int)
    requires
        0 <= hour <= 23,
        0 <= minute <= 59,
        0 <= second <= 59,
        time == zero_padded(hour, 2) + ":"@ + zero_padded(minute, 2) + ":"@ + zero_padded(second, 2)
            + "Z"@,
    ensures
        time.len() == 9,
        two_at(time, 0) == Some(hour),
        time[2] == ':',
        two_at(time, 3) == Some(minute),
        time[5] == ':',
        two_at(time, 6) == Some(second),
        time[8] == 'Z',
{
    reveal_strlit(":");
    reveal_strlit("Z");
    lemma_two_digits(hour);
    lemma_two_digits(minute);
    lemma_two_digits(second);
    lemma_two_at(time, 0, hour);
    lemma_two_at(time, 3, minute);
    lemma_two_at(time, 6, second);
}

/// Two digits of a part are the same two digits of the whole.
proof fn lemma_two_at_of_part(s: Seq<char>, part: Seq<char>, at: int, i: int)
    requires
        0 <= at,
        at + part.len() <= s.len(),
        s.subrange(at, at + part.len()) == part,
        0 <= i && i + 1 < part.len(),
    ensures
        two_at(s, at + i) == two_at(part, i),
{
    assert(part[i] == s[at + i]);
    assert(part[i + 1] == s[at + i + 1]);
}

/// The instant of a time whose parts are written at their positions.
proof fn lemma_instant(
    t: Seq<char>,
    year: int,
    month: int,
    day: int,
    hour: int,
    minute: int,
    second: int,
)
    requires
        t.len() == 20,
        two_at(t, 0) == Some(year / 100),
        two_at(t, 2) == Some(year % 100),
        two_at(t, 5) == Some(month) && 1 <= month <= 12,
        two_at(t, 8) == Some(day) && 1 <= day <= 31,
        two_at(t, 11) == Some(hour) && hour <= 23,
        two_at(t, 14) == Some(minute) && minute <= 59,
        two_at(t, 17) == Some(second) && second <= 59,
        t[4] == '-' && t[7] == '-' && t[10] == ' ' && t[13] == ':' && t[16] == ':' && t[19] == 'Z',
    ensures
        instant_of(t) == Some(
            1000 * (86400 * day_number(year, month, day) + 3600 * hour + 60 * minute + second),
        ),
{
    assert(zone_seconds(t, zone_start(t)) == Some(0int));
    assert(100 * (year / 100) + year % 100 == year);
}

proof fn lemma_digit_pairs_of_year(y: int)
    requires
        0 <= y <= 9999,
    ensures
        (y / 100) / 10 == y / 1000,
        (y % 100) / 10 == (y / 10) % 10,
        (y % 100) % 10 == y % 10,
        0 <= y / 100 <= 99,
{
}

/// A date and a time of day, as they are shown, are read back.
proof fn lemma_shown_is_read(
    date: Seq<char>,
    time: Seq<char>,
    year: int,
    month: int,
    day: int,
    hour: int,
    minute: int,
    second: int,
)
    requires
        0 <= year <= 9999,
        1 <= month <= 12,
        1 <= day <= 31,
        0 <= hour <= 23,
        0 <= minute <= 59,
        0 <= second <= 59,
        date == zero_padded(year, 4) + "-"@ + zero_padded(month, 2) + "-"@ + zero_padded(day, 2),
        time == zero_padded(hour, 2) + ":"@ + zero_padded(minute, 2) + ":"@ + zero_padded(second, 2)
            + "Z"@,
    ensures
        instant_of(date + " "@ + time) == Some(
            1000 * (86400 * day_number(year, month, day) + 3600 * hour + 60 * minute + second),
        ),
{
    reveal_strlit(" ");
    lemma_shown_date(date, year, month, day);
    lemma_shown_time(time, hour, minute, second);
    let t = date + " "@ + time;
    assert(t.subrange(0, 10) =~= date);
    assert(t.subrange(11, 20) =~= time);
    lemma_two_at_of_part(t, date, 0, 0);
    lemma_two_at_of_part(t, date, 0, 2);
    lemma_two_at_of_part(t, date, 0, 5);
    lemma_two_at_of_part(t, date, 0, 8);
    lemma_two_at_of_part(t, time, 11, 0);
    lemma_two_at_of_part(t, time, 11, 3);
    lemma_two_at_of_part(t, time, 11, 6);
    lemma_instant(t, year, month, day, hour, minute, second);
}

proof fn lemma_behind(x: Seq<char>, a: Seq<char>, b: Seq<char>)
    ensures
        x + a + b == x + (a + b),
{
    assert(x + a + b =~= x + (a + b));
}

/// The parts of a time of day, put behind a text one by one, are the time of day put
/// behind it.
proof fn lemma_time_behind(
    x: Seq<char>,
    hour: Seq<char>,
    colon: Seq<char>,
    minute: Seq<char>,
    second: Seq<char>,
    zone: Seq<char>,
)
    ensures
        x + hour + colon + minute + colon + second + zone == x + (hour + colon + minute + colon
            + second + zone),
{
    lemma_behind(x, hour, colon);
    lemma_behind(x, hour + colon, minute);
    lemma_behind(x, hour + colon + minute, colon);
    lemma_behind(x, hour + colon + minute + colon, second);
    lemma_behind(x, hour + colon + minute + colon + second, zone);
}

/// The parts of a time of day make up its second.
proof fn lemma_parts_of_a_day(secs: int)
    ensures
        0 <= (secs % 86400) / 3600 <= 23,
        0 <= ((secs % 86400) % 3600) / 60 <= 59,
        0 <= (secs % 86400) % 60 <= 59,
        secs == 86400 * (secs / 86400) + 3600 * ((secs % 86400) / 3600) + 60 * (((secs % 86400)
            % 3600) / 60) + (secs % 86400) % 60,
{
}

/// The days of the years from 0 to 9999.
proof fn lemma_days_of_four_digits(ms: int)
    requires
        -62_167_219_200_000 <= ms <= 253_402_300_799_999,
    ensures
        day_number(0, 1, 1) <= (ms / 1000) / 86400 <= day_number(9999, 12, 31),
        1000 * (ms / 1000) == ms - ms % 1000,
{
    assert(day_number(0, 1, 1) == -719_528);
    assert(day_number(9999, 12, 31) == 2_932_896);
}

/// A time of the years from 0 to 9999, as it is shown, is read back as the second
/// that it lies in.
#[verifier::spinoff_prover]
pub proof fn shown_times_are_read_back(ms: int)
    requires
        -62_167_219_200_000 <= ms <= 253_402_300_799_999,
    ensures
        instant_of(utc_text(ms)) == Some(ms - ms % 1000),
{
    let secs = ms / 1000;
    let of_day = secs % 86400;
    lemma_parts_of_a_day(secs);
    lemma_days_of_four_digits(ms);
    every_day_has_a_date(secs / 86400);
    lemma_years_of_four_digits(secs / 86400);
    let (year, month, day) = date_of(secs / 86400);
    let hour = of_day / 3600;
    let minute = (of_day % 3600) / 60;
    let second = of_day % 60;
    let date = zero_padded(year, 4) + "-"@ + zero_padded(month, 2) + "-"@ + zero_padded(day, 2);
    let time = zero_padded(hour, 2) + ":"@ + zero_padded(minute, 2) + ":"@ + zero_padded(second, 2)
        + "Z"@;
    lemma_shown_is_read(date, time, year, month, day, hour, minute, second);
    lemma_time_behind(
        date + " "@,
        zero_padded(hour, 2),
        ":"@,
        zero_padded(minute, 2),
        zero_padded(second, 2),
        "Z"@,
    );
}

proof fn lemma_date_time_ahead(d: Seq<char>, rest: Seq<char>)
    requires
        d.len() == 19,
        has_date_time(d),
    ensures
        has_date_time(d + rest),
        two_at(d + rest, 0) == two_at(d, 0) && two_at(d + rest, 2) == two_at(d, 2),
        two_at(d + rest, 5) == two_at(d, 5) && two_at(d + rest, 8) == two_at(d, 8),
        two_at(d + rest, 11) == two_at(d, 11) && two_at(d + rest, 14) == two_at(d, 14),
        two_at(d + rest, 17) == two_at(d, 17),
        instant_of(d) is Some,
{
    let t = d + rest;
    assert forall|i: int| 0 <= i < 19 implies t[i] == d[i] by {}
}

/// A time without a zone is one of UTC, as is one with the letter for it, large or small.
pub proof fn times_without_a_zone_are_utc(d: Seq<char>)
    requires
        d.len() == 19,
        has_date_time(d),
    ensures
        instant_of(d) is Some,
        instant_of(d.push('Z')) == instant_of(d),
        instant_of(d.push('z')) == instant_of(d),
{
    assert(d.push('Z') =~= d + seq!['Z']);
    assert(d.push('z') =~= d + seq!['z']);
    lemma_date_time_ahead(d, seq!['Z']);
    lemma_date_time_ahead(d, seq!['z']);
}

/// A zone ahead of UTC by some hours and minutes makes the time so much earlier, and one
/// behind so much later, with or without a colon between them.
pub proof fn zones_shift_the_time(d: Seq<char>, h: int, m: int)
    requires
        d.len() == 19,
        has_date_time(d),
        0 <= h <= 23,
        0 <= m <= 59,
    ensures
        ({
            let hh = seq![digit_char(h / 10), digit_char(h % 10)];
            let mm = seq![digit_char(m / 10), digit_char(m % 10)];
            let ms = 1000 * (3600 * h + 60 * m);
            &&& instant_of(d + (seq!['+'] + hh + seq![':'] + mm)) == Some(instant_of(d)->0 - ms)
            &&& instant_of(d + (seq!['-'] + hh + seq![':'] + mm)) == Some(instant_of(d)->0 + ms)
            &&& instant_of(d + (seq!['+'] + hh + mm)) == Some(instant_of(d)->0 - ms)
            &&& instant_of(d + (seq!['-'] + hh + mm)) == Some(instant_of(d)->0 + ms)
        }),
{
    let hh = seq![digit_char(h / 10), digit_char(h % 10)];
    let mm = seq![digit_char(m / 10), digit_char(m % 10)];
    lemma_zone(d, '+', seq!['+'] + hh + seq![':'] + mm, h, m);
    lemma_zone(d, '-', seq!['-'] + hh + seq![':'] + mm, h, m);
    lemma_digit_char(m / 10);
    assert(digit_char(m / 10) != ':');
    lemma_zone(d, '+', seq!['+'] + hh + mm, h, m);
    lemma_zone(d, '-', seq!['-'] + hh + mm, h, m);
}

proof fn lemma_zone(d: Seq<char>, sign: char, rest: Seq<char>, h: int, m: int)
    requires
        d.len() == 19,
        has_date_time(d),
        sign == '+' || sign == '-',
        0 <= h <= 23,
        0 <= m <= 59,
        rest.len() == 5 || rest.len() == 6,
        rest[0] == sign,
        rest[1] == digit_char(h / 10) && rest[2] == digit_char(h % 10),
        rest.len() == 6 ==> rest[3] == ':' && rest[4] == digit_char(m / 10) && rest[5] == digit_char(
            m % 10,
        ),
        rest.len() == 5 ==> rest[3] != ':' && rest[3] == digit_char(m / 10) && rest[4] == digit_char(
            m % 10,
        ),
    ensures
        instant_of(d + rest) == Some(
            instant_of(d)->0 - (if sign == '+' {
                1000 * (3600 * h + 60 * m)
            } else {
                -1000 * (3600 * h + 60 * m)
            }),
        ),
{
    let t = d + rest;
    lemma_date_time_ahead(d, rest);
    assert(t[19] == rest[0] && t[20] == rest[1] && t[21] == rest[2] && t[22] == rest[3] && t[23]
        == rest[4]);
    assert(zone_start(t) == 19);
    lemma_two_at(t, 20, h);
    if rest.len() == 6 {
        assert(t[24] == rest[5]);
        lemma_two_at(t, 23, m);
    } else {
        lemma_two_at(t, 22, m);
    }
}

/// The digits of a fraction are tenths, hundredths and thousandths of a second; those
/// behind them are cut off, and those that are not there are zero.
pub proof fn fractions_count_thousandths(d: Seq<char>, a: int, b: int, c: int, rest: Seq<char>)
    requires
        d.len() == 19,
        has_date_time(d),
        0 <= a <= 9,
        0 <= b <= 9,
        0 <= c <= 9,
        forall|i: int| 0 <= i < rest.len() ==> is_digit(#[trigger] rest[i]),
    ensures
        instant_of(d + seq!['.', digit_char(a)]) == Some(instant_of(d)->0 + 100 * a),
        instant_of(d + seq!['.', digit_char(a), digit_char(b)]) == Some(
            instant_of(d)->0 + 100 * a + 10 * b,
        ),
        instant_of(d + (seq!['.', digit_char(a), digit_char(b), digit_char(c)] + rest)) == Some(
            instant_of(d)->0 + 100 * a + 10 * b + c,
        ),
{
    lemma_digit_char(a);
    lemma_digit_char(b);
    lemma_digit_char(c);
    let one = seq![digit_char(a)];
    let two = one.push(digit_char(b));
    let three = two.push(digit_char(c));
    assert(one.drop_last() =~= Seq::<char>::empty());
    assert(numeral_value(one.drop_last()) == 0);
    assert(numeral_value(one) == a);
    assert(two.drop_last() =~= one);
    assert(numeral_value(two) == 10 * a + b);
    assert(three.drop_last() =~= two);
    assert(numeral_value(three) == 100 * a + 10 * b + c);
    lemma_fraction(d, one);
    lemma_fraction(d, two);
    let all = three + rest;
    assert forall|i: int| 0 <= i < all.len() implies is_digit(#[trigger] all[i]) by {
        if i >= 3 {
            assert(all[i] == rest[i - 3]);
        }
    }
    lemma_fraction(d, all);
    assert(all.take(3) =~= three);
    assert(seq!['.'] + one =~= seq!['.', digit_char(a)]);
    assert(seq!['.'] + two =~= seq!['.', digit_char(a), digit_char(b)]);
    assert(seq!['.'] + all =~= seq!['.', digit_char(a), digit_char(b), digit_char(c)] + rest);
}

proof fn lemma_fraction(d: Seq<char>, digits: Seq<char>)
    requires
        d.len() == 19,
        has_date_time(d),
        digits.len() > 0,
        forall|i: int| 0 <= i < digits.len() ==> is_digit(#[trigger] digits[i]),
    ensures
        instant_of(d + (seq!['.'] + digits)) == Some(instant_of(d)->0 + fraction_millis(digits)),
{
    let t = d + (seq!['.'] + digits);
    lemma_date_time_ahead(d, seq!['.'] + digits);
    assert(t[19] == '.');
    assert forall|j: int| 20 <= j < t.len() implies is_digit(#[trigger] t[j]) by {
        assert(t[j] == digits[j - 20]);
    }
    lemma_digits_end(t, 20, t.len() as int);
    assert(t.subrange(20, t.len() as int) =~= digits);
}

/// A letter, large or small, or a space may stand between the date and the time.
pub proof fn dates_and_times_are_set_apart(d: Seq<char>, c: char)
    requires
        d.len() == 19,
        has_date_time(d),
    ensures
        c == 'T' || c == 't' || c == ' ' ==> instant_of(d.update(10, c)) == instant_of(d),
        c != 'T' && c != 't' && c != ' ' ==> instant_of(d.update(10, c)) is None,
{
    let t = d.update(10, c);
    assert forall|i: int| 0 <= i < 19 && i != 10 implies t[i] == d[i] by {}
    assert(two_at(t, 0) == two_at(d, 0) && two_at(t, 2) == two_at(d, 2) && two_at(t, 5) == two_at(
        d,
        5,
    ) && two_at(t, 8) == two_at(d, 8) && two_at(t, 11) == two_at(d, 11) && two_at(t, 14) == two_at(
        d,
        14,
    ) && two_at(t, 17) == two_at(d, 17));
}

} // verus!
