//! Times and durations as text, without wall clock, locale or time zone.
use vstd::prelude::*;

use crate::calendar::{civil_from_days, date_of, date_of_is, floor_div};
use crate::num::{
    decimal, decimal_i64, decimal_int, digit_char, lemma_two_digits, zero_pad, zero_padded,
};

verus! {

/// A time as `YYYY-MM-DD HH:MM:SSZ`, in UTC.
pub open spec fn utc_text(ms: int) -> Seq<char> {
    let secs = ms / 1000;
    let (year, month, day) = date_of(secs / 86400);
    let of_day = secs % 86400;
    zero_padded(year, 4) + "-"@ + zero_padded(month, 2) + "-"@ + zero_padded(day, 2) + " "@
        + zero_padded(of_day / 3600, 2) + ":"@ + zero_padded((of_day % 3600) / 60, 2) + ":"@
        + zero_padded(of_day % 60, 2) + "Z"@
}

/// Formats an epoch-millisecond timestamp as `YYYY-MM-DD HH:MM:SSZ` (UTC).
pub fn format_utc(ms: i64) -> (out: String)
    ensures
        out@ == utc_text(ms as int),
{
    let secs: i64 = floor_div(ms, 1000);
    let days: i64 = floor_div(secs, 86_400);
    let of_day: i64 = secs - days * 86_400;
    let (year, month, day) = civil_from_days(days);
    proof {
        date_of_is(year as int, month as int, day as int);
    }
    let hour: i64 = of_day / 3600;
    let minute: i64 = (of_day % 3600) / 60;
    let second: i64 = of_day % 60;
    let mut out: String = zero_pad(year, 4);
    out.append("-");
    out.append(zero_pad(month, 2).as_str());
    out.append("-");
    out.append(zero_pad(day, 2).as_str());
    out.append(" ");
    out.append(zero_pad(hour, 2).as_str());
    out.append(":");
    out.append(zero_pad(minute, 2).as_str());
    out.append(":");
    out.append(zero_pad(second, 2).as_str());
    out.append("Z");
    out
}

/// A duration as `850ms`, `1.2s` or `2m03s`; a negative one as none.
pub open spec fn duration_text(ms: int) -> Seq<char> {
    let ms = if ms < 0 {
        0
    } else {
        ms
    };
    let secs = ms / 1000;
    if ms < 1000 {
        decimal_int(ms) + "ms"@
    } else if secs < 60 {
        decimal_int(secs) + "."@ + decimal_int((ms % 1000) / 100) + "s"@
    } else {
        decimal_int(secs / 60) + "m"@ + zero_padded(secs % 60, 2) + "s"@
    }
}

/// Formats a duration in milliseconds: `850ms`, `1.2s` or `2m03s`. A negative
/// one is taken for zero.
pub fn format_duration_ms(ms: i64) -> (out: String)
    ensures
        out@ == duration_text(ms as int),
{
    let ms: i64 = if ms < 0 {
        0
    } else {
        ms
    };
    if ms < 1000 {
        return decimal_i64(ms).concat("ms");
    }
    let secs: i64 = ms / 1000;
    if secs < 60 {
        let tenths: i64 = (ms % 1000) / 100;
        return decimal_i64(secs).concat(".").concat(decimal_i64(tenths).as_str()).concat("s");
    }
    decimal_i64(secs / 60).concat("m").concat(zero_pad(secs % 60, 2).as_str()).concat("s")
}

/// An elapsed offset as `+12.345s`; a negative one as none.
pub open spec fn offset_text(ms: int) -> Seq<char> {
    let ms = if ms < 0 {
        0
    } else {
        ms
    };
    "+"@ + decimal_int(ms / 1000) + "."@ + zero_padded(ms % 1000, 3) + "s"@
}

/// Formats an elapsed offset in milliseconds: `+0.000s` or `+12.345s`. A
/// negative one is taken for zero.
pub fn format_offset_ms(ms: i64) -> (out: String)
    ensures
        out@ == offset_text(ms as int),
{
    let ms: i64 = if ms < 0 {
        0
    } else {
        ms
    };
    "+".to_owned().concat(decimal_i64(ms / 1000).as_str()).concat(".").concat(
        zero_pad(ms % 1000, 3).as_str(),
    ).concat("s")
}

/// A duration is shown in milliseconds up to a second, in whole seconds and tenths up to a
/// minute, and in minutes and whole seconds from there; what is shown is the greatest that
/// the duration reaches.
pub proof fn durations_are_shown_rounded_down(ms: int, whole: int, part: int)
    ensures
        ms < 0 ==> duration_text(ms) == duration_text(0),
        0 <= ms < 1000 ==> duration_text(ms) == decimal(ms as nat) + "ms"@,
        1000 <= ms < 60_000 && 0 <= part < 10 && 1000 * whole + 100 * part <= ms < 1000 * whole
            + 100 * (part + 1) ==> duration_text(ms) == decimal(whole as nat) + "."@ + decimal(
            part as nat,
        ) + "s"@,
        ms >= 60_000 && 0 <= part < 60 && 60_000 * whole + 1000 * part <= ms < 60_000 * whole + 1000
            * (part + 1) ==> duration_text(ms) == decimal(whole as nat) + "m"@ + two_digits(part)
            + "s"@,
{
    if 0 <= part < 60 {
        lemma_two_digits(part);
    }
    if ms >= 60_000 && 0 <= part < 60 && 60_000 * whole + 1000 * part <= ms < 60_000 * whole + 1000
        * (part + 1) {
        let secs = ms / 1000;
        assert(secs == 60 * whole + part);
        assert(secs / 60 == whole && secs % 60 == part);
    }
    if 1000 <= ms < 60_000 && 0 <= part < 10 && 1000 * whole + 100 * part <= ms < 1000 * whole + 100
        * (part + 1) {
        assert(ms / 1000 == whole);
        assert((ms % 1000) / 100 == part);
    }
}

/// The two digits of a number below a hundred.
pub open spec fn two_digits(n: int) -> Seq<char> {
    seq![digit_char(n / 10), digit_char(n % 10)]
}

/// An offset is shown in seconds with three digits of milliseconds.
pub proof fn offsets_are_shown_exactly(ms: int, whole: int, part: int)
    ensures
        ms < 0 ==> offset_text(ms) == offset_text(0),
        ms >= 0 && ms == 1000 * whole + part && 0 <= part < 1000 ==> offset_text(ms) == "+"@
            + decimal(whole as nat) + "."@ + seq![
            digit_char(part / 100),
            digit_char((part / 10) % 10),
            digit_char(part % 10),
        ] + "s"@,
{
    if ms >= 0 && ms == 1000 * whole + part && 0 <= part < 1000 {
        assert(ms / 1000 == whole && ms % 1000 == part);
        reveal_with_fuel(decimal, 3);
        assert((part as nat / 10) / 10 == part / 100);
        assert(zero_padded(part, 3) =~= seq![
            digit_char(part / 100),
            digit_char((part / 10) % 10),
            digit_char(part % 10),
        ]);
    }
}

} // verus!
