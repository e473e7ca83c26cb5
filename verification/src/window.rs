//! The time window of a ledger.
use vstd::prelude::*;

use crate::calendar::floor_div;
use crate::liveness::{clamped_difference, saturating_difference};
use crate::relative::{parse_relative_ms, relative_message, span_of, RelativeError};

verus! {

/// Which selector a window comes from.
#[derive(Debug, Clone, Copy, PartialEq, Eq, Structural)]
pub enum WindowKind {
    /// The current UTC calendar day.
    Today,
    /// The last seven UTC calendar days, with today.
    Week,
    /// A relative look-back.
    Since,
    /// All recorded history.
    All,
}

/// A window that was asked for.
#[derive(Debug, Clone, Copy, PartialEq, Eq, Structural)]
pub enum WindowMode {
    /// The current UTC calendar day.
    Today,
    /// The last seven UTC calendar days, with today.
    Week,
    /// A relative look-back.
    Since {
        /// The span, in milliseconds.
        span_ms: i64,
    },
    /// All recorded history.
    All,
}

impl WindowMode {
    /// The selector of the window.
    pub open spec fn spec_kind(self) -> WindowKind {
        match self {
            WindowMode::Today => WindowKind::Today,
            WindowMode::Week => WindowKind::Week,
            WindowMode::Since { .. } => WindowKind::Since,
            WindowMode::All => WindowKind::All,
        }
    }

    /// The selector of the window.
    pub fn kind(self) -> (r: WindowKind)
        ensures
            r == self.spec_kind(),
    {
        match self {
            WindowMode::Today => WindowKind::Today,
            WindowMode::Week => WindowKind::Week,
            WindowMode::Since { .. } => WindowKind::Since,
            WindowMode::All => WindowKind::All,
        }
    }
}

/// Why no window can be made.
#[derive(Debug, Clone, PartialEq, Eq)]
pub enum WindowError {
    /// More than one window was asked for.
    Exclusive,
    /// The look-back is no relative span.
    Span(RelativeError),
}

impl WindowError {
    /// What is said of the failure.
    pub open spec fn spec_message(self) -> Seq<char> {
        match self {
            WindowError::Exclusive =>
                "--today, --week, and --since are mutually exclusive; pass at most one"@,
            WindowError::Span(e) => relative_message(e.input@),
        }
    }

    /// What is said of the failure.
    pub fn message(&self) -> (r: String)
        ensures
            r@ == self.spec_message(),
    {
        match self {
            WindowError::Exclusive =>
                "--today, --week, and --since are mutually exclusive; pass at most one".to_owned(),
            WindowError::Span(e) => e.message(),
        }
    }
}

/// How many windows were asked for.
pub open spec fn asked(today: bool, week: bool, since: bool) -> int {
    (if today {
        1int
    } else {
        0
    }) + (if week {
        1int
    } else {
        0
    }) + (if since {
        1int
    } else {
        0
    })
}

/// Makes a window from the flags, of which at most one may be set.
pub fn window_mode_from_flags(today: bool, week: bool, since: Option<&str>) -> (r: Result<
    WindowMode,
    WindowError,
>)
    ensures
        r matches Err(WindowError::Exclusive) <==> asked(today, week, since is Some) > 1,
        asked(today, week, since is Some) == 0 ==> r == Ok::<_, WindowError>(WindowMode::All),
        asked(today, week, since is Some) == 1 && today ==> r == Ok::<_, WindowError>(
            WindowMode::Today,
        ),
        asked(today, week, since is Some) == 1 && week ==> r == Ok::<_, WindowError>(
            WindowMode::Week,
        ),
        asked(today, week, since is Some) == 1 && since is Some ==> match span_of(since->0@) {
            Some(ms) => r == Ok::<_, WindowError>(WindowMode::Since { span_ms: ms as i64 }),
            None => r matches Err(WindowError::Span(e)) && e.input@ == since->0@,
        },
{
    let exclusive = (today && week) || (today && since.is_some()) || (week && since.is_some());
    if exclusive {
        return Err(WindowError::Exclusive);
    }
    if today {
        Ok(WindowMode::Today)
    } else if week {
        Ok(WindowMode::Week)
    } else {
        match since {
            Some(s) => match parse_relative_ms(s) {
                Ok(ms) => Ok(WindowMode::Since { span_ms: ms }),
                Err(e) => Err(WindowError::Span(e)),
            },
            None => Ok(WindowMode::All),
        }
    }
}

/// UTC midnight, `back` days before the day of `now_ms`, or the earliest time
/// there is.
pub open spec fn day_start(now_ms: i64, back: int) -> int {
    let t = (now_ms as int / 86_400_000 - back) * 86_400_000;
    if t < i64::MIN {
        i64::MIN as int
    } else {
        t
    }
}

/// The lower bound of a window.
pub open spec fn since_of(mode: WindowMode, now_ms: i64) -> Option<int> {
    match mode {
        WindowMode::Today => Some(day_start(now_ms, 0)),
        WindowMode::Week => Some(day_start(now_ms, 6)),
        WindowMode::Since { span_ms } => Some(clamped_difference(now_ms, span_ms)),
        WindowMode::All => None,
    }
}

fn utc_day_start_ms(now_ms: i64, back: i64) -> (r: i64)
    requires
        0 <= back <= 6,
    ensures
        r == day_start(now_ms, back as int),
{
    let day: i64 = floor_div(now_ms, 86_400_000);
    let t: i128 = (day as i128 - back as i128) * 86_400_000;
    if t < i64::MIN as i128 {
        i64::MIN
    } else {
        t as i64
    }
}

/// Tells the lower bound of a window.
pub fn window_since_ms(mode: WindowMode, now_ms: i64) -> (r: Option<i64>)
    ensures
        match r {
            Some(t) => since_of(mode, now_ms) == Some(t as int),
            None => since_of(mode, now_ms) is None,
        },
{
    match mode {
        WindowMode::Today => Some(utc_day_start_ms(now_ms, 0)),
        WindowMode::Week => Some(utc_day_start_ms(now_ms, 6)),
        WindowMode::Since { span_ms } => Some(saturating_difference(now_ms, span_ms)),
        WindowMode::All => None,
    }
}

/// A calendar window begins at a UTC midnight, today's or that of the sixth day
/// before. The exception are the first days that the type of times holds, of
/// which the midnight cannot be told.
pub proof fn calendar_windows_begin_at_midnight(now_ms: i64)
    requires
        now_ms >= i64::MIN + 7 * 86_400_000,
    ensures
        since_of(WindowMode::Today, now_ms)->0 % 86_400_000 == 0,
        since_of(WindowMode::Today, now_ms)->0 <= now_ms < since_of(WindowMode::Today, now_ms)->0
            + 86_400_000,
        since_of(WindowMode::Week, now_ms)->0 == since_of(WindowMode::Today, now_ms)->0 - 6
            * 86_400_000,
{
}

/// A wider window begins no later: all history has no lower bound, and the week
/// begins no later than the day.
pub proof fn the_week_holds_the_day(now_ms: i64)
    ensures
        since_of(WindowMode::Week, now_ms)->0 <= since_of(WindowMode::Today, now_ms)->0,
        since_of(WindowMode::Today, now_ms)->0 <= now_ms,
        since_of(WindowMode::All, now_ms) is None,
{
}

/// A look-back begins so long before now as it says, as far as there are times.
pub proof fn look_backs_end_now(now_ms: i64, span_ms: i64)
    requires
        i64::MIN <= now_ms - span_ms <= i64::MAX,
    ensures
        since_of(WindowMode::Since { span_ms }, now_ms) == Some(now_ms - span_ms),
{
}

/// Two windows exclude each other, whichever two they are; one alone does not.
pub proof fn windows_exclude_each_other(today: bool, week: bool, since: bool)
    ensures
        asked(today, week, since) > 1 <==> (today && week) || (today && since) || (week && since),
        asked(today, week, since) == 0 <==> !today && !week && !since,
{
}

} // verus!
