//! Whether a session is running.
use vstd::prelude::*;

verus! {

/// The liveness window where none is given: five minutes.
pub const DEFAULT_LIVE_WINDOW_MS: i64 = 300_000;

/// What a liveness verdict needs to know of a session.
#[derive(Debug, Clone, Copy, PartialEq, Eq, Structural)]
pub struct LivenessInputs {
    /// The session is known to have begun.
    pub has_start: bool,
    /// The session is known to have stopped.
    pub has_stop: bool,
    /// Time of the last observed event, if any.
    pub last_event_ts: Option<i64>,
}

/// The difference of two times, held within the range of times.
pub open spec fn clamped_difference(a: i64, b: i64) -> int {
    if a - b > i64::MAX {
        i64::MAX as int
    } else if a - b < i64::MIN {
        i64::MIN as int
    } else {
        a - b
    }
}

/// The difference of two times, held within the range of times.
pub fn saturating_difference(a: i64, b: i64) -> (r: i64)
    ensures
        r == clamped_difference(a, b),
{
    let d: i128 = a as i128 - b as i128;
    if d > i64::MAX as i128 {
        i64::MAX
    } else if d < i64::MIN as i128 {
        i64::MIN
    } else {
        d as i64
    }
}

/// Whether a session is live: begun, not stopped, and with an event no longer
/// ago than the window.
pub open spec fn live(inputs: LivenessInputs, now_ms: i64, window_ms: i64) -> bool {
    &&& inputs.has_start
    &&& !inputs.has_stop
    &&& inputs.last_event_ts matches Some(ts) && clamped_difference(now_ms, ts) <= window_ms
}

/// Decides whether a session is live.
pub fn is_live(inputs: LivenessInputs, now_ms: i64, window_ms: i64) -> (r: bool)
    ensures
        r == live(inputs, now_ms, window_ms),
{
    if !inputs.has_start || inputs.has_stop {
        return false;
    }
    match inputs.last_event_ts {
        Some(ts) => saturating_difference(now_ms, ts) <= window_ms,
        None => false,
    }
}

/// What is live within a window is live within every wider one.
pub proof fn wider_windows_keep_live(inputs: LivenessInputs, now_ms: i64, w1: i64, w2: i64)
    requires
        w1 <= w2,
        live(inputs, now_ms, w1),
    ensures
        live(inputs, now_ms, w2),
{
}

/// What is not live stays so while time goes on and nothing happens.
pub proof fn idle_sessions_stay_idle(inputs: LivenessInputs, t1: i64, t2: i64, window_ms: i64)
    requires
        t1 <= t2,
        !live(inputs, t1, window_ms),
    ensures
        !live(inputs, t2, window_ms),
{
}

/// A session is live exactly if it began, did not stop, and its last event is no longer ago
/// than the window; one of the future is not long ago.
pub proof fn sessions_live_for_a_window(
    has_start: bool,
    has_stop: bool,
    last_event_ts: Option<i64>,
    now_ms: i64,
    window_ms: i64,
)
    requires
        window_ms < i64::MAX,
    ensures
        live(LivenessInputs { has_start, has_stop, last_event_ts }, now_ms, window_ms) <==> (
        has_start && !has_stop && match last_event_ts {
            Some(ts) => now_ms <= ts + window_ms,
            None => false,
        }),
{
}

} // verus!
