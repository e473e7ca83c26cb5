use agent_witness::liveness::{is_live, LivenessInputs, DEFAULT_LIVE_WINDOW_MS};

const NOW: i64 = 10_000_000;

fn inputs(has_start: bool, has_stop: bool, last: Option<i64>) -> LivenessInputs {
    LivenessInputs {
        has_start,
        has_stop,
        last_event_ts: last,
    }
}

#[test]
fn live_when_started_unstopped_and_recent() {
    // Last activity 1s ago, well inside the default window.
    let i = inputs(true, false, Some(NOW - 1_000));
    assert!(is_live(i, NOW, DEFAULT_LIVE_WINDOW_MS));
}

#[test]
fn stopped_session_is_not_live_even_if_recent() {
    let i = inputs(true, true, Some(NOW));
    assert!(!is_live(i, NOW, DEFAULT_LIVE_WINDOW_MS));
}

#[test]
fn stale_session_past_the_window_is_not_live() {
    // One millisecond beyond the window.
    let i = inputs(true, false, Some(NOW - DEFAULT_LIVE_WINDOW_MS - 1));
    assert!(!is_live(i, NOW, DEFAULT_LIVE_WINDOW_MS));
}

#[test]
fn never_started_session_is_not_live() {
    let i = inputs(false, false, Some(NOW));
    assert!(!is_live(i, NOW, DEFAULT_LIVE_WINDOW_MS));
}

#[test]
fn no_events_is_not_live() {
    let i = inputs(true, false, None);
    assert!(!is_live(i, NOW, DEFAULT_LIVE_WINDOW_MS));
}

#[test]
fn boundary_exactly_at_window_is_live() {
    // Exactly on the edge counts as live (inclusive window).
    let i = inputs(true, false, Some(NOW - DEFAULT_LIVE_WINDOW_MS));
    assert!(is_live(i, NOW, DEFAULT_LIVE_WINDOW_MS));
}

#[test]
fn window_is_configurable() {
    let i = inputs(true, false, Some(NOW - 10_000));
    // 5s window: 10s-old activity is idle.
    assert!(!is_live(i, NOW, 5_000));
    // 30s window: the same activity is live.
    assert!(is_live(i, NOW, 30_000));
}

#[test]
fn clock_moving_backwards_does_not_panic_or_falsely_live() {
    // now < last_event_ts: saturating_sub yields 0, which is within window.
    let i = inputs(true, false, Some(NOW + 1_000));
    assert!(is_live(i, NOW, DEFAULT_LIVE_WINDOW_MS));
}
