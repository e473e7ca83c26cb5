use agent_witness::clock::{Clock, FixedClock, SystemClock};

#[test]
fn fixed_clock_returns_its_value() {
    let clock = FixedClock(42);
    assert_eq!(clock.now_ms(), 42);
}

#[test]
fn system_clock_is_positive_and_after_2020() {
    // 2020-01-01T00:00:00Z in ms; sanity floor, not an exact assertion.
    const YEAR_2020_MS: i64 = 1_577_836_800_000;
    assert!(SystemClock.now_ms() > YEAR_2020_MS);
}
