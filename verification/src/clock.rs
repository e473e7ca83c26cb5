//! Sources of the current time.
use vstd::prelude::*;

verus! {

/// A source of the current time, in Unix epoch milliseconds.
pub trait Clock {
    /// The current time.
    fn now_ms(&self) -> (r: i64);
}

/// A point in time, as std has it.
#[verifier::external_type_specification]
#[verifier::external_body]
pub struct ExSystemTime(std::time::SystemTime);

/// What `Duration::as_millis` gives for a span of time.
pub uninterp spec fn duration_millis(d: std::time::Duration) -> u128;

/// What `SystemTime::duration_since` gives from the Unix epoch to a point in time:
/// none where it reports an error, for a point before the epoch.
pub uninterp spec fn epoch_span(t: std::time::SystemTime) -> Option<std::time::Duration>;

/// The present, as `SystemTime::now` gives it. Nothing is said of it: it is
/// another at each call.
#[verifier::external_body]
fn present() -> (r: std::time::SystemTime) {
    std::time::SystemTime::now()
}

/// The span from the Unix epoch to a point in time, as
/// `SystemTime::duration_since` gives it; none for a point before the epoch. The
/// span goes by the point alone; how long it is, is left unsaid.
#[verifier::external_body]
fn since_epoch(t: std::time::SystemTime) -> (r: Option<std::time::Duration>)
    ensures
        r == epoch_span(t),
{
    t.duration_since(std::time::UNIX_EPOCH).ok()
}

/// The whole milliseconds of a span of time, as `Duration::as_millis` counts
/// them.
#[verifier::external_body]
fn whole_millis(d: std::time::Duration) -> (r: u128)
    ensures
        r == duration_millis(d),
{
    d.as_millis()
}

/// The milliseconds of a clock reading: none before the epoch is zero, and what
/// is too great for the type is the greatest time.
pub open spec fn clamped_millis(since_epoch: Option<u128>) -> int {
    match since_epoch {
        None => 0int,
        Some(ms) => if ms > i64::MAX {
            i64::MAX as int
        } else {
            ms as int
        },
    }
}

/// What the clock shows at a point in time: its whole milliseconds since the
/// epoch, in the range of the type.
pub open spec fn shown_at(t: std::time::SystemTime) -> int {
    match epoch_span(t) {
        None => clamped_millis(None),
        Some(d) => clamped_millis(Some(duration_millis(d))),
    }
}

/// The milliseconds of a clock reading: none before the epoch is zero, and what
/// is too great for the type is the greatest time.
pub fn clamp_millis(since_epoch: Option<u128>) -> (r: i64)
    ensures
        r == clamped_millis(since_epoch),
{
    match since_epoch {
        None => 0,
        Some(ms) => if ms > i64::MAX as u128 {
            i64::MAX
        } else {
            ms as i64
        },
    }
}

/// The wall clock of the system, for the edges only.
#[derive(Debug, Clone, Copy)]
pub struct SystemClock;

impl Clock for SystemClock {
    /// The current time, never before the epoch: what is shown at a point in time.
    /// Which point that is, the system says.
    fn now_ms(&self) -> (r: i64)
        ensures
            exists|t: std::time::SystemTime| r == #[trigger] shown_at(t),
            r >= 0,
    {
        let t = present();
        let r: i64 = match since_epoch(t) {
            Some(d) => clamp_millis(Some(whole_millis(d))),
            None => clamp_millis(None),
        };
        assert(r == shown_at(t));
        r
    }
}

/// A clock that stands still.
#[derive(Debug, Clone, Copy)]
pub struct FixedClock(pub i64);

impl Clock for FixedClock {
    /// The time that the clock stands at.
    fn now_ms(&self) -> (r: i64)
        ensures
            r == self.0,
    {
        self.0
    }
}

/// A reading that the type of times holds is shown as it is; a greater one is shown as the
/// greatest time, and one before the epoch as the epoch.
pub proof fn readings_are_held_in_range(ms: u128)
    ensures
        ms <= 0x7fff_ffff_ffff_ffff ==> clamped_millis(Some(ms)) == ms,
        ms > 0x7fff_ffff_ffff_ffff ==> clamped_millis(Some(ms)) == 0x7fff_ffff_ffff_ffff,
        clamped_millis(None) == 0,
{
}

} // verus!
