use vstd::prelude::*;

verus! {

/// Seconds in half a day.
pub const HALF_DAY: u64 = 12 * 60 * 60;

/// Seconds in one day.
pub const ONE_DAY: u64 = 24 * 60 * 60;

/// Seconds in thirty days.
pub const THIRTY_DAYS: u64 = 30 * 24 * 60 * 60;

/// Seconds in two days.
pub const TWO_DAYS: u64 = 2 * 24 * 60 * 60;

/// A wall-clock instant, in milliseconds since the Unix epoch.
#[derive(Clone, Copy, Debug, PartialEq, Eq, Structural)]
pub struct Timestamp {
    pub millis: u64,
}

/// Whether more than `seconds` whole seconds lie between `since` and `now`.
/// When `since` lies after `now` the difference cannot be taken, and one
/// second is assumed to have passed.
pub open spec fn spec_elapsed(since: Timestamp, seconds: u64, now: Timestamp) -> bool {
    if since.millis <= now.millis {
        (now.millis - since.millis) / 1000 > seconds
    } else {
        1 > seconds
    }
}

/// Whether more than `seconds` seconds have passed between `since` and `now`.
pub fn elapsed_at(since: Timestamp, seconds: u64, now: Timestamp) -> (r: bool)
    ensures
        r == spec_elapsed(since, seconds, now),
{
    if since.millis <= now.millis {
        (now.millis - since.millis) / 1000 > seconds
    } else {
        1 > seconds
    }
}

/// Relies on `std::time::SystemTime::now`: the current wall-clock time.
/// Nothing is known of the value; an instant before the epoch reads as 0.
#[verifier::external_body]
fn system_now() -> (r: Timestamp) {
    let d = std::time::SystemTime::now().duration_since(std::time::UNIX_EPOCH);
    Timestamp { millis: d.map(|d| d.as_millis() as u64).unwrap_or(0) }
}

/// Whether more than `seconds` seconds have passed since `since`, by the
/// wall clock. The answer is `spec_elapsed(since, seconds, t)` for the time
/// `t` that the clock gave, which nothing constrains.
pub fn elapsed(since: Timestamp, seconds: u64) -> (r: bool)
    ensures
        exists|t: Timestamp| r == spec_elapsed(since, seconds, t),
{
    let now = system_now();
    elapsed_at(since, seconds, now)
}

/// How long a caller has to sleep at `now` so as to wake at `until`: zero
/// when `until` has already passed.
pub fn wait_millis(until: Timestamp, now: Timestamp) -> (r: u64)
    ensures
        until.millis <= now.millis ==> r == 0,
        now.millis < until.millis ==> r == until.millis - now.millis,
        now.millis + r >= until.millis,
{
    if until.millis <= now.millis {
        0
    } else {
        until.millis - now.millis
    }
}

} // verus!
