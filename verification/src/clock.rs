//! Time as nanoseconds on one monotonic clock.

use vstd::prelude::*;

verus! {

/// Time from `since` to `now`; zero when `now` is the earlier.
pub open spec fn elapsed(since: u64, now: u64) -> u64 {
    if now >= since {
        (now - since) as u64
    } else {
        0
    }
}

/// Nanoseconds from `since` to `now`, never negative.
pub fn elapsed_ns(since: u64, now: u64) -> (ns: u64)
    ensures
        ns == elapsed(since, now),
{
    if now >= since {
        now - since
    } else {
        0
    }
}

/// Whole milliseconds from `since` to `now`, never negative.
pub fn elapsed_ms(since: u64, now: u64) -> (ms: u64)
    ensures
        ms == elapsed(since, now) / 1_000_000,
{
    elapsed_ns(since, now) / 1_000_000
}

/// Whole seconds from `since` to `now`, never negative.
pub fn elapsed_secs(since: u64, now: u64) -> (secs: u64)
    ensures
        secs == elapsed(since, now) / 1_000_000_000,
{
    elapsed_ns(since, now) / 1_000_000_000
}

/// Whole seconds since a start that may not have come; zero then.
pub fn uptime_secs(started_at: Option<u64>, now: u64) -> (secs: u64)
    ensures
        secs == match started_at {
            Some(t) => elapsed(t, now) / 1_000_000_000,
            None => 0,
        },
{
    match started_at {
        Some(t) => elapsed_secs(t, now),
        None => 0,
    }
}

/// Whole milliseconds since an event that may not have come.
pub fn ms_ago(at: Option<u64>, now: u64) -> (ms: Option<u64>)
    ensures
        ms == match at {
            Some(t) => Some(elapsed(t, now) / 1_000_000),
            None => None,
        },
{
    match at {
        Some(t) => Some(elapsed_ms(t, now)),
        None => None,
    }
}

/// Time that went by is the difference of the two times, and none where the
/// later is not later.
pub proof fn time_goes_by(since: u64, now: u64)
    ensures
        since <= now ==> since + elapsed(since, now) == now,
        now <= since ==> elapsed(since, now) == 0,
{
}

} // verus!
