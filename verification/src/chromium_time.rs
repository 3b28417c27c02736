//! Chromium timestamps: microseconds since 1601-01-01 00:00:00 UTC, stored as decimal text.
use vstd::prelude::*;

use crate::error::CliError;
use crate::text::{decimal, i64_to_string};

verus! {

/// The offset between the Unix epoch (1970-01-01) and the Chromium epoch, in microseconds
/// (11644473600 seconds).
pub const UNIX_TO_CHROMIUM_EPOCH_OFFSET_US: i64 = 11_644_473_600_000_000i64;

/// The largest count of seconds since the Unix epoch for which a timestamp is always made
/// (about the year 255,000; chrono's dates reach the year 262,142).
pub const MAX_CLOCK_SECS: u64 = 8_000_000_000_000u64;

/// The time elapsed since the Unix epoch, as whole seconds and the nanoseconds past them:
/// std's `UNIX_EPOCH.elapsed()`, which fails (here: nothing) when the system clock is set
/// before the epoch. std documents the nanoseconds as less than one billion. What the clock
/// reads is the machine's, so nothing else is promised.
#[verifier::external_body]
fn unix_clock() -> (r: Option<(u64, u32)>)
    ensures
        r matches Some(t) ==> t.1 < 1_000_000_000,
{
    match std::time::UNIX_EPOCH.elapsed() {
        Ok(d) => Some((d.as_secs(), d.subsec_nanos())),
        Err(_) => None,
    }
}

/// Microseconds since the Unix epoch of a time given in seconds and nanoseconds:
/// `chrono::DateTime::from_timestamp(secs, nanos)`, then `timestamp_micros`.
/// chrono's source gives `None` only for a date out of its range (beyond the year 262,142),
/// never for `0 <= secs <= MAX_CLOCK_SECS` with `nanos` below one billion, and otherwise
/// the timestamp back with the sub-second part in whole microseconds.
#[verifier::external_body]
fn micros_since_epoch(secs: i64, nanos: u32) -> (r: Option<i64>)
    requires
        nanos < 1_000_000_000,
    ensures
        r matches Some(m) ==> m == secs * 1_000_000 + nanos / 1000,
        0 <= secs <= MAX_CLOCK_SECS ==> r is Some,
{
    match chrono::DateTime::from_timestamp(secs, nanos) {
        Some(t) => Some(t.timestamp_micros()),
        None => None,
    }
}

/// The Chromium timestamp text for a Unix time in microseconds.
pub fn from_unix_micros(unix_us: i64) -> (r: Result<String, CliError>)
    ensures
        match r {
            Ok(s) => unix_us + UNIX_TO_CHROMIUM_EPOCH_OFFSET_US <= i64::MAX && s@ == decimal(
                unix_us + UNIX_TO_CHROMIUM_EPOCH_OFFSET_US,
            ),
            Err(e) => unix_us + UNIX_TO_CHROMIUM_EPOCH_OFFSET_US > i64::MAX && e is TimestampOverflow,
        },
{
    match unix_us.checked_add(UNIX_TO_CHROMIUM_EPOCH_OFFSET_US) {
        Some(chromium_us) => Ok(i64_to_string(chromium_us)),
        None => Err(CliError::TimestampOverflow),
    }
}

/// The Chromium time of a clock reading `(seconds, nanoseconds)` since the Unix epoch.
pub open spec fn spec_chromium_micros(secs: int, nanos: int) -> int {
    secs * 1_000_000 + nanos / 1000 + UNIX_TO_CHROMIUM_EPOCH_OFFSET_US
}

/// The Chromium timestamp text for a clock reading: the clock set before the Unix epoch
/// (no reading) is an error; a reading up to `MAX_CLOCK_SECS` always gives its timestamp;
/// a later one gives its timestamp or, past what a timestamp can hold, an overflow.
pub fn timestamp_from_clock(clock: Option<(u64, u32)>) -> (r: Result<String, CliError>)
    requires
        clock matches Some(t) ==> t.1 < 1_000_000_000,
    ensures
        match clock {
            None => r matches Err(e) && e is ClockBeforeEpoch,
            Some(t) => match r {
                Ok(s) => spec_chromium_micros(t.0 as int, t.1 as int) <= i64::MAX && s@ == decimal(
                    spec_chromium_micros(t.0 as int, t.1 as int),
                ),
                Err(e) => t.0 > MAX_CLOCK_SECS && e is TimestampOverflow,
            },
        },
{
    match clock {
        None => Err(CliError::ClockBeforeEpoch),
        Some((secs, nanos)) => {
            if secs > 9_223_372_036_854_775_807u64 {
                return Err(CliError::TimestampOverflow);
            }
            let s: i64 = secs as i64;
            match micros_since_epoch(s, nanos) {
                Some(us) => {
                    if us > i64::MAX - UNIX_TO_CHROMIUM_EPOCH_OFFSET_US {
                        proof {
                            assert(secs * 1_000_000 <= MAX_CLOCK_SECS * 1_000_000 || secs > MAX_CLOCK_SECS) by (nonlinear_arith);
                        }
                        return Err(CliError::TimestampOverflow);
                    }
                    from_unix_micros(us)
                },
                None => Err(CliError::TimestampOverflow),
            }
        },
    }
}

/// Generate a Chromium timestamp string for the current time.
/// Stored as a string of digits in the Preferences JSON.
/// A system clock set before 1970 is reported as an error.
pub fn now() -> (r: Result<String, CliError>)
    ensures
        match r {
            Ok(s) => exists|n: int|
                UNIX_TO_CHROMIUM_EPOCH_OFFSET_US <= n <= i64::MAX && #[trigger] decimal(n) == s@,
            Err(e) => e is TimestampOverflow || e is ClockBeforeEpoch,
        },
{
    let clock = unix_clock();
    let r = timestamp_from_clock(clock);
    proof {
        if clock is Some && r is Ok {
            let t = clock->0;
            let n = spec_chromium_micros(t.0 as int, t.1 as int);
            assert(t.0 * 1_000_000 >= 0) by (nonlinear_arith);
            assert(decimal(n) == r->Ok_0@ && UNIX_TO_CHROMIUM_EPOCH_OFFSET_US <= n <= i64::MAX);
        }
    }
    r
}

} // verus!
