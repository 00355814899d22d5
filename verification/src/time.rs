//! Instants and durations of the standard library, with the facts about
//! them that the library's logic relies on.
use vstd::prelude::*;
use std::time::{Duration, Instant};

verus! {

/// A point in time (`std::time::Instant`); opaque here.
#[verifier::external_type_specification]
#[verifier::external_body]
pub struct ExInstant(std::time::Instant);

/// Cloning an `Instant` (a `Copy` type) gives the same instant.
pub assume_specification[ <std::time::Instant as Clone>::clone ](i: &std::time::Instant) -> (r: std::time::Instant)
    ensures
        r == *i,
;

/// Cloning a `Duration` (a `Copy` type) gives the same duration.
pub assume_specification[ <std::time::Duration as Clone>::clone ](d: &std::time::Duration) -> (r: std::time::Duration)
    ensures
        r == *d,
;

/// The largest number of nanoseconds a `Duration` holds: `u64::MAX`
/// seconds and 999 999 999 nanoseconds (`Duration::MAX`).
pub open spec fn max_duration_nanos() -> nat {
    (u64::MAX as nat) * 1_000_000_000 + 999_999_999
}

/// The total length of a duration in nanoseconds (`Duration::as_nanos`).
pub uninterp spec fn duration_nanos(d: Duration) -> nat;

/// What `Duration / u32` gives, in nanoseconds, for a duration of
/// `nanos` nanoseconds.
pub uninterp spec fn duration_quotient(nanos: nat, divisor: u32) -> nat;

/// The current time (`Instant::now`). Nothing is stated of the result: it
/// depends on the clock.
#[verifier::external_body]
pub(crate) fn instant_now() -> Instant {
    Instant::now()
}

/// The time passed since `start` (`Instant::elapsed`). Nothing is stated
/// of the result: it depends on the clock.
#[verifier::external_body]
pub(crate) fn instant_elapsed(start: &Instant) -> Duration {
    start.elapsed()
}

/// The length of `d` in nanoseconds (`Duration::as_nanos`); the result is
/// named by `duration_nanos`.
#[verifier::external_body]
pub(crate) fn duration_as_nanos(d: &Duration) -> (r: u128)
    ensures
        r == duration_nanos(*d),
{
    d.as_nanos()
}

/// The whole microseconds in `d` (`Duration::as_micros`): its nanoseconds
/// divided by 1000, rounded down.
#[verifier::external_body]
pub(crate) fn duration_as_micros(d: &Duration) -> (r: u128)
    ensures
        r == duration_nanos(*d) / 1000,
{
    d.as_micros()
}

/// The empty duration (`Duration::ZERO`).
#[verifier::external_body]
pub(crate) fn duration_zero() -> (r: Duration)
    ensures
        duration_nanos(r) == 0,
{
    Duration::ZERO
}

/// The sum of two durations (`Duration + Duration`), which panics when it
/// exceeds `Duration::MAX`; the length of the result is the sum of the
/// lengths.
#[verifier::external_body]
pub(crate) fn duration_add(a: Duration, b: Duration) -> (r: Duration)
    requires
        duration_nanos(a) + duration_nanos(b) <= max_duration_nanos(),
    ensures
        duration_nanos(r) == duration_nanos(a) + duration_nanos(b),
{
    a + b
}

/// A duration divided by a non-zero count (`Duration / u32`, which panics
/// on zero). The documentation does not say how the result is rounded, so
/// its length is only named by `duration_quotient`.
#[verifier::external_body]
pub(crate) fn duration_div(d: Duration, n: u32) -> (r: Duration)
    requires
        n != 0,
    ensures
        duration_nanos(r) == duration_quotient(duration_nanos(d), n),
{
    d / n
}

/// A duration of `ms` milliseconds (`Duration::from_millis`).
#[verifier::external_body]
pub(crate) fn duration_from_millis(ms: u64) -> (r: Duration)
    ensures
        duration_nanos(r) == ms * 1_000_000,
{
    Duration::from_millis(ms)
}

/// The time from `earlier` to `later` (`Instant::duration_since`). Nothing
/// is stated of the result: the instants come from the clock.
#[verifier::external_body]
pub(crate) fn instant_duration_since(later: &Instant, earlier: &Instant) -> Duration {
    later.duration_since(*earlier)
}

} // verus!
