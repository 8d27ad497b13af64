//! The wall clock, and the calendar-day keys derived from it.
//!
//! What the clock reads is outside any contract: the functions here promise
//! only what holds for every reading, and the keys built from a reading are
//! stated exactly in `day_key`.

use std::time::{Duration, SystemTime, SystemTimeError, UNIX_EPOCH};
use vstd::prelude::*;
use vstd::string::*;
use crate::text::{decimal_nat, push_decimal_u128};

verus! {

#[verifier::external_type_specification]
#[verifier::external_body]
pub struct ExSystemTime(SystemTime);

#[verifier::external_type_specification]
#[verifier::external_body]
pub struct ExSystemTimeError(SystemTimeError);

/// Calls `std::time::SystemTime::now`. The reading depends on the machine's
/// clock, so nothing is claimed of it.
#[verifier::external_body]
fn system_now() -> SystemTime {
    SystemTime::now()
}

/// Calls `SystemTime::duration_since` against `UNIX_EPOCH`. Whether it
/// succeeds depends on the clock reading (it fails for a time before the
/// epoch), so nothing is claimed of the result.
#[verifier::external_body]
fn since_unix_epoch(t: &SystemTime) -> Result<Duration, SystemTimeError> {
    t.duration_since(UNIX_EPOCH)
}

/// Calls `Duration::as_secs`. A `Duration` is opaque here, so nothing is
/// claimed of the number of whole seconds beyond its type.
#[verifier::external_body]
fn whole_seconds(d: &Duration) -> u64 {
    d.as_secs()
}

/// Calls `Duration::as_nanos`. A `Duration` is opaque here, so nothing is
/// claimed of the number of nanoseconds beyond its type.
#[verifier::external_body]
fn whole_nanos(d: &Duration) -> u128 {
    d.as_nanos()
}

/// Seconds since the Unix epoch, or 0 when the clock reads a time before it.
pub fn unix_now() -> u64 {
    let t = system_now();
    match since_unix_epoch(&t) {
        Ok(d) => whole_seconds(&d),
        Err(_) => 0,
    }
}

/// Nanoseconds since the Unix epoch, or 0 when the clock reads a time before
/// it; used as a nonce that varies from one call to the next.
pub fn unix_nonce() -> u128 {
    let t = system_now();
    match since_unix_epoch(&t) {
        Ok(d) => whole_nanos(&d),
        Err(_) => 0,
    }
}

/// Seconds in one calendar day.
pub const SECONDS_PER_DAY: u64 = 86_400;

/// The key of the day that contains the instant `now` (seconds since the
/// epoch): `day-` followed by the number of whole days since the epoch.
pub open spec fn day_label(now: u64) -> Seq<char> {
    seq!['d', 'a', 'y', '-'] + decimal_nat((now / 86_400) as nat)
}

/// The key of the day that contains the instant `now`.
pub fn day_key(now: u64) -> (s: String)
    ensures
        s@ == day_label(now),
{
    proof {
        reveal_strlit("day-");
    }
    let mut s = "day-".to_owned();
    let days: u64 = now / SECONDS_PER_DAY;
    push_decimal_u128(&mut s, days as u128);
    s
}

/// The key of the current day by the wall clock.
pub fn today_key() -> (s: String)
    ensures
        exists|now: u64| s@ == day_label(now),
{
    let now = unix_now();
    let s = day_key(now);
    assert(s@ == day_label(now));
    s
}

} // verus!
