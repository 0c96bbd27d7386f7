//! Wall-clock time in microseconds.

use std::time::{Duration, SystemTime, UNIX_EPOCH};
use vstd::prelude::*;

verus! {

/// A point in time of the system clock.
#[verifier::external_type_specification]
#[verifier::external_body]
pub struct ExSystemTime(std::time::SystemTime);

/// `SystemTime::now`: whatever the system clock shows.
#[verifier::external_body]
fn system_time_now() -> (t: SystemTime) {
    SystemTime::now()
}

/// `SystemTime::duration_since` the Unix epoch, or no time at all where the
/// clock is set before it. Nothing is claimed of the span.
#[verifier::external_body]
fn since_unix_epoch(t: SystemTime) -> (d: Duration) {
    t.duration_since(UNIX_EPOCH).unwrap_or_default()
}

/// `Duration::as_micros`. Nothing is claimed of the number.
#[verifier::external_body]
fn whole_micros(d: Duration) -> (us: u128) {
    d.as_micros()
}

/// Microseconds since the Unix epoch, in 64 bits. Which number that is rests on the
/// system clock, so nothing is claimed of it.
pub fn now_us() -> (us: u64) {
    let d = since_unix_epoch(system_time_now());
    low_us(whole_micros(d))
}

/// A span of microseconds in 64 bits: the low ones, where it takes more.
pub fn low_us(us: u128) -> (r: u64)
    ensures
        r == us % 0x1_0000_0000_0000_0000,
{
    assert(us as u64 == us % 0x1_0000_0000_0000_0000) by (bit_vector);
    #[verifier::truncate]
    let r: u64 = us as u64;
    r
}

/// A span of microseconds, capped at what 32 bits hold.
pub fn cap_us(us: u128) -> (r: u32)
    ensures
        r == if us <= u32::MAX {
            us as u32
        } else {
            u32::MAX
        },
{
    if us <= u32::MAX as u128 {
        us as u32
    } else {
        u32::MAX
    }
}

} // verus!
