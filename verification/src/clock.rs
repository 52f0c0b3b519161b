//! The system clock.
use vstd::prelude::*;

verus! {

#[verifier::external_type_specification]
#[verifier::external_body]
pub struct ExSystemTime(std::time::SystemTime);

/// `std::time::SystemTime::now`: nothing is promised of the reading.
#[verifier::external_body]
fn system_now() -> (r: std::time::SystemTime) {
    std::time::SystemTime::now()
}

/// `std::time::SystemTime::duration_since` the Unix epoch, none for a reading before it; nothing
/// is promised of the result.
#[verifier::external_body]
fn since_epoch(t: std::time::SystemTime) -> (r: Option<std::time::Duration>) {
    match t.duration_since(std::time::UNIX_EPOCH) {
        Ok(d) => Some(d),
        Err(_) => None,
    }
}

/// `std::time::Duration::as_secs`: nothing is promised of the result.
#[verifier::external_body]
fn whole_seconds(d: std::time::Duration) -> (r: u64) {
    d.as_secs()
}

/// `std::time::Duration::as_millis`: nothing is promised of the result.
#[verifier::external_body]
fn whole_millis(d: std::time::Duration) -> (r: u128) {
    d.as_millis()
}

#[verifier::external_type_specification]
#[verifier::external_body]
pub struct ExInstant(std::time::Instant);

/// `std::time::Instant::now`: nothing is promised of the reading.
#[verifier::external_body]
pub(crate) fn instant_now() -> (r: std::time::Instant) {
    std::time::Instant::now()
}

/// `std::time::Instant::elapsed`: nothing is promised of the result.
#[verifier::external_body]
fn elapsed_since(start: &std::time::Instant) -> (r: std::time::Duration) {
    start.elapsed()
}

/// `std::time::Duration::as_micros`: nothing is promised of the result.
#[verifier::external_body]
fn whole_micros(d: std::time::Duration) -> (r: u128) {
    d.as_micros()
}

/// `std::time::Duration::as_nanos`: nothing is promised of the result.
#[verifier::external_body]
fn whole_nanos(d: std::time::Duration) -> (r: u128) {
    d.as_nanos()
}

fn clamp_to_u64(x: u128) -> (r: u64)
    ensures
        r == if x <= u64::MAX {
            x as int
        } else {
            u64::MAX as int
        },
{
    if x <= 0xffff_ffff_ffff_ffff {
        x as u64
    } else {
        u64::MAX
    }
}

/// Microseconds since an earlier reading, in 64 bits.
pub(crate) fn micros_since(start: &std::time::Instant) -> (r: u64) {
    clamp_to_u64(whole_micros(elapsed_since(start)))
}

/// Nanoseconds since an earlier reading, in 64 bits.
pub(crate) fn nanos_since(start: &std::time::Instant) -> (r: u64) {
    clamp_to_u64(whole_nanos(elapsed_since(start)))
}

/// Seconds since the Unix epoch, as the system clock reads now; zero before the epoch.
pub fn unix_seconds() -> (r: u64) {
    match since_epoch(system_now()) {
        Some(d) => whole_seconds(d),
        None => 0,
    }
}

/// Milliseconds since the Unix epoch, as the system clock reads now, in 64 bits; zero before the
/// epoch.
pub fn unix_millis() -> (r: u64) {
    match since_epoch(system_now()) {
        Some(d) => clamp_to_u64(whole_millis(d)),
        None => 0,
    }
}

} // verus!
