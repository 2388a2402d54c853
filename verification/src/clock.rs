//! The clock by which sessions age.

use vstd::prelude::*;

verus! {

/// `std::time::SystemTime`: a reading of the system clock, carried from one
/// call to the next without a look inside.
#[verifier::external_type_specification]
#[verifier::external_body]
pub struct ExSystemTime(std::time::SystemTime);

/// `std::time::SystemTimeError`: what `duration_since` gives where the
/// earlier time is the later one. Nothing is read from it.
#[verifier::external_type_specification]
#[verifier::external_body]
pub struct ExSystemTimeError(std::time::SystemTimeError);

/// `std::time::SystemTime::now`: the reading of the system clock. Nothing is
/// known of it.
#[verifier::external_body]
fn system_now() -> std::time::SystemTime {
    std::time::SystemTime::now()
}

/// `std::time::SystemTime::duration_since` against `UNIX_EPOCH`: the time
/// from the epoch to `t`, or an error where `t` lies before the epoch.
/// Nothing is known of the result.
#[verifier::external_body]
fn since_unix_epoch(t: &std::time::SystemTime) -> Result<
    core::time::Duration,
    std::time::SystemTimeError,
> {
    t.duration_since(std::time::UNIX_EPOCH)
}

/// `core::time::Duration::as_secs`: the whole seconds of a duration. Nothing
/// is known of the result.
#[verifier::external_body]
fn whole_seconds(d: &core::time::Duration) -> u64 {
    d.as_secs()
}

/// The timestamp for a clock that stands `elapsed` seconds after the epoch;
/// a clock that stands before the epoch reads as the epoch itself.
pub fn timestamp_from(elapsed: Option<u64>) -> (t: u64)
    ensures
        t == match elapsed {
            Some(seconds) => seconds,
            None => 0u64,
        },
{
    match elapsed {
        Some(seconds) => seconds,
        None => 0,
    }
}

/// The current time in whole seconds since the Unix epoch; 0 where the
/// system clock stands before the epoch.
pub fn get_timestamp() -> u64 {
    let now = system_now();
    let elapsed = match since_unix_epoch(&now) {
        Ok(d) => Some(whole_seconds(&d)),
        Err(_) => None,
    };
    timestamp_from(elapsed)
}

} // verus!
