//! The time of day in whole seconds.

use std::time::{Duration, SystemTime, SystemTimeError};

use vstd::prelude::*;

verus! {

/// `std::time::SystemTime`, of which nothing is known but [`nanos_since_epoch`].
#[verifier::external_type_specification]
#[verifier::external_body]
pub struct ExSystemTime(std::time::SystemTime);

/// `std::time::SystemTimeError`, of which nothing is known.
#[verifier::external_type_specification]
#[verifier::external_body]
pub struct ExSystemTimeError(std::time::SystemTimeError);

/// The nanoseconds in a duration.
pub uninterp spec fn nanos_in(d: Duration) -> nat;

/// The nanoseconds from the Unix epoch to a time, where that is not before it.
pub uninterp spec fn nanos_since_epoch(t: SystemTime) -> Option<nat>;

/// The whole seconds from the Unix epoch to a time, and 0 for a time before it.
pub open spec fn epoch_secs(t: SystemTime) -> nat {
    match nanos_since_epoch(t) {
        Some(nanos) => nanos / 1_000_000_000,
        None => 0,
    }
}

/// `SystemTime::now`: some time; which one is up to the machine's clock.
#[verifier::external_body]
fn system_time() -> (t: SystemTime) {
    SystemTime::now()
}

/// `SystemTime::duration_since`, from the Unix epoch: the time that has passed
/// since then, and an error for a time before it.
#[verifier::external_body]
fn since_epoch(t: &SystemTime) -> (r: Result<Duration, SystemTimeError>)
    ensures
        nanos_since_epoch(*t) == (match r {
            Ok(d) => Some(nanos_in(d)),
            Err(_) => None,
        }),
{
    t.duration_since(std::time::UNIX_EPOCH)
}

/// `Duration::as_secs`: the whole seconds in a duration.
#[verifier::external_body]
fn whole_secs(d: &Duration) -> (secs: u64)
    ensures
        secs == nanos_in(*d) / 1_000_000_000,
{
    d.as_secs()
}

/// The whole seconds from the Unix epoch to a time, and 0 for a time before it.
pub fn unix_secs(t: &SystemTime) -> (secs: u64)
    ensures
        secs == epoch_secs(*t),
        nanos_since_epoch(*t) matches Some(nanos) ==> secs * 1_000_000_000 <= nanos && nanos < (secs
            + 1) * 1_000_000_000,
        nanos_since_epoch(*t) is None ==> secs == 0,
{
    match since_epoch(t) {
        Ok(d) => whole_secs(&d),
        Err(_) => 0,
    }
}

/// The seconds since the Unix epoch now.
pub fn now_secs() -> (secs: u64)
    ensures
        exists|t: SystemTime| secs == #[trigger] epoch_secs(t),
{
    let t = system_time();
    unix_secs(&t)
}

/// The whole seconds are the most that fit into the time since the epoch; before it
/// there are none.
pub proof fn law_whole_seconds(t: SystemTime)
    ensures
        nanos_since_epoch(t) matches Some(nanos) ==> epoch_secs(t) * 1_000_000_000 <= nanos && nanos
            < (epoch_secs(t) + 1) * 1_000_000_000,
        nanos_since_epoch(t) is None ==> epoch_secs(t) == 0,
{
}

} // verus!
