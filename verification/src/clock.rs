//! The wall clock: the time since the Unix epoch, as the store and the log
//! take it.

use std::time::SystemTime;
use std::time::UNIX_EPOCH;
use vstd::prelude::*;

verus! {

/// `std::time::SystemTime`, a reading of the system clock. A value of it is
/// carried from the read to the comparison with the epoch and never looked
/// into.
#[verifier::external_type_specification]
#[verifier::external_body]
pub struct ExSystemTime(std::time::SystemTime);

/// `std::time::SystemTime::now` reads the system clock. Nothing is claimed
/// of the reading.
pub assume_specification[ std::time::SystemTime::now ]() -> (now: std::time::SystemTime);

/// A time after the Unix epoch: whole seconds, and the nanoseconds of the
/// second that has begun.
#[derive(Debug, Clone, Copy, PartialEq, Eq, Structural)]
pub struct SinceEpoch {
    pub secs: u64,
    pub subsec_nanos: u32,
}

/// Calls `std::time::SystemTime::duration_since` with the Unix epoch on
/// `time` and takes the duration apart with `Duration::as_secs` and
/// `Duration::subsec_nanos`. Claimed: the nanoseconds are fewer than those
/// of one second, as the documentation of `subsec_nanos` says. Nothing is
/// claimed of when the call gives a duration; it gives none where `time`
/// lies before the epoch.
#[verifier::external_body]
fn since_epoch(time: &SystemTime) -> (elapsed: Option<SinceEpoch>)
    ensures
        elapsed matches Some(e) ==> e.subsec_nanos < 1_000_000_000,
{
    match time.duration_since(UNIX_EPOCH) {
        Ok(d) => Some(SinceEpoch { secs: d.as_secs(), subsec_nanos: d.subsec_nanos() }),
        Err(_) => None,
    }
}

impl SinceEpoch {
    /// The whole microseconds that have passed since the epoch.
    pub fn micros(&self) -> (micros: u128)
        ensures
            micros == self.secs * 1_000_000 + self.subsec_nanos / 1000,
    {
        let secs: u128 = self.secs as u128;
        let nanos: u128 = self.subsec_nanos as u128;
        secs * 1_000_000 + nanos / 1000
    }
}

/// Reads the system clock: the time since the Unix epoch, or nothing where
/// the clock stands before the epoch.
pub fn read_clock() -> (elapsed: Option<SinceEpoch>)
    ensures
        elapsed matches Some(e) ==> e.subsec_nanos < 1_000_000_000,
{
    let now = SystemTime::now();
    since_epoch(&now)
}

/// The microseconds since the Unix epoch by the system clock, or nothing
/// where the clock stands before the epoch. The seconds among them fit in
/// 64 bits.
pub fn get_sys_time_in_secs() -> (micros: Option<u128>)
    ensures
        micros matches Some(us) ==> us / 1_000_000 <= u64::MAX,
{
    let elapsed = read_clock();
    micros_of(elapsed)
}

/// The seconds since the Unix epoch by the system clock, or nothing where
/// the clock stands before the epoch. Nothing can be said of the number
/// before the clock is read: `secs_of` says what is handed out for each
/// reading.
pub fn unix_time_secs() -> (secs: Option<u64>) {
    let elapsed = read_clock();
    secs_of(elapsed)
}

/// The whole microseconds of a reading of the clock: nothing for a clock
/// that stands before the epoch.
pub fn micros_of(elapsed: Option<SinceEpoch>) -> (micros: Option<u128>)
    ensures
        micros == match elapsed {
            Some(e) => Some((e.secs * 1_000_000 + e.subsec_nanos / 1000) as u128),
            None => None,
        },
{
    match elapsed {
        Some(e) => Some(e.micros()),
        None => None,
    }
}

/// The whole seconds of a reading of the clock: nothing for a clock that
/// stands before the epoch.
pub fn secs_of(elapsed: Option<SinceEpoch>) -> (secs: Option<u64>)
    ensures
        secs == match elapsed {
            Some(e) => Some(e.secs),
            None => None,
        },
{
    match elapsed {
        Some(e) => Some(e.secs),
        None => None,
    }
}

} // verus!
