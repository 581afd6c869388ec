//! What the library draws from outside itself: random numbers and the
//! clock. Nothing is promised of these values beyond their type, so the
//! code that uses them is verified for every value they may take.

use vstd::prelude::*;
use rand::Rng;
use std::time::{Duration, SystemTime, SystemTimeError};

verus! {

/// Calls `rand::Rng::gen_range` on the thread's generator with the
/// inclusive range `lo..=hi`. The range is not empty, so the call does not
/// panic, and the value drawn lies in it.
#[verifier::external_body]
pub(crate) fn random_between(lo: usize, hi: usize) -> (r: usize)
    requires
        lo <= hi,
    ensures
        lo <= r <= hi,
{
    rand::thread_rng().gen_range(lo..=hi)
}

/// Calls `rand::random` for a `usize`: any value may come back.
#[verifier::external_body]
pub(crate) fn random_usize() -> (r: usize) {
    rand::random::<usize>()
}

/// Calls `rand::Rng::gen` on the thread's generator for a `usize`: any
/// value may come back.
#[verifier::external_body]
pub(crate) fn gen_usize() -> (r: usize) {
    rand::thread_rng().gen::<usize>()
}

/// Calls `rand::Rng::gen` on the thread's generator for a `u16`: any value
/// may come back.
#[verifier::external_body]
pub(crate) fn gen_u16() -> (r: u16) {
    rand::thread_rng().gen::<u16>()
}

/// A point in time as the system clock reports it.
#[verifier::external_type_specification]
#[verifier::external_body]
pub struct ExSystemTime(SystemTime);

/// The error of asking for the time elapsed since a later point.
#[verifier::external_type_specification]
#[verifier::external_body]
pub struct ExSystemTimeError(SystemTimeError);

/// `SystemTime::now` reads the clock; nothing is known of what it shows.
pub assume_specification[ SystemTime::now ]() -> (t: SystemTime)
;

/// `SystemTime::duration_since` gives the time elapsed since `earlier`, or
/// an error if `earlier` is the later of the two.
pub assume_specification[ SystemTime::duration_since ](
    t: &SystemTime,
    earlier: SystemTime,
) -> (r: Result<Duration, SystemTimeError>)
;

/// `Duration::as_millis` gives the whole milliseconds of a duration.
pub assume_specification[ Duration::as_millis ](d: &Duration) -> (ms: u128)
;

/// Hands out the constant `std::time::UNIX_EPOCH`.
#[verifier::external_body]
pub(crate) fn unix_epoch() -> (t: SystemTime) {
    std::time::UNIX_EPOCH
}

/// A byte drawn uniformly from `0..=255`.
pub(crate) fn random_byte() -> (b: u8) {
    random_between(0, 255) as u8
}

/// `n` bytes, each drawn uniformly from `0..=255`.
pub(crate) fn random_bytes(n: usize) -> (v: Vec<u8>)
    ensures
        v.len() == n,
{
    let mut v: Vec<u8> = Vec::new();
    let mut i: usize = 0;
    while i < n
        invariant
            i <= n,
            v.len() == i,
        decreases n - i,
    {
        v.push(random_byte());
        i += 1;
    }
    v
}

/// The milliseconds elapsed since the Unix epoch, or `None` if the clock
/// shows a time before it.
pub(crate) fn now_millis() -> (r: Option<u128>) {
    let now = SystemTime::now();
    match now.duration_since(unix_epoch()) {
        Ok(d) => Some(d.as_millis()),
        Err(_) => None,
    }
}

} // verus!
