//! Time, as the rate limiter sees it.
use std::time::{Duration, Instant};
use vstd::prelude::*;

verus! {

/// A point of the machine's monotonic clock.
#[verifier::external_type_specification]
#[verifier::external_body]
pub struct ExInstant(Instant);

/// `std::time::Instant::now`: the present moment. Nothing is claimed of it.
#[verifier::external_body]
fn this_moment() -> Instant {
    Instant::now()
}

/// `std::time::Instant::elapsed`: the time since then. Nothing is claimed of it.
pub assume_specification[ Instant::elapsed ](i: &Instant) -> Duration
;

/// `std::time::Duration::as_nanos`: the length in nanoseconds. Nothing is
/// claimed of it.
pub assume_specification[ Duration::as_nanos ](d: &Duration) -> u128
;

/// A number of nanoseconds in 64 bits; one that does not fit counts as the
/// largest that does.
pub open spec fn reading(n: u128) -> u64 {
    if n <= u64::MAX {
        n as u64
    } else {
        u64::MAX
    }
}

/// A number of nanoseconds in 64 bits; one that does not fit counts as the
/// largest that does.
pub fn nanoseconds(n: u128) -> (r: u64)
    ensures
        r == reading(n),
{
    if n > 0xffff_ffff_ffff_ffff {
        0xffff_ffff_ffff_ffff
    } else {
        n as u64
    }
}

/// A longer time is never a smaller reading, so that a clock goes back only where
/// the machine's clock does.
pub proof fn law_readings_keep_the_order(earlier: u128, later: u128)
    requires
        earlier <= later,
    ensures
        reading(earlier) <= reading(later),
{
}

/// A clock that gives nanoseconds since some moment of its own choice.
pub trait Clock: Send + Sync {
    fn now(&self) -> u64;
}

/// The machine's monotonic clock.
#[derive(Debug)]
pub struct SystemClock {
    epoch: Instant,
}

impl SystemClock {
    /// A clock that starts now. When that is, is up to the machine.
    pub fn new() -> SystemClock {
        SystemClock { epoch: this_moment() }
    }
}

impl Default for SystemClock {
    fn default() -> SystemClock {
        SystemClock::new()
    }
}

impl Clock for SystemClock {
    /// The reading of the time since the clock started. How long that is, is up to
    /// the machine.
    fn now(&self) -> u64 {
        nanoseconds(self.epoch.elapsed().as_nanos())
    }
}

} // verus!
