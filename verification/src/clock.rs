//! The monotonic clock that polls are timed by.

use vstd::prelude::*;

verus! {

/// `tokio::time::Instant`: a point in time of the process's monotonic clock,
/// opaque to the proofs.
#[verifier::external_type_specification]
#[verifier::external_body]
pub struct ExInstant(tokio::time::Instant);

/// A clock that counts the nanoseconds since it was made, and whose readings
/// never go back. Its readings are the clock readings that polls are started
/// and swept at.
pub struct Clock {
    origin: tokio::time::Instant,
    latest: u128,
}

impl View for Clock {
    type V = u128;

    /// The latest reading that the clock has given; zero before the first.
    closed spec fn view(&self) -> u128 {
        self.latest
    }
}

/// Calls `tokio::time::Instant::now`, which returns the present instant of
/// the monotonic clock and does not fail. Nothing is claimed of the result.
#[verifier::external_body]
fn present() -> (instant: tokio::time::Instant) {
    tokio::time::Instant::now()
}

/// Calls `tokio::time::Instant::elapsed`, which returns the time that has
/// passed since `origin`, or no time if `origin` lies ahead, and does not
/// fail; the duration is handed on in whole nanoseconds. Nothing is claimed
/// of the result: it is what the clock says.
#[verifier::external_body]
fn nanos_since(origin: &tokio::time::Instant) -> (nanos: u128) {
    origin.elapsed().as_nanos()
}

impl Clock {
    /// A clock that starts counting now.
    pub fn new() -> (clock: Clock)
        ensures
            clock@ == 0,
    {
        Clock { origin: present(), latest: 0 }
    }

    /// Reads the clock: the nanoseconds since it was made, or the reading
    /// before this one if that was higher. So no reading is lower than an
    /// earlier one, whatever the underlying clock does.
    pub fn now(&mut self) -> (reading: u128)
        ensures
            reading >= old(self)@,
            final(self)@ == reading,
    {
        let measured: u128 = nanos_since(&self.origin);
        if measured > self.latest {
            self.latest = measured;
        }
        self.latest
    }

    /// The latest reading, without reading the clock again.
    pub fn latest(&self) -> (reading: u128)
        ensures
            reading == self@,
    {
        self.latest
    }
}

} // verus!
