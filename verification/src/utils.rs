//! Wall-clock helpers: a monotonic timer and fresh alert identifiers.
//! Nothing is promised about their results, which depend on the clock and on
//! the process's randomness.

use vstd::prelude::*;

verus! {

#[verifier::external_type_specification]
#[verifier::external_body]
pub struct ExInstant(std::time::Instant);

/// Relies on `std::time::Instant::now`: an opaque reading of the monotonic
/// clock; nothing can be promised of its value.
#[verifier::external_body]
fn instant_now() -> std::time::Instant {
    std::time::Instant::now()
}

/// Relies on `std::time::Instant::elapsed` and `Duration::as_millis`: the
/// time since `start`, which depends on the clock; nothing can be promised
/// of its value.
#[verifier::external_body]
fn millis_since(start: &std::time::Instant) -> u64 {
    let ms = start.elapsed().as_millis();
    if ms > u64::MAX as u128 {
        u64::MAX
    } else {
        ms as u64
    }
}

/// Relies on `uuid::Uuid::new_v4` and its `to_string`: a fresh random
/// identifier; nothing can be promised of its value.
#[verifier::external_body]
pub fn new_uuid_string() -> String {
    uuid::Uuid::new_v4().to_string()
}

/// A stopwatch started at its creation.
pub struct Timer {
    start_time: std::time::Instant,
}

impl Timer {
    pub fn new() -> Timer {
        Timer { start_time: instant_now() }
    }

    /// Whole milliseconds elapsed since the timer was created.
    pub fn elapsed_millis(&self) -> u64 {
        millis_since(&self.start_time)
    }
}

} // verus!
