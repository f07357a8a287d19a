//! The clock of the standard library, as far as timing a search needs it.
//! Nothing is claimed of what it reads.

use vstd::prelude::*;

verus! {

/// `std::time::Instant`: a reading of the monotonic clock, opaque here.
#[verifier::external_type_specification]
#[verifier::external_body]
pub struct ExInstant(std::time::Instant);

/// `std::time::Instant::now`: reads the clock. Any reading may come back.
pub assume_specification[ std::time::Instant::now ]() -> (t: std::time::Instant);

/// `std::time::Instant::elapsed`: the time since the reading was taken. Any
/// duration may come back.
pub assume_specification[ std::time::Instant::elapsed ](t: &std::time::Instant) -> (d:
    core::time::Duration);

/// `core::time::Duration::as_micros`: the whole microseconds of a duration.
/// Durations are opaque here, so nothing is said of the number.
pub assume_specification[ core::time::Duration::as_micros ](d: &core::time::Duration) -> (n: u128);

} // verus!
