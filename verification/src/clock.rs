//! The clock that the timed modes read.

use vstd::prelude::*;
use std::time::{Duration, Instant};

verus! {

/// A reading of the monotonic clock, `std::time::Instant`: a value that is
/// carried from the start of a measurement to its end and never looked into.
#[verifier::external_type_specification]
#[verifier::external_body]
pub struct ExInstant(std::time::Instant);

/// `Instant::now` reads the clock. Nothing is claimed of the reading.
pub assume_specification[ Instant::now ]() -> Instant;

/// `Instant::elapsed` is the time that has passed since the reading was
/// taken. Nothing is claimed of its length.
pub assume_specification[ Instant::elapsed ](start: &Instant) -> Duration;

} // verus!
