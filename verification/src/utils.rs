//! General utilities: random number generation for weight
//! initialization.

use vstd::prelude::*;
use rand::Rng;

verus! {

/// Generate a random value in the half-open range `[min, max)`.
///
/// Relies on rand: `thread_rng().gen_range(min..max)` returns a value
/// drawn from the given range, and panics when the range is empty, so a
/// non-empty range is required. Nothing is promised about the
/// distribution of the result.
#[verifier::external_body]
pub fn randomize(min: i64, max: i64) -> (r: i64)
    requires
        min < max,
    ensures
        min <= r < max,
{
    rand::thread_rng().gen_range(min..max)
}

} // verus!
