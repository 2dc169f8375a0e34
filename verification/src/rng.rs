//! The board's source of randomness: a uniform draw from a half-open range.

use vstd::prelude::*;

verus! {

/// Relies on `rand::random_range` over `low..high`: it returns a value of the
/// given range, uniformly at random, and panics only when the range is empty.
/// Nothing more is assumed of the draw: callers must cope with every value in
/// `[low, high)`.
#[verifier::external_body]
pub(crate) fn random_below(low: usize, high: usize) -> (r: usize)
    requires
        low < high,
    ensures
        low <= r < high,
{
    rand::random_range(low..high)
}

} // verus!
