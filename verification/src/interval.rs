//! Ranges of scalar codes.

use vstd::prelude::*;
use crate::scalar::{at_most, is_nan, less, Scalar, INFINITY, NEG_INFINITY};

verus! {

/// The range from `min` to `max`. Nothing asks that `min <= max`: a range whose
/// bounds are the wrong way round is simply empty.
#[derive(Debug, Clone, Copy)]
pub struct Interval {
    pub min: Scalar,
    pub max: Scalar,
}

impl Interval {
    /// The range with the given bounds.
    pub fn new(min: Scalar, max: Scalar) -> (r: Self)
        ensures
            r == (Interval { min, max }),
    {
        Interval { min, max }
    }

    /// Membership, bounds included.
    pub open spec fn spec_contains(&self, x: Scalar) -> bool {
        at_most(self.min, x) && at_most(x, self.max)
    }

    /// Membership, bounds excluded.
    pub open spec fn spec_surrounds(&self, x: Scalar) -> bool {
        less(self.min, x) && less(x, self.max)
    }

    /// The member of the range nearest to `x`. Where the bounds are the wrong
    /// way round, the lower bound wins over the upper one; a NaN stays what it
    /// is.
    pub open spec fn spec_clamp(&self, x: Scalar) -> Scalar {
        if less(x, self.min) {
            self.min
        } else if less(self.max, x) {
            self.max
        } else {
            x
        }
    }

    /// Tells whether `x` lies in the range, bounds included.
    #[verifier::when_used_as_spec(spec_contains)]
    pub fn contains(&self, x: Scalar) -> (r: bool)
        ensures
            r == self.spec_contains(x),
    {
        at_most(self.min, x) && at_most(x, self.max)
    }

    /// Tells whether `x` lies strictly between the bounds.
    #[verifier::when_used_as_spec(spec_surrounds)]
    pub fn surrounds(&self, x: Scalar) -> (r: bool)
        ensures
            r == self.spec_surrounds(x),
    {
        less(self.min, x) && less(x, self.max)
    }

    /// Saturates `x` at the bounds.
    #[verifier::when_used_as_spec(spec_clamp)]
    pub fn clamp(&self, x: Scalar) -> (r: Scalar)
        ensures
            r == self.spec_clamp(x),
    {
        if less(x, self.min) {
            return self.min;
        }
        if less(self.max, x) {
            return self.max;
        }
        x
    }

    /// The upper bound.
    pub fn max(&self) -> (r: Scalar)
        ensures
            r == self.max,
    {
        self.max
    }

    /// The lower bound.
    pub fn min(&self) -> (r: Scalar)
        ensures
            r == self.min,
    {
        self.min
    }
}

impl Default for Interval {
    /// The range of all numbers, from negative to positive infinity.
    fn default() -> (r: Self)
        ensures
            r == (Interval { min: NEG_INFINITY, max: INFINITY }),
    {
        Interval { min: NEG_INFINITY, max: INFINITY }
    }
}

/// Clamping lands in the range, leaves its members alone, and so changes
/// nothing when done twice.
pub proof fn lemma_clamp_saturates(range: Interval, x: Scalar)
    requires
        at_most(range.min, range.max),
        !is_nan(x),
    ensures
        range.contains(range.clamp(x)),
        range.contains(x) ==> range.clamp(x) == x,
        range.clamp(range.clamp(x)) == range.clamp(x),
{
}

/// Clamping keeps the order: the larger input never gets the smaller output.
pub proof fn lemma_clamp_is_monotonic(range: Interval, x: Scalar, y: Scalar)
    requires
        at_most(range.min, range.max),
        at_most(x, y),
    ensures
        at_most(range.clamp(x), range.clamp(y)),
{
}

} // verus!
