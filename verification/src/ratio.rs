//! Exact fractions of two integers.

use vstd::prelude::*;

verus! {

/// The fraction `num / den`, not reduced to lowest terms. Every position,
/// height and frequency that this crate returns has a positive denominator. An
/// amplitude that is given as a fraction of an energy has that energy as its
/// denominator, whatever its sign; over zero it stands for no number.
#[derive(Clone, Copy, Debug, PartialEq, Eq, Structural)]
pub struct Ratio {
    pub num: i128,
    pub den: i128,
}

impl Ratio {
    /// The denominator is positive.
    pub open spec fn wf(self) -> bool {
        self.den > 0
    }

    /// `self` is greater than `other`, where the two denominators have the
    /// same sign.
    pub open spec fn greater_than(self, other: Ratio) -> bool {
        self.num * other.den > other.num * self.den
    }
}

} // verus!
