//! Probabilities as exact fractions, and the trial that a random source decides.

use vstd::prelude::*;
use crate::random::RandomSource;

verus! {

/// The probability `numerator / denominator`.
///
/// It is a probability only where the denominator is positive and the
/// numerator does not exceed it, see [`Probability::valid`]; the fields are
/// public so that any fraction can be written down and then checked.
#[derive(Clone, Copy, Debug, PartialEq, Eq)]
pub struct Probability {
    pub numerator: u64,
    pub denominator: u64,
}

impl Probability {
    /// The fraction lies in the closed interval from zero to one.
    pub open spec fn valid(self) -> bool {
        0 < self.denominator && self.numerator <= self.denominator
    }

    /// The probability is one.
    pub open spec fn certain(self) -> bool {
        self.valid() && self.numerator == self.denominator
    }

    /// The probability is zero.
    pub open spec fn impossible(self) -> bool {
        self.valid() && self.numerator == 0
    }

    /// Whether a value drawn from `0..denominator` counts as a success: the
    /// lowest `numerator` of the `denominator` equally likely values do.
    pub open spec fn succeeds_on(self, draw: u64) -> bool {
        draw < self.numerator
    }

    /// The fraction `numerator / denominator`, unchecked.
    pub fn new(numerator: u64, denominator: u64) -> (p: Self)
        ensures
            p.numerator == numerator,
            p.denominator == denominator,
    {
        Probability { numerator, denominator }
    }

    /// Tells whether the fraction lies between zero and one.
    pub fn is_valid(&self) -> (ok: bool)
        ensures
            ok == self.valid(),
    {
        0 < self.denominator && self.numerator <= self.denominator
    }

    /// One trial: draws once from `0..denominator` and reports a success with
    /// probability `numerator / denominator`.
    pub fn trial<R: RandomSource>(&self, rng: &mut R) -> (success: bool)
        requires
            self.valid(),
        ensures
            final(rng).drawn().len() == old(rng).drawn().len() + 1,
            final(rng).drawn().drop_last() == old(rng).drawn(),
            final(rng).drawn().last() < self.denominator,
            success == self.succeeds_on(final(rng).drawn().last()),
            self.certain() ==> success,
            self.impossible() ==> !success,
    {
        let draw = rng.draw_below(self.denominator);
        assert(rng.drawn().drop_last() =~= old(rng).drawn());
        draw < self.numerator
    }
}

} // verus!
