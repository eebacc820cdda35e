//! Probabilities as exact ratios, and the random source that draws them.
use rand::Rng;
use vstd::prelude::*;

verus! {

/// rand's standard generator, carried through as an opaque random source.
#[verifier::external_type_specification]
#[verifier::external_body]
pub struct ExStdRng(rand::rngs::StdRng);

/// A probability written as `numerator / denominator`.
#[derive(Clone, Copy, Debug, PartialEq, Eq, Structural)]
pub struct Probability {
    pub numerator: u32,
    pub denominator: u32,
}

impl Probability {
    /// The ratio lies in [0, 1].
    pub open spec fn wf(self) -> bool {
        0 < self.denominator && self.numerator <= self.denominator
    }

    /// The event never happens.
    pub open spec fn is_never(self) -> bool {
        self.numerator == 0
    }

    /// The event always happens.
    pub open spec fn is_certain(self) -> bool {
        self.numerator == self.denominator
    }
}

/// Relies on rand's `Rng::random_ratio`: true with chance numerator / denominator,
/// guaranteed false for a zero numerator and true when numerator equals
/// denominator; it panics when the denominator is zero or below the numerator.
#[verifier::external_body]
fn random_ratio(rng: &mut rand::rngs::StdRng, numerator: u32, denominator: u32) -> (r: bool)
    requires
        0 < denominator,
        numerator <= denominator,
    ensures
        numerator == 0 ==> !r,
        numerator == denominator ==> r,
{
    rng.random_ratio(numerator, denominator)
}

/// Draws one event of probability `p`.
pub fn happens(p: Probability, rng: &mut rand::rngs::StdRng) -> (r: bool)
    requires
        p.wf(),
    ensures
        p.is_never() ==> !r,
        p.is_certain() ==> r,
{
    random_ratio(rng, p.numerator, p.denominator)
}

} // verus!
