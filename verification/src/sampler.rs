//! The sampler: a seeded generator, and the rule that decides whether a
//! number is a draw from a uniform distribution.
//!
//! A distribution is described by a map with the two bounds `low` and `high`.
//! The sampler owns the generator from which draws are made. Turning the
//! generator's output into a number between the bounds is arithmetic on
//! numbers, which this crate leaves to its caller: the caller draws from
//! `generator` and hands the drawn number to `sample_independent`.

use vstd::prelude::*;
use rand::rngs::StdRng;
use crate::error::{ErrorKind, TrialError};
use crate::number::{is_within, within};
use crate::params::Params;
use crate::trial::FrozenTrial;

verus! {

/// `rand::rngs::StdRng`, the generator that the sampler owns. It is carried
/// and handed out; nothing is known of what it holds.
#[verifier::external_type_specification]
#[verifier::external_body]
pub struct ExStdRng(rand::rngs::StdRng);

/// The generator that `rand::SeedableRng::seed_from_u64` makes from a seed,
/// for `rand::rngs::StdRng`. The seed is expanded and keys the generator's
/// cipher; nothing else enters, so one seed gives one generator.
pub uninterp spec fn seeded(seed: u64) -> StdRng;

/// `rand::SeedableRng::seed_from_u64` for `rand::rngs::StdRng`. The claim is
/// that the generator it returns is determined by the seed; what the
/// generator then yields is not described.
#[verifier::external_body]
fn seeded_generator(seed: u64) -> (generator: StdRng)
    ensures
        generator == seeded(seed),
{
    rand::SeedableRng::seed_from_u64(seed)
}

/// The description of the uniform distribution over `low <= x < high`.
pub open spec fn uniform(low: u64, high: u64) -> Map<Seq<char>, u64> {
    Map::<Seq<char>, u64>::empty().insert("low"@, low).insert("high"@, high)
}

/// Whether the description names both bounds.
pub open spec fn has_bounds(distribution: Map<Seq<char>, u64>) -> bool {
    distribution.dom().contains("low"@) && distribution.dom().contains("high"@)
}

/// Whether `drawn` is a draw from the described distribution: both bounds
/// are there and `low <= drawn < high`.
pub open spec fn accepts(distribution: Map<Seq<char>, u64>, drawn: u64) -> bool {
    has_bounds(distribution) && within(distribution["low"@], drawn, distribution["high"@])
}

/// The failure with which a number is refused.
pub open spec fn is_refusal(distribution: Map<Seq<char>, u64>, e: TrialError) -> bool {
    &&& e.spec_kind() == ErrorKind::Validation
    &&& e.spec_message() == if !distribution.dom().contains("low"@) {
        "distribution has no low bound"@
    } else if !distribution.dom().contains("high"@) {
        "distribution has no high bound"@
    } else {
        "value is not within the bounds of the distribution"@
    }
}

/// `uniform(low, high)` has both bounds, and they are `low` and `high`.
pub proof fn lemma_uniform(low: u64, high: u64)
    ensures
        has_bounds(uniform(low, high)),
        uniform(low, high)["low"@] == low,
        uniform(low, high)["high"@] == high,
        forall|drawn: u64| accepts(uniform(low, high), drawn) <==> within(low, drawn, high),
{
    reveal_strlit("low");
    reveal_strlit("high");
    assert("low"@ != "high"@) by {
        assert("low"@.len() == 3);
        assert("high"@.len() == 4);
    }
}

/// Builds the description of the uniform distribution between two bounds.
pub fn uniform_distribution(low: u64, high: u64) -> (distribution: Params)
    ensures
        distribution@ == uniform(low, high),
{
    let mut distribution = Params::new();
    distribution.insert("low", low);
    distribution.insert("high", high);
    distribution
}

/// Produces parameter values from one seeded generator.
#[derive(Debug)]
pub struct Sampler {
    rng: StdRng,
}

impl Sampler {
    /// The generator as the sampler holds it.
    pub closed spec fn rng(&self) -> StdRng {
        self.rng
    }

    /// A sampler whose generator starts from `seed`: two samplers made from
    /// one seed hold the same generator.
    pub fn new(seed: u64) -> (sampler: Sampler)
        ensures
            sampler.rng() == seeded(seed),
    {
        Sampler { rng: seeded_generator(seed) }
    }

    /// Lends the sampler's generator, for the caller to draw from. What the
    /// caller leaves in it is the sampler's generator from then on, so each
    /// draw advances the sampler.
    pub fn generator(&mut self) -> (generator: &mut StdRng)
        ensures
            *generator == old(self).rng(),
            final(self).rng() == *final(generator),
    {
        &mut self.rng
    }

    /// Accepts `drawn` as one draw from `distribution`, or refuses it: with a
    /// validation failure when a bound is missing, and when `drawn` does not
    /// lie within the bounds. The trial and the name have no part in it.
    pub fn sample_independent(
        &self,
        _trial: &FrozenTrial,
        _name: &str,
        distribution: &Params,
        drawn: u64,
    ) -> (r: Result<u64, TrialError>)
        ensures
            r is Ok <==> accepts(distribution@, drawn),
            r matches Ok(value) ==> value == drawn,
            r matches Err(e) ==> is_refusal(distribution@, e),
    {
        match distribution.get("low") {
            None => Err(TrialError::validation("distribution has no low bound")),
            Some(low) => match distribution.get("high") {
                None => Err(TrialError::validation("distribution has no high bound")),
                Some(high) => {
                    if is_within(low, drawn, high) {
                        Ok(drawn)
                    } else {
                        Err(
                            TrialError::validation(
                                "value is not within the bounds of the distribution",
                            ),
                        )
                    }
                },
            },
        }
    }
}

} // verus!
