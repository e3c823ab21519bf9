//! The random source that growth, mutation and crossover draw from.
use vstd::prelude::*;
use rand::seq::SliceRandom;
use rand::Rng;

verus! {

#[verifier::external_type_specification]
#[verifier::external_body]
pub struct ExStdRng(rand::rngs::StdRng);

/// Relies on `rand::Rng::gen_range`: a value of `0..bound`, which must not be empty.
#[verifier::external_body]
pub(crate) fn random_below(rng: &mut rand::rngs::StdRng, bound: usize) -> (r: usize)
    requires
        bound > 0,
    ensures
        r < bound,
{
    rng.gen_range(0..bound)
}

/// Relies on `rand::Rng::gen_ratio`: `true` with chance `numerator / denominator`;
/// always `false` for a zero numerator, always `true` when both are equal.
#[verifier::external_body]
pub(crate) fn random_ratio(rng: &mut rand::rngs::StdRng, numerator: u32, denominator: u32) -> (r: bool)
    requires
        0 < denominator,
        numerator <= denominator,
    ensures
        numerator == 0 ==> !r,
        numerator == denominator ==> r,
{
    rng.gen_ratio(numerator, denominator)
}

/// Relies on `rand::seq::SliceRandom::choose`: one of the items, or `None` when there is none.
#[verifier::external_body]
pub(crate) fn choose_from(rng: &mut rand::rngs::StdRng, items: &Vec<usize>) -> (r: Option<usize>)
    ensures
        r is None <==> items@.len() == 0,
        r matches Some(x) ==> items@.contains(x),
{
    items.as_slice().choose(rng).copied()
}

} // verus!
