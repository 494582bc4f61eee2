//! The injected source of randomness. Nothing here is proved: these are the
//! calls into the `rand` crate, with what its source shows of their results.

use crate::world::EntityId;
use rand::rngs::StdRng;
use rand::seq::IndexedRandom;
use rand::Rng;
use vstd::prelude::*;

verus! {

/// `StdRng` of `rand::rngs`: a generator that can be seeded. Nothing is claimed
/// of its state, nor of what it yields beyond what the functions below say.
#[verifier::external_type_specification]
#[verifier::external_body]
pub struct ExStdRng(StdRng);

/// `IndexedRandom::choose` on a slice: `None` for an empty slice, else one of
/// its elements. Which one is the generator's business.
#[verifier::external_body]
pub(crate) fn choose_one(candidates: &Vec<EntityId>, rng: &mut StdRng) -> (chosen: Option<EntityId>)
    ensures
        chosen is Some <==> candidates@.len() > 0,
        chosen is Some ==> candidates@.contains(chosen->0),
{
    candidates.choose(rng).copied()
}

/// `Rng::random_range` on `0..bound`: a number below `bound`. It panics on an
/// empty range, which `bound > 0` rules out.
#[verifier::external_body]
pub(crate) fn random_below(rng: &mut StdRng, bound: u64) -> (drawn: u64)
    requires
        bound > 0,
    ensures
        drawn < bound,
{
    rng.random_range(0..bound)
}

} // verus!
