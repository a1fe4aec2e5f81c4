//! Choosing at random.

use crate::lesson::Id;
use rand::seq::IteratorRandom;
use vstd::prelude::*;

verus! {

/// The generator of random numbers of the current thread.
#[verifier::external_type_specification]
#[verifier::external_body]
pub struct ExThreadRng(rand::rngs::ThreadRng);

/// `rand::seq::IteratorRandom::choose`, over the elements of `candidates`.
/// It returns `None` exactly when there is no candidate, and one of the
/// candidates otherwise; which one is left to chance.
#[verifier::external_body]
pub(crate) fn choose_among(candidates: &Vec<Id>, rng: &mut rand::rngs::ThreadRng) -> (chosen: Option<Id>)
    ensures
        chosen is None <==> candidates@.len() == 0,
        chosen matches Some(id) ==> candidates@.contains(id),
{
    candidates.iter().copied().choose(rng)
}

} // verus!
