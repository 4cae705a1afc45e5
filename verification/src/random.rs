use crate::direction::Direction;
use rand::seq::IteratorRandom;
use rand::Rng;
use vstd::prelude::*;

verus! {

/// Draws an integer from the inclusive range `low..=high` by calling
/// `rand::Rng::gen_range` on the generator that `rand::thread_rng` hands
/// out. Trusted: the only claim is that the draw lies in the range. The
/// range must not be empty, since `gen_range` panics on an empty range.
#[verifier::external_body]
pub(crate) fn random_in_range(low: i32, high: i32) -> (drawn: i32)
    requires
        low <= high,
    ensures
        low <= drawn <= high,
{
    rand::thread_rng().gen_range(low..=high)
}

/// Picks one of `candidates` by calling `rand::seq::IteratorRandom::choose`
/// on the generator that `rand::thread_rng` hands out. Trusted: the claims
/// are that nothing is picked exactly when there is nothing to pick from,
/// and that what is picked is one of the candidates.
#[verifier::external_body]
pub(crate) fn choose_direction(candidates: &Vec<Direction>) -> (choice: Option<Direction>)
    ensures
        choice is None <==> candidates@.len() == 0,
        choice matches Some(dir) ==> candidates@.contains(dir),
{
    candidates.iter().choose(&mut rand::thread_rng()).copied()
}

} // verus!
