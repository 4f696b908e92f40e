//! What the library takes from chance: fresh tokens, the obstacles of a new
//! map, and who plays first. Nothing here is proved; each contract says only
//! what holds of every outcome.

use rand::seq::SliceRandom;
use rand::Rng;
use vstd::prelude::*;

verus! {

/// A version 4 identifier of the `uuid` crate (`Uuid::new_v4`), written in
/// its hyphenated form: 32 hexadecimal digits and 4 hyphens, so 36
/// characters. Which identifier comes is up to the random source.
#[verifier::external_body]
pub(crate) fn new_token() -> (token: String)
    ensures
        token@.len() == 36,
{
    uuid::Uuid::new_v4().to_string()
}

/// `Rng::gen_range` of the `rand` crate on the thread's generator, for the
/// range from 0 to `high`, both included: the result lies in that range.
#[verifier::external_body]
pub(crate) fn random_index(high: usize) -> (i: usize)
    ensures
        i <= high,
{
    rand::thread_rng().gen_range(0..=high)
}

/// `SliceRandom::shuffle` of the `rand` crate on the thread's generator: the
/// items are swapped among themselves, so the same items are there
/// afterwards, each as often as before, in an order that is up to chance.
#[verifier::external_body]
pub(crate) fn shuffle(order: &mut Vec<char>)
    ensures
        final(order)@.to_multiset() == old(order)@.to_multiset(),
{
    order.shuffle(&mut rand::thread_rng());
}

} // verus!
