//! The channel's randomness capability: the standard RNG of the rand crate,
//! and the one operation the catalog takes from it, an in-place shuffle.

use vstd::prelude::*;
use rand::rngs::StdRng;
use rand::seq::SliceRandom;
use crate::media::Media;

verus! {

/// Declares rand's `StdRng` so the generator can stand in signatures and
/// fields; its values are opaque to the proofs.
#[verifier::external_type_specification]
#[verifier::external_body]
pub struct ExStdRng(StdRng);

/// Relies on rand's `SliceRandom::shuffle`: it permutes the slice in place,
/// so the same entries remain, in an order that depends on the state of the
/// generator.  Nothing is assumed about which order comes out.
#[verifier::external_body]
pub fn shuffle_media(list: &mut Vec<Media>, rng: &mut StdRng)
    ensures
        final(list)@.to_multiset() == old(list)@.to_multiset(),
        final(list)@.len() == old(list)@.len(),
{
    list.as_mut_slice().shuffle(rng)
}

} // verus!
