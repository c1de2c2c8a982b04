//! Random choice, taken from the `rand` crate.
//!
//! Nothing in this file is proved. Each item states what the rest of the
//! crate takes on trust from `rand`, and no more than the source of `rand`
//! shows.

use rand::Rng;
use vstd::prelude::*;

verus! {

/// The random number generator that `rand` keeps for each thread. What it
/// holds is hidden from the proofs.
#[verifier::external_type_specification]
#[verifier::external_body]
pub struct ExThreadRng(rand::ThreadRng);

/// `rand::thread_rng` hands out the generator of the calling thread, seeded
/// by the system. Nothing is claimed of the value it returns. (It panics
/// where the system has no entropy to seed it with, which no argument of the
/// caller decides.)
pub assume_specification[ rand::thread_rng ]() -> rand::ThreadRng
;

/// `Rng::choose` returns a reference to a random element of `values`, and
/// `None` where `values` is empty. Which element it is depends on the
/// generator: the contract says only that it is one of them.
#[verifier::external_body]
pub(crate) fn pick<'a, T>(rng: &mut rand::ThreadRng, values: &'a [T]) -> (picked: Option<&'a T>)
    ensures
        values@.len() == 0 ==> picked is None,
        values@.len() > 0 ==> picked is Some && values@.contains(*picked->0),
{
    rng.choose(values)
}

} // verus!
