//! The random source: draws of numbers, of a list's members and of an order,
//! made by the `rand` crate. Nothing here is proved; each contract states
//! what `rand` documents of every outcome.

use vstd::prelude::*;
use rand::rngs::ThreadRng;
use rand::seq::SliceRandom;
use rand::Rng;
use crate::condition::Condition;

verus! {

/// `rand::rngs::ThreadRng`, the generator that each thread keeps. Its state
/// is hidden from the proofs.
#[verifier::external_type_specification]
#[verifier::external_body]
pub struct ExThreadRng(ThreadRng);

/// `rand::thread_rng` hands out the calling thread's generator. Nothing is
/// claimed of it. It panics where the system gives it no seed.
pub assume_specification[ rand::thread_rng ]() -> ThreadRng;

/// `Rng::gen_range` on a half-open range of `i32`: the draw lies in the
/// range. The call panics on an empty range, which `requires` rules out.
#[verifier::external_body]
pub(crate) fn draw_in_range(rng: &mut ThreadRng, low: i32, high: i32) -> (drawn: i32)
    requires
        low < high,
    ensures
        low <= drawn < high,
{
    rng.gen_range(low..high)
}

/// `SliceRandom::choose` on a slice of `i32`: a member of the slice, or
/// nothing when the slice is empty.
#[verifier::external_body]
pub(crate) fn draw_member(rng: &mut ThreadRng, items: &Vec<i32>) -> (drawn: Option<i32>)
    ensures
        drawn is None <==> items@.len() == 0,
        drawn matches Some(member) ==> items@.contains(member),
{
    items.choose(rng).copied()
}

/// `SliceRandom::shuffle` on a slice of conditions: the same conditions, each
/// as often as before, in some order.
#[verifier::external_body]
pub(crate) fn shuffle(rng: &mut ThreadRng, pool: &mut Vec<Condition>)
    ensures
        final(pool)@.to_multiset() == old(pool)@.to_multiset(),
{
    pool.shuffle(rng)
}

} // verus!
