//! The random draws that generation rests on.
//!
//! Nothing here is proved: each function hands its work to the `rand` crate's
//! thread-local generator, and its contract states only what holds of every
//! outcome. Seeding that generator needs entropy from the operating system.
use rand::seq::{IteratorRandom, SliceRandom};
use rand::thread_rng;
use vstd::prelude::*;

verus! {

/// One character of `pool`, chosen by `rand::seq::SliceRandom::choose`.
/// Trusted: an empty pool gives nothing, any other pool gives one of its own
/// characters. Which one is not stated.
#[verifier::external_body]
pub(crate) fn pick_char(pool: &Vec<char>) -> (r: Option<char>)
    ensures
        pool@.len() == 0 ==> r is None,
        pool@.len() > 0 ==> r is Some && pool@.contains(r.unwrap()),
{
    pool.choose(&mut thread_rng()).copied()
}

/// One index below `n`, chosen by `rand::seq::IteratorRandom::choose` on the
/// range `0..n`. Trusted: an empty range gives nothing, any other range gives
/// one of its own numbers. Which one is not stated.
#[verifier::external_body]
pub(crate) fn pick_index(n: usize) -> (r: Option<usize>)
    ensures
        n == 0 ==> r is None,
        n > 0 ==> r is Some && r.unwrap() < n,
{
    (0..n).choose(&mut thread_rng())
}

/// Reorders `chars` in place by `rand::seq::SliceRandom::shuffle`. Trusted:
/// the shuffle only swaps elements, so the same characters are there
/// afterwards, each as often as before. Their order is not stated.
#[verifier::external_body]
pub(crate) fn shuffle(chars: &mut Vec<char>)
    ensures
        final(chars)@.to_multiset() == old(chars)@.to_multiset(),
{
    chars.shuffle(&mut thread_rng())
}

} // verus!
