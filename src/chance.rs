//! Calls into `rand` and `rand_pcg`: random draws and the seeded shuffle.

use vstd::prelude::*;
use rand::Rng;
use rand::SeedableRng;
use rand::seq::SliceRandom;
use rand::distributions::Distribution;

verus! {

/// The sum of a sequence of weights.
pub open spec fn weight_sum(w: Seq<usize>) -> int
    decreases w.len(),
{
    if w.len() == 0 {
        0
    } else {
        weight_sum(w.drop_last()) + w.last()
    }
}

/// The order in which `SliceRandom::shuffle` leaves `items` when driven by a
/// `Pcg64Mcg` generator made with `seed_from_u64(seed)`.
pub uninterp spec fn pcg_shuffled(seed: u64, items: Seq<usize>) -> Seq<usize>;

/// Relies on rand_pcg's `Pcg64Mcg::seed_from_u64` and rand's
/// `SliceRandom::shuffle`: a Fisher-Yates pass, so the result is a
/// permutation of `items`, fixed by the seed and the items.
#[verifier::external_body]
pub(crate) fn seeded_shuffle(seed: u64, items: &Vec<usize>) -> (r: Vec<usize>)
    ensures
        r@ == pcg_shuffled(seed, items@),
        r@.to_multiset() == items@.to_multiset(),
{
    let mut shuffled = items.clone();
    shuffled.shuffle(&mut rand_pcg::Pcg64Mcg::seed_from_u64(seed));
    shuffled
}

/// Relies on rand's `thread_rng` and `Rng::gen_range(low, high)`, which
/// draws from `[low, high)` and panics when the range is empty.
#[verifier::external_body]
pub(crate) fn random_below(high: u32) -> (r: u32)
    requires
        high > 0,
    ensures
        r < high,
{
    rand::thread_rng().gen_range(0, high)
}

/// Relies on rand's `WeightedIndex::new`, which refuses an empty list or a
/// zero total and adds the weights up, and on its `sample` with
/// `thread_rng`: the index of an entry of positive weight.
#[verifier::external_body]
pub(crate) fn weighted_pick(weights: &Vec<usize>) -> (r: usize)
    requires
        weights@.len() > 0,
        0 < weight_sum(weights@) <= usize::MAX,
    ensures
        r < weights@.len(),
        weights@[r as int] > 0,
{
    rand::distributions::WeightedIndex::new(weights.iter()).unwrap().sample(&mut rand::thread_rng())
}

/// Relies on rand's `random::<u64>`, a value drawn uniformly with
/// `thread_rng`; nothing is known of it.
#[verifier::external_body]
pub(crate) fn random_seed() -> u64 {
    rand::random::<u64>()
}

} // verus!
