//! Random draws. Everything here is taken on trust from the `rand` crate;
//! callers state what holds of every value that may come back.
use vstd::prelude::*;
use rand::distributions::{IndependentSample, Weighted, WeightedChoice};
use rand::Rng;

verus! {

/// The sum of `weights`.
pub open spec fn weights_total(weights: Seq<u32>) -> int
    decreases weights.len(),
{
    if weights.len() == 0 {
        0
    } else {
        weights_total(weights.drop_last()) + weights.last()
    }
}

/// A draw of `rand::Rng::gen_range` from the thread's generator. The crate
/// documents a value in `[low, high)` and a panic where `low >= high`; that
/// the value lies in the range is all that is claimed of it.
#[verifier::external_body]
pub(crate) fn random_range(low: i32, high: i32) -> (value: i32)
    requires
        low < high,
    ensures
        low <= value < high,
{
    rand::thread_rng().gen_range(low, high)
}

/// A draw of `rand::random::<bool>()`. Nothing is claimed of the value.
#[verifier::external_body]
pub(crate) fn random_bool() -> bool {
    rand::random()
}

/// A draw of `rand::distributions::WeightedChoice` over the positions of
/// `weights`, each weighted by its entry: `WeightedChoice::new` on a table
/// made for the purpose, then `ind_sample` with the thread's generator. The
/// crate panics on an empty list, on a total of zero and on a total beyond
/// `u32`. It returns the first position whose running total exceeds a draw
/// below the total, so the position returned exists and its own weight is
/// not zero; no more is claimed.
#[verifier::external_body]
pub(crate) fn weighted_index(weights: &Vec<u32>) -> (index: usize)
    requires
        weights@.len() > 0,
        0 < weights_total(weights@) <= u32::MAX,
    ensures
        index < weights@.len(),
        weights@[index as int] > 0,
{
    let mut table: Vec<Weighted<usize>> = weights
        .iter()
        .enumerate()
        .map(|(position, weight)| Weighted { weight: *weight, item: position })
        .collect();
    WeightedChoice::new(&mut table).ind_sample(&mut rand::thread_rng())
}

} // verus!
