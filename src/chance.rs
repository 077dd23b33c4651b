use rand::distributions::Distribution;
use rand::seq::SliceRandom;
use vstd::prelude::*;

use crate::traits::Question;

verus! {

/// The sum of a list of weights.
pub open spec fn weight_sum(w: Seq<u128>) -> int
    decreases w.len(),
{
    if w.len() == 0 {
        0
    } else {
        weight_sum(w.drop_last()) + w.last()
    }
}

/// Whether some weight of the list is positive.
pub open spec fn has_positive(w: Seq<u128>) -> bool {
    exists|i: int| 0 <= i < w.len() && #[trigger] w[i] > 0
}

/// Relies on rand's `SliceRandom::choose` with the thread-local generator: `None` exactly for
/// an empty slice, else one of its elements.
#[verifier::external_body]
pub(crate) fn choose_question(candidates: &Vec<Question>) -> (r: Option<Question>)
    ensures
        r is Some <==> candidates@.len() > 0,
        r matches Some(q) ==> candidates@.contains(q),
{
    candidates.choose(&mut rand::thread_rng()).copied()
}

/// Relies on rand's `WeightedIndex::new` and its `sample` with the thread-local generator:
/// `new` fails when there is no weight or every weight is zero; `sample` returns the first
/// index whose running total exceeds a draw below the total, so its weight is positive.
#[verifier::external_body]
pub(crate) fn weighted_index(weights: &Vec<u128>) -> (r: Option<usize>)
    requires
        weight_sum(weights@) <= u128::MAX,
    ensures
        r is Some <==> has_positive(weights@),
        r matches Some(i) ==> i < weights@.len() && weights@[i as int] > 0,
{
    match rand::distributions::WeightedIndex::new(weights) {
        Ok(d) => Some(d.sample(&mut rand::thread_rng())),
        Err(_) => None,
    }
}

/// Relies on std's `SystemTime::now`, read as nanoseconds since the Unix epoch (zero for a
/// clock set before it).
#[verifier::external_body]
pub(crate) fn now_nanos() -> u64 {
    match std::time::SystemTime::now().duration_since(std::time::UNIX_EPOCH) {
        Ok(d) => d.as_nanos() as u64,
        Err(_) => 0,
    }
}

} // verus!
