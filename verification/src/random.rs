//! Randomness, from the `rand` crate.

use vstd::prelude::*;

verus! {

/// `rand::seq::index::sample` with the thread-local generator: `amount`
/// distinct indices below `length`, in random order.  Which indices, and in
/// which order, is left to chance; that they are distinct and in range is
/// what the crate documents.
#[verifier::external_body]
pub(crate) fn sample_distinct(length: usize, amount: usize) -> (r: Vec<usize>)
    requires
        amount <= length,
    ensures
        r@.len() == amount,
        forall|i: int| 0 <= i < r@.len() ==> #[trigger] r@[i] < length,
        r@.no_duplicates(),
{
    rand::seq::index::sample(&mut rand::thread_rng(), length, amount).into_vec()
}

} // verus!
