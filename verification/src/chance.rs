//! The one place where chance enters: numbers drawn by the `rand` crate.

use rand::Rng;
use vstd::prelude::*;

verus! {

/// Draws a number with `rand::Rng::gen_range`, on the generator that
/// `rand::thread_rng` gives to the current thread.
///
/// Nothing is proved of this function. Its contract is what `rand` documents
/// of `gen_range`: the number is at least `low` and less than `high`. For
/// `usize` the sampler adds to `low` a number below `high - low`. `gen_range`
/// panics where `low >= high`, so callers must give a range that is not
/// empty. Which number is drawn is not stated, and two calls may differ.
/// `thread_rng` stops the program where the system gives it no seed, which
/// no argument can prevent.
#[verifier::external_body]
pub(crate) fn random_in_range(low: usize, high: usize) -> (drawn: usize)
    requires
        low < high,
    ensures
        low <= drawn < high,
{
    rand::thread_rng().gen_range(low, high)
}

} // verus!
