use vstd::prelude::*;

verus! {

/// Draws an index uniformly from `low..high` with `rand::Rng::gen_range` on the
/// generator of `rand::thread_rng()`.
///
/// `gen_range` asserts that the range is not empty (hence the `requires`) and
/// returns `low` plus an offset below `high - low`. Which value comes out
/// depends on the thread's random generator, so only the range is stated.
#[verifier::external_body]
pub(crate) fn random_in_range(low: usize, high: usize) -> (r: usize)
    requires
        low < high,
    ensures
        low <= r < high,
{
    rand::Rng::gen_range(&mut rand::thread_rng(), low..high)
}

} // verus!
