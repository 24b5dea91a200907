//! Random draws.

use rand::distributions::Distribution;
use rand::distributions::Uniform;
use vstd::prelude::*;

verus! {

/// Draws an index below `bound` from the thread's generator:
/// `rand::thread_rng`, `Uniform::from` on the range from 0 up to `bound`, and
/// `Distribution::sample`. The range must hold an index, or `Uniform::from`
/// panics. Every index below `bound` may come back, and nothing else is
/// claimed of the draw.
#[verifier::external_body]
pub(crate) fn random_index(bound: usize) -> (index: usize)
    requires
        bound > 0,
    ensures
        index < bound,
{
    let mut rng = rand::thread_rng();
    let distribution = Uniform::from(0..bound);
    distribution.sample(&mut rng)
}

} // verus!
