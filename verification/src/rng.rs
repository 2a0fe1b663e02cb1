//! The pseudo-random source that the membership view draws from.

use vstd::prelude::*;

verus! {

#[verifier::external_type_specification]
#[verifier::external_body]
pub struct ExStdRng(rand::rngs::StdRng);

/// Relies on rand::Rng::gen_range over the range `0..n`: the result is a
/// uniformly drawn index strictly below `n`.
#[verifier::external_body]
pub(crate) fn gen_index(rng: &mut rand::rngs::StdRng, n: usize) -> (r: usize)
    requires
        n >= 1,
    ensures
        r < n,
{
    rand::Rng::gen_range(rng, 0..n)
}

} // verus!
