//! The source of randomness for sampling: rand's standard generator.
//!
//! Nothing is assumed of a random draw beyond its range, so everything
//! proved about sampling holds whatever the generator returns.

use vstd::prelude::*;

verus! {

#[verifier::external_type_specification]
#[verifier::external_body]
pub struct ExStdRng(rand::rngs::StdRng);

/// Relies on rand's Rng::gen_range over the half-open range `0..n`: it
/// returns a value drawn from `[0, n)` and panics only on an empty range,
/// which the precondition rules out.  Nothing more is promised of a
/// random draw.
#[verifier::external_body]
pub(crate) fn rand_below(rng: &mut rand::rngs::StdRng, n: u64) -> (r: u64)
    requires
        n > 0,
    ensures
        r < n,
{
    rand::Rng::gen_range(rng, 0..n)
}

} // verus!
