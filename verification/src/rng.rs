//! The random source.
//!
//! Every sampling routine threads an explicit `StdRng` handle; there is no
//! global random state.  The generator itself comes from the `rand` crate
//! and is the library's only trusted boundary: nothing is promised of the
//! values it yields, so everything proved here holds for every outcome.

use vstd::prelude::*;
use rand::rngs::StdRng;
use rand::RngCore;

verus! {

#[verifier::external_type_specification]
#[verifier::external_body]
pub struct ExStdRng(StdRng);

/// Relies on rand's `RngCore::next_u64` for `StdRng`.  The value is
/// random, so nothing is promised of it.
#[verifier::external_body]
pub fn next_u64(rng: &mut StdRng) -> u64 {
    rng.next_u64()
}

} // verus!
