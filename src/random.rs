use rand::rngs::SmallRng;
use rand::{RngCore, SeedableRng};
use vstd::prelude::*;

verus! {

#[verifier::external_type_specification]
#[verifier::external_body]
pub struct ExSmallRng(SmallRng);

/// Relies on rand's `SeedableRng::seed_from_u64` for `SmallRng`: a small
/// pseudo-random generator seeded from a 64-bit value. Its draws depend on the
/// platform, so nothing is stated of them.
#[verifier::external_body]
pub(crate) fn seeded_rng(seed: u64) -> SmallRng {
    SmallRng::seed_from_u64(seed)
}

/// Relies on rand's `RngCore::next_u32` for `SmallRng`: the next draw, which
/// may be any `u32`.
#[verifier::external_body]
pub(crate) fn next_draw(rng: &mut SmallRng) -> u32 {
    rng.next_u32()
}

} // verus!
