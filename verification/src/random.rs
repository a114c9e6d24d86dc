//! Randomness from the `rand` and `uuid` crates, each behind one trusted
//! wrapper. Nothing is promised of a drawn value but its range.
use vstd::prelude::*;
use rand::Rng;
use rand::SeedableRng;

verus! {

/// `rand::rngs::SmallRng`, the small fast generator of object sizes.
#[verifier::external_type_specification]
#[verifier::external_body]
pub struct ExSmallRng(rand::rngs::SmallRng);

/// Calls `SmallRng::seed_from_u64`.
#[verifier::external_body]
pub(crate) fn small_rng_from_seed(seed: u64) -> (r: rand::rngs::SmallRng) {
    rand::rngs::SmallRng::seed_from_u64(seed)
}

/// Calls `Rng::gen_range(0..n)`, which panics on an empty range; the value is
/// below `n`.
#[verifier::external_body]
pub(crate) fn rng_below(rng: &mut rand::rngs::SmallRng, n: u64) -> (r: u64)
    requires
        n > 0,
    ensures
        r < n,
{
    rng.gen_range(0..n)
}

/// Calls `Rng::fill` on a zeroed buffer of `n` bytes.
#[verifier::external_body]
pub(crate) fn random_bytes(rng: &mut rand::rngs::SmallRng, n: usize) -> (r: Vec<u8>)
    ensures
        r@.len() == n,
{
    let mut data = vec![0u8; n];
    rng.fill(&mut data[..]);
    data
}

/// Calls `uuid::Uuid::new_v4().to_string()`: 36 characters, the 32 hex digits
/// in groups of 8, 4, 4, 4 and 12 separated by `-`.
#[verifier::external_body]
pub(crate) fn uuid_v4_string() -> (r: String)
    ensures
        r@.len() == 36,
        r@[8] == '-' && r@[13] == '-' && r@[18] == '-' && r@[23] == '-',
        forall|i: int| 0 <= i < 36 && i != 8 && i != 13 && i != 18 && i != 23 ==> r@[i] != '-',
{
    uuid::Uuid::new_v4().to_string()
}

} // verus!
