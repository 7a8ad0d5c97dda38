use vstd::prelude::*;

verus! {

/// The seedable generator that map generation and monster moves draw from.
#[verifier::external_type_specification]
#[verifier::external_body]
pub struct ExStdRng(rand::rngs::StdRng);

/// Relies on rand's `Rng::gen_range(low, high)` for `i32`: a value in
/// `[low, high)`; it panics when `low >= high`, which `requires` excludes.
#[verifier::external_body]
pub(crate) fn random_range(rng: &mut rand::rngs::StdRng, low: i32, high: i32) -> (r: i32)
    requires
        low < high,
    ensures
        low <= r < high,
{
    rand::Rng::gen_range(rng, low, high)
}

} // verus!
