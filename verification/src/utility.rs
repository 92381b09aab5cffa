use rand::Rng;
use vstd::prelude::*;

verus! {

/// Relies on rand's `Rng::gen_range` over the inclusive range
/// `min..=max`: the sample always lies within the range, and the range
/// is non-empty whenever `min <= max`, so the call cannot panic.
#[verifier::external_body]
pub fn random_int_from_values(min: i32, max: i32) -> (r: i32)
    requires
        min <= max,
    ensures
        min <= r <= max,
{
    rand::thread_rng().gen_range(min..=max)
}

} // verus!
