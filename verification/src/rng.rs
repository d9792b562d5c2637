use rand::Rng;
use vstd::prelude::*;

verus! {

/// Relies on rand::Rng::gen_range on rand::thread_rng(): a uniform integer in
/// [0, bound). gen_range panics on an empty range, so a positive bound is
/// required.
#[verifier::external_body]
pub(crate) fn rand_below(bound: i32) -> (r: i32)
    requires
        bound >= 1,
    ensures
        0 <= r < bound,
{
    rand::thread_rng().gen_range(0..bound)
}

} // verus!
