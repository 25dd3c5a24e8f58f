//! What this crate relies on from the `rand` crate.
//!
//! Nothing in this file is proved. The outcome of a draw is not a function
//! of its arguments, so the contracts state only what holds of every draw.

use rand::rngs::ThreadRng;
use rand::Rng;
use vstd::prelude::*;

verus! {

#[verifier::external_type_specification]
#[verifier::external_body]
pub struct ExThreadRng(ThreadRng);

/// `rand::thread_rng`: a handle to the generator of the current thread.
/// Nothing is claimed of it.
#[verifier::external_body]
pub(crate) fn thread_rng() -> ThreadRng {
    rand::thread_rng()
}

/// `Rng::gen_ratio`: a draw that is `true` with a chance of `numerator` in
/// `denominator`. The method panics on a zero denominator and on a
/// numerator above the denominator, which the precondition rules out. Of
/// the outcome only the two certain cases are stated: a draw of
/// `denominator` in `denominator` is `true`, a draw of zero is `false`.
#[verifier::external_body]
pub(crate) fn gen_ratio(rng: &mut ThreadRng, numerator: u32, denominator: u32) -> (hit: bool)
    requires
        0 < denominator,
        numerator <= denominator,
    ensures
        numerator == denominator ==> hit,
        numerator == 0 ==> !hit,
{
    rng.gen_ratio(numerator, denominator)
}

} // verus!
