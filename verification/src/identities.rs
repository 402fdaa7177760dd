//! The numeric identity elements, taken from the `num` crate for the scalar
//! type of the library.

use vstd::prelude::*;

verus! {

/// Calls `num::Zero::zero` for `i64`. Trusted: the additive identity that
/// `num` returns for `i64` is the number 0.
#[verifier::external_body]
pub(crate) fn zero() -> (z: i64)
    ensures
        z == 0,
{
    num::Zero::zero()
}

/// Calls `num::One::one` for `i64`. Trusted: the multiplicative identity
/// that `num` returns for `i64` is the number 1.
#[verifier::external_body]
pub(crate) fn one() -> (o: i64)
    ensures
        o == 1,
{
    num::One::one()
}

} // verus!
