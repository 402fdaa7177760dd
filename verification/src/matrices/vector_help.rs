//! Helpers on plain vectors used by the matrix operations.

use vstd::prelude::*;
use crate::basics::fits_i64;
use crate::identities::zero;
use crate::matrices::grid::{dot, dot_fits, dot_term, dot_upto, ints};

verus! {

/// Returns the scalar product of `vec1` with the elements of `vec2` at the
/// same indices; elements of `vec2` beyond the length of `vec1` are ignored.
pub fn get_scalar_product_of_vectors(vec1: &Vec<i64>, vec2: &Vec<i64>) -> (r: i64)
    requires
        vec1@.len() <= vec2@.len(),
        dot_fits(ints(vec1@), ints(vec2@)),
    ensures
        r == dot(ints(vec1@), ints(vec2@)),
{
    let ghost a = ints(vec1@);
    let ghost b = ints(vec2@);
    let mut sum = zero();
    let mut x: usize = 0;
    while x < vec1.len()
        invariant
            x <= vec1@.len(),
            vec1@.len() <= vec2@.len(),
            a == ints(vec1@),
            b == ints(vec2@),
            dot_fits(a, b),
            sum == dot_upto(a, b, x as nat),
        decreases vec1@.len() - x,
    {
        proof {
            assert(fits_i64(dot_term(a, b, x as int)));
            assert(fits_i64(dot_upto(a, b, (x + 1) as nat)));
        }
        sum = sum + vec1[x] * vec2[x];
        x += 1;
    }
    sum
}

} // verus!
