//! Combinatorics: factorials and the numbers of permutations, combinations
//! and variations.

use vstd::prelude::*;
use vstd::arithmetic::power::pow as power;
use vstd::string::StringExecFns;
use crate::basics::{fits_i64, lemma_quotient_of_positives, pow, quotient, truncating_quotient};
use crate::error::{signed_decimal, signed_decimal_text, MatholError};
use crate::identities::{one, zero};

verus! {

/// The factorial of `n`: the product of the numbers from 1 to `n`.
pub open spec fn factorial_of(n: nat) -> nat
    decreases n,
{
    if n == 0 {
        1
    } else {
        n * factorial_of((n - 1) as nat)
    }
}

/// The factorial of the integer `x`, for use where `x` is known not to be
/// negative.
pub open spec fn factorial_at(x: int) -> int {
    factorial_of(x as nat) as int
}

/// Factorials are positive and grow with their argument.
pub proof fn lemma_factorial_grows(i: nat, n: nat)
    requires
        i <= n,
    ensures
        1 <= factorial_of(i) <= factorial_of(n),
    decreases n,
{
    if n == 0 {
    } else if i == n {
        lemma_factorial_grows((n - 1) as nat, (n - 1) as nat);
        assert(n * factorial_of((n - 1) as nat) >= 1) by (nonlinear_arith)
            requires
                n >= 1,
                factorial_of((n - 1) as nat) >= 1,
        ;
    } else {
        lemma_factorial_grows(i, (n - 1) as nat);
        assert(n * factorial_of((n - 1) as nat) >= factorial_of((n - 1) as nat))
            by (nonlinear_arith)
            requires
                n >= 1,
                factorial_of((n - 1) as nat) >= 1,
        ;
    }
}

/// The sum of the first `m` elements of `s`.
pub open spec fn sum_upto(s: Seq<i64>, m: nat) -> int
    decreases m,
{
    if m == 0 {
        0
    } else {
        sum_upto(s, (m - 1) as nat) + s[m - 1]
    }
}

/// The sum of the elements of `s`.
pub open spec fn sum_of(s: Seq<i64>) -> int {
    sum_upto(s, s.len())
}

/// Whether the sum of `s` can be accumulated in `i64`, element after
/// element.
pub open spec fn sum_fits(s: Seq<i64>) -> bool {
    forall|m: nat| m <= s.len() ==> fits_i64(#[trigger] sum_upto(s, m))
}

/// The product of the factorials of the first `m` elements of `s`.
pub open spec fn factorials_upto(s: Seq<i64>, m: nat) -> int
    decreases m,
{
    if m == 0 {
        1
    } else {
        factorials_upto(s, (m - 1) as nat) * factorial_at(s[m - 1] as int)
    }
}

/// The product of the factorials of the elements of `s`.
pub open spec fn factorials_of(s: Seq<i64>) -> int {
    factorials_upto(s, s.len())
}

/// Whether the product of the factorials of `s` can be accumulated in
/// `i64`: no element is negative, and every factorial and every partial
/// product is representable.
pub open spec fn factorials_fit(s: Seq<i64>) -> bool {
    &&& forall|j: int| 0 <= j < s.len() ==> 0 <= #[trigger] s[j] && fits_i64(factorial_at(s[j] as int))
    &&& forall|m: nat| m <= s.len() ==> fits_i64(#[trigger] factorials_upto(s, m))
}

/// The text of the failure over parts that do not add up to the whole.
pub open spec fn summation_text(n: int, sum: int) -> Seq<char> {
    "Number of total elements is "@ + signed_decimal(n)
        + ", but the summed number of elements from the subset is "@ + signed_decimal(sum)
}

/// Returns the factorial of `n`. Fails when `n` is negative.
pub fn factorial(n: i64) -> (r: Result<i64, MatholError>)
    requires
        n >= 0 ==> fits_i64(factorial_at(n as int)),
    ensures
        match r {
            Ok(f) => n >= 0 && f == factorial_at(n as int),
            Err(e) => n < 0 && e.is_negative_value(
                "Value for factorial must be a positive integer"@,
            ),
        },
{
    if n < zero() {
        return Err(MatholError::negative_value("Value for factorial must be a positive integer"));
    }
    let mut product = one();
    let mut i: i64 = 0;
    while i < n
        invariant
            0 <= i <= n,
            fits_i64(factorial_at(n as int)),
            product == factorial_at(i as int),
        decreases n - i,
    {
        i += 1;
        proof {
            lemma_factorial_grows(i as nat, n as nat);
            assert(factorial_of(i as nat) == i * factorial_of((i - 1) as nat));
            assert(product * i == i * product) by (nonlinear_arith);
        }
        product = product * i;
    }
    Ok(product)
}

/// Returns the number of ways to arrange `n` elements of which groups of
/// the sizes `karr` cannot be told apart: the factorial of `n` divided by
/// the product of the factorials of the group sizes. Fails when `n` is
/// smaller than 1, or else when `karr` is empty, or else when the group
/// sizes do not add up to `n`.
pub fn permutation(n: i64, karr: Vec<i64>) -> (r: Result<i64, MatholError>)
    requires
        n >= 1 && karr@.len() > 0 ==> sum_fits(karr@),
        n >= 1 && karr@.len() > 0 && sum_of(karr@) == n ==> factorials_fit(karr@) && fits_i64(
            factorial_at(n as int),
        ),
    ensures
        match r {
            Ok(p) => n >= 1 && karr@.len() > 0 && sum_of(karr@) == n && p == quotient(
                factorial_at(n as int),
                factorials_of(karr@),
            ),
            Err(e) => if n < 1 {
                e.is_negative_value("Parameter n must be a positive integer!"@)
            } else if karr@.len() == 0 {
                e.is_empty_vec("Parameter karr is an empty vector!"@)
            } else {
                sum_of(karr@) != n && e.is_summation(summation_text(n as int, sum_of(karr@)))
            },
        },
{
    if n < one() {
        return Err(MatholError::negative_value("Parameter n must be a positive integer!"));
    }
    if karr.len() == 0 {
        return Err(MatholError::empty_vec("Parameter karr is an empty vector!"));
    }
    let mut sum = zero();
    let mut j: usize = 0;
    while j < karr.len()
        invariant
            j <= karr@.len(),
            sum_fits(karr@),
            sum == sum_upto(karr@, j as nat),
        decreases karr@.len() - j,
    {
        proof {
            assert(fits_i64(sum_upto(karr@, (j + 1) as nat)));
        }
        sum = sum + karr[j];
        j += 1;
    }
    if sum != n {
        let mut message = String::from_str("Number of total elements is ");
        message.append(signed_decimal_text(n).as_str());
        message.append(", but the summed number of elements from the subset is ");
        message.append(signed_decimal_text(sum).as_str());
        return Err(MatholError::summation(message));
    }
    let mut divisor = one();
    let mut j: usize = 0;
    while j < karr.len()
        invariant
            j <= karr@.len(),
            factorials_fit(karr@),
            divisor == factorials_upto(karr@, j as nat),
            divisor >= 1,
        decreases karr@.len() - j,
    {
        proof {
            assert(0 <= karr@[j as int]);
            assert(fits_i64(factorials_upto(karr@, (j + 1) as nat)));
            lemma_factorial_grows(0, karr@[j as int] as nat);
            assert(divisor * factorial_at(karr@[j as int] as int) >= 1) by (nonlinear_arith)
                requires
                    divisor >= 1,
                    factorial_at(karr@[j as int] as int) >= 1,
            ;
        }
        divisor = divisor * factorial(karr[j]).unwrap();
        j += 1;
    }
    let whole = factorial(n).unwrap();
    proof {
        lemma_factorial_grows(0, n as nat);
        lemma_quotient_of_positives(whole as int, divisor as int);
    }
    Ok(truncating_quotient(whole, divisor))
}

/// The number of ways to pick `k` of `n` elements when the order does not
/// count and no element is picked twice.
pub open spec fn combinations(n: int, k: int) -> int {
    quotient(quotient(factorial_at(n), factorial_at(n - k)), factorial_at(k))
}

/// The number of ways to pick `k` of `n` elements when the order counts
/// and no element is picked twice.
pub open spec fn variations(n: int, k: int) -> int {
    quotient(factorial_at(n), factorial_at(n - k))
}

/// Returns the number of ways to pick `k` of `n` elements when the order
/// does not count and no element is picked twice. Fails when `n` is
/// negative, or else when `k` is negative, or else when `k` is larger than
/// `n`.
pub fn combination(n: i64, k: i64) -> (r: Result<i64, MatholError>)
    requires
        0 <= k <= n ==> fits_i64(factorial_at(n as int)),
    ensures
        match r {
            Ok(c) => 0 <= k <= n && c == combinations(n as int, k as int),
            Err(e) => if n < 0 {
                e.is_negative_value("Parameter n must be a positive integer!"@)
            } else if k < 0 {
                e.is_negative_value("Parameter k must be a positive integer!"@)
            } else {
                k > n && e.is_outgrow("k is bigger than n"@)
            },
        },
{
    if n < zero() {
        return Err(MatholError::negative_value("Parameter n must be a positive integer!"));
    }
    if k < zero() {
        return Err(MatholError::negative_value("Parameter k must be a positive integer!"));
    }
    if k > n {
        return Err(MatholError::outgrow("k is bigger than n"));
    }
    proof {
        lemma_factorial_grows((n - k) as nat, n as nat);
        lemma_factorial_grows(k as nat, n as nat);
        lemma_quotient_of_positives(factorial_at(n as int), factorial_at(n - k));
        lemma_quotient_of_positives(
            quotient(factorial_at(n as int), factorial_at(n - k)),
            factorial_at(k as int),
        );
    }
    let whole = factorial(n).unwrap();
    let rest = factorial(n - k).unwrap();
    let picked = factorial(k).unwrap();
    Ok(truncating_quotient(truncating_quotient(whole, rest), picked))
}

/// Returns the number of ways to pick `k` of `n` elements when the order
/// does not count and an element may be picked again: the number of ways
/// to pick `k` of `n + k - 1` elements without repetition. Fails when `n`
/// is negative, or else when `k` is negative, or else when `n` is zero.
pub fn combination_with_repetition(n: i64, k: i64) -> (r: Result<i64, MatholError>)
    requires
        0 < n && 0 <= k ==> fits_i64(n + k) && fits_i64(factorial_at(n + k - 1)),
        0 == n && 0 < k ==> fits_i64(factorial_at(k - 1)),
    ensures
        match r {
            Ok(c) => 0 < n && 0 <= k && c == combinations(n + k - 1, k as int),
            Err(e) => if n < 0 {
                e.is_negative_value("Parameter n must be a positive integer!"@)
            } else if k < 0 {
                e.is_negative_value("Parameter k must be a positive integer!"@)
            } else {
                n == 0 && e.is_negative_value("Value for factorial must be a positive integer"@)
            },
        },
{
    if n < zero() {
        return Err(MatholError::negative_value("Parameter n must be a positive integer!"));
    }
    if k < zero() {
        return Err(MatholError::negative_value("Parameter k must be a positive integer!"));
    }
    let m = n + k - one();
    let whole = match factorial(m) {
        Ok(f) => f,
        Err(e) => {
            return Err(e);
        },
    };
    proof {
        if n > 0 {
            lemma_factorial_grows((m - k) as nat, m as nat);
        }
    }
    let rest = match factorial(m - k) {
        Ok(f) => f,
        Err(e) => {
            return Err(e);
        },
    };
    proof {
        lemma_factorial_grows(k as nat, m as nat);
        lemma_quotient_of_positives(factorial_at(m as int), factorial_at(m - k));
        lemma_quotient_of_positives(
            quotient(factorial_at(m as int), factorial_at(m - k)),
            factorial_at(k as int),
        );
    }
    let picked = match factorial(k) {
        Ok(f) => f,
        Err(e) => {
            return Err(e);
        },
    };
    Ok(truncating_quotient(truncating_quotient(whole, rest), picked))
}

/// Returns the number of ways to pick `k` of `n` elements when the order
/// counts and no element is picked twice. Fails when `n` is negative, or
/// else when `k` is negative, or else when `k` is larger than `n`.
pub fn variation(n: i64, k: i64) -> (r: Result<i64, MatholError>)
    requires
        0 <= k <= n ==> fits_i64(factorial_at(n as int)),
    ensures
        match r {
            Ok(v) => 0 <= k <= n && v == variations(n as int, k as int),
            Err(e) => if n < 0 {
                e.is_negative_value("Parameter n must be a positive integer!"@)
            } else if k < 0 {
                e.is_negative_value("Parameter k must be a positive integer!"@)
            } else {
                k > n && e.is_outgrow("k is bigger than n"@)
            },
        },
{
    if n < zero() {
        return Err(MatholError::negative_value("Parameter n must be a positive integer!"));
    }
    if k < zero() {
        return Err(MatholError::negative_value("Parameter k must be a positive integer!"));
    }
    if k > n {
        return Err(MatholError::outgrow("k is bigger than n"));
    }
    proof {
        lemma_factorial_grows((n - k) as nat, n as nat);
        lemma_quotient_of_positives(factorial_at(n as int), factorial_at(n - k));
    }
    let whole = factorial(n).unwrap();
    let rest = factorial(n - k).unwrap();
    Ok(truncating_quotient(whole, rest))
}

/// Returns the number of ways to pick `k` of `n` elements when the order
/// counts and an element may be picked again: `n` to the power `k`. Fails
/// when `n` is negative, or else when `k` is negative.
pub fn variation_with_repetition(n: i64, k: i64) -> (r: Result<i64, MatholError>)
    requires
        0 <= n && 0 <= k ==> fits_i64(power(n as int, k as nat)),
    ensures
        match r {
            Ok(v) => 0 <= n && 0 <= k && v == power(n as int, k as nat),
            Err(e) => if n < 0 {
                e.is_negative_value("Parameter n must be a positive integer!"@)
            } else {
                k < 0 && e.is_negative_value("Parameter k must be a positive integer!"@)
            },
        },
{
    if n < zero() {
        return Err(MatholError::negative_value("Parameter n must be a positive integer!"));
    }
    if k < zero() {
        return Err(MatholError::negative_value("Parameter k must be a positive integer!"));
    }
    Ok(pow(n, k as u64))
}

} // verus!
