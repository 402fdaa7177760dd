//! Elementary numeric helpers: integer powers, division that rounds towards
//! zero, and absolute values.

use vstd::prelude::*;
use vstd::arithmetic::power::pow as power;
use crate::identities::one;

verus! {

/// Whether `x` is representable as an `i64`.
pub open spec fn fits_i64(x: int) -> bool {
    i64::MIN <= x <= i64::MAX
}

/// The quotient of `x` by a nonzero `d`, rounded towards zero.
pub open spec fn quotient(x: int, d: int) -> int {
    if x == 0 {
        0
    } else if x > 0 && d > 0 {
        x / d
    } else if x < 0 && d < 0 {
        (-x) / (-d)
    } else if x < 0 {
        -((-x) / d)
    } else {
        -(x / (-d))
    }
}

/// Divides `x` by the nonzero `d`, rounding towards zero.
pub fn truncating_quotient(x: i64, d: i64) -> (q: i64)
    requires
        d != 0,
        fits_i64(quotient(x as int, d as int)),
    ensures
        q == quotient(x as int, d as int),
{
    proof {
        assert((x as int) * -1 == -(x as int)) by (nonlinear_arith);
        assert((d as int) * -1 == -(d as int)) by (nonlinear_arith);
        if x < 0 && d > 0 {
            let y = ((x as int) * -1) / (d as int);
            assert(y * -1 == -y) by (nonlinear_arith);
        }
        if x > 0 && d < 0 {
            let y = (x as int) / ((d as int) * -1);
            assert(y * -1 == -y) by (nonlinear_arith);
        }
    }
    x.checked_div(d).unwrap()
}

/// The quotient of a number that is not negative by a positive one is not
/// negative and not larger than the number.
pub proof fn lemma_quotient_of_positives(x: int, d: int)
    requires
        0 <= x,
        1 <= d,
    ensures
        0 <= quotient(x, d) <= x,
        quotient(x, d) == x / d,
{
    vstd::arithmetic::div_mod::lemma_div_pos_is_pos(x, d);
    vstd::arithmetic::div_mod::lemma_div_is_ordered_by_denominator(x, 1, d);
    vstd::arithmetic::div_mod::lemma_div_basics(x);
    if x == 0 {
        vstd::arithmetic::div_mod::lemma_div_basics(d);
    }
}

/// The quotient of a number by a nonzero one is not larger in size than
/// the number.
pub proof fn lemma_quotient_is_smaller(x: int, d: int)
    requires
        d != 0,
    ensures
        x >= 0 ==> -x <= quotient(x, d) <= x,
        x <= 0 ==> x <= quotient(x, d) <= -x,
{
    if x > 0 && d > 0 {
        lemma_quotient_of_positives(x, d);
    } else if x < 0 && d < 0 {
        lemma_quotient_of_positives(-x, -d);
    } else if x < 0 {
        lemma_quotient_of_positives(-x, d);
    } else if x > 0 {
        lemma_quotient_of_positives(x, -d);
    }
}

/// Every shorter power of a number is representable when a longer one is.
pub proof fn lemma_shorter_power_fits(b: int, e: nat)
    requires
        e >= 1,
        fits_i64(b),
        fits_i64(power(b, e)),
    ensures
        fits_i64(power(b, (e - 1) as nat)),
        power(b, e) == b * power(b, (e - 1) as nat),
    decreases e,
{
    reveal(power);
    let p = power(b, (e - 1) as nat);
    assert(power(b, e) == b * p);
    if b >= 2 || b <= -2 {
        assert(fits_i64(p)) by (nonlinear_arith)
            requires
                b >= 2 || b <= -2,
                -0x8000_0000_0000_0000 <= b * p <= 0x7fff_ffff_ffff_ffff,
        ;
    } else {
        lemma_unit_power(b, (e - 1) as nat);
    }
}

/// The powers of -1, 0 and 1 never leave the set {-1, 0, 1}.
pub proof fn lemma_unit_power(b: int, e: nat)
    requires
        -1 <= b <= 1,
    ensures
        -1 <= power(b, e) <= 1,
        b == 1 ==> power(b, e) == 1,
        b == -1 ==> power(b, e) == (if e % 2 == 0 { 1int } else { -1int }),
    decreases e,
{
    reveal(power);
    if e > 0 {
        lemma_unit_power(b, (e - 1) as nat);
        let p = power(b, (e - 1) as nat);
        assert(power(b, e) == b * p);
        if b == 0 {
            assert(b * p == 0);
        } else if b == 1 {
            assert(b * p == p);
        } else {
            assert(b * p == -p);
        }
    }
}

/// Raises `base` to the power `exponent` by repeated multiplication; the
/// zeroth power of every base is 1.
pub fn pow(base: i64, exponent: u64) -> (r: i64)
    requires
        fits_i64(power(base as int, exponent as nat)),
    ensures
        r == power(base as int, exponent as nat),
    decreases exponent,
{
    if exponent == 0 {
        proof {
            reveal(power);
        }
        one()
    } else {
        proof {
            lemma_shorter_power_fits(base as int, exponent as nat);
        }
        base * pow(base, exponent - 1)
    }
}

/// No power of a natural number is negative.
pub proof fn lemma_upower_nonnegative(b: nat, e: nat)
    ensures
        power(b as int, e) >= 0,
    decreases e,
{
    reveal(power);
    if e > 0 {
        lemma_upower_nonnegative(b, (e - 1) as nat);
        let p = power(b as int, (e - 1) as nat);
        assert(power(b as int, e) == b * p);
        assert(b * p >= 0) by (nonlinear_arith)
            requires
                b >= 0,
                p >= 0,
        ;
    }
}

/// Every shorter power of a natural number is representable in 64 bits when
/// a longer one is.
pub proof fn lemma_shorter_upower_fits(b: nat, e: nat)
    requires
        e >= 1,
        b <= u64::MAX,
        power(b as int, e) <= u64::MAX,
    ensures
        0 <= power(b as int, (e - 1) as nat) <= u64::MAX,
        power(b as int, e) == b * power(b as int, (e - 1) as nat),
{
    reveal(power);
    let p = power(b as int, (e - 1) as nat);
    lemma_upower_nonnegative(b, (e - 1) as nat);
    assert(power(b as int, e) == b * p);
    if b >= 1 {
        assert(p <= 0xffff_ffff_ffff_ffff) by (nonlinear_arith)
            requires
                b >= 1,
                p >= 0,
                b * p <= 0xffff_ffff_ffff_ffff,
        ;
    } else {
        if e - 1 > 0 {
            assert(power(0, (e - 1) as nat) == 0 * power(0, (e - 2) as nat));
        }
    }
}

/// Raises the unsigned `base` to the power `exponent` by repeated
/// multiplication; the zeroth power of every base is 1.
pub fn upow(base: u64, exponent: u64) -> (r: u64)
    requires
        power(base as int, exponent as nat) <= u64::MAX,
    ensures
        r == power(base as int, exponent as nat),
    decreases exponent,
{
    if exponent == 0 {
        proof {
            reveal(power);
        }
        1
    } else {
        proof {
            lemma_shorter_upower_fits(base as nat, exponent as nat);
        }
        base * upow(base, exponent - 1)
    }
}

/// The absolute value ("amount") of a signed number, for the types whose
/// amount is of type `T`.
pub trait Amount<T>: Sized {
    /// Whether the amount of `self` is representable in `T`.
    spec fn has_amount(self) -> bool;

    /// The amount of `self`.
    spec fn amount(self) -> T;

    /// Returns the amount of `self`: the number itself when it is not
    /// negative and its negation when it is.
    fn get_amount(self) -> (r: T)
        requires
            self.has_amount(),
        ensures
            r == self.amount(),
    ;
}

impl Amount<i8> for i8 {
    open spec fn has_amount(self) -> bool {
        self != i8::MIN
    }

    open spec fn amount(self) -> i8 {
        if self < 0 { (-self) as i8 } else { self }
    }

    fn get_amount(self) -> (r: i8) {
        if self < 0 {
            assert(self * (-1) == -self) by (nonlinear_arith);
            self * (-1)
        } else {
            self
        }
    }
}

impl Amount<i16> for i16 {
    open spec fn has_amount(self) -> bool {
        self != i16::MIN
    }

    open spec fn amount(self) -> i16 {
        if self < 0 { (-self) as i16 } else { self }
    }

    fn get_amount(self) -> (r: i16) {
        if self < 0 {
            assert(self * (-1) == -self) by (nonlinear_arith);
            self * (-1)
        } else {
            self
        }
    }
}

impl Amount<i32> for i32 {
    open spec fn has_amount(self) -> bool {
        self != i32::MIN
    }

    open spec fn amount(self) -> i32 {
        if self < 0 { (-self) as i32 } else { self }
    }

    fn get_amount(self) -> (r: i32) {
        if self < 0 {
            assert(self * (-1) == -self) by (nonlinear_arith);
            self * (-1)
        } else {
            self
        }
    }
}

impl Amount<i64> for i64 {
    open spec fn has_amount(self) -> bool {
        self != i64::MIN
    }

    open spec fn amount(self) -> i64 {
        if self < 0 { (-self) as i64 } else { self }
    }

    fn get_amount(self) -> (r: i64) {
        if self < 0 {
            assert(self * (-1) == -self) by (nonlinear_arith);
            self * (-1)
        } else {
            self
        }
    }
}

impl Amount<isize> for isize {
    open spec fn has_amount(self) -> bool {
        self != isize::MIN
    }

    open spec fn amount(self) -> isize {
        if self < 0 { (-self) as isize } else { self }
    }

    fn get_amount(self) -> (r: isize) {
        if self < 0 {
            assert(self * (-1) == -self) by (nonlinear_arith);
            self * (-1)
        } else {
            self
        }
    }
}

} // verus!
