//! A non-negative fixed-point decimal: an unsigned 128-bit mantissa scaled
//! by the fixed constant [`ONE`]. Every operation is checked: arithmetic
//! that cannot represent its result in the mantissa width fails instead of
//! wrapping, and division by a zero-valued operand fails instead of
//! producing infinity. Values are immutable; each operation returns a new
//! instance.

use vstd::arithmetic::div_mod::{
    lemma_div_is_ordered, lemma_div_is_ordered_by_denominator, lemma_div_multiples_vanish,
    lemma_fundamental_div_mod, lemma_mod_bound, lemma_multiply_divide_lt,
};
use vstd::pervasive::unreached;
use vstd::prelude::*;

use crate::error::ArithmeticError;
use crate::wide::{div_wide, mul_wide};

verus! {

/// The mantissa that represents the value 1.0: twelve decimal digits of
/// fractional precision.
pub const ONE: u128 = 1_000_000_000_000;

/// A non-negative rational value, stored as its mantissa: the represented
/// value times [`ONE`].
#[derive(Clone, Copy, Debug, PartialEq, Eq, Structural)]
pub struct PreciseNumber {
    /// The scaled mantissa.
    pub value: u128,
}

impl PreciseNumber {
    /// Lifts a plain unsigned integer into fixed-point representation;
    /// fails with Overflow if the scaled mantissa does not fit.
    pub fn new(n: u128) -> (r: Result<PreciseNumber, ArithmeticError>)
        ensures
            match r {
                Ok(p) => n * ONE <= u128::MAX && p.value == n * ONE,
                Err(e) => n * ONE > u128::MAX && e == ArithmeticError::Overflow,
            },
    {
        match n.checked_mul(ONE) {
            Some(value) => Ok(PreciseNumber { value }),
            None => Err(ArithmeticError::Overflow),
        }
    }

    /// Checked addition; fails with Overflow on mantissa wraparound.
    pub fn checked_add(&self, other: &PreciseNumber) -> (r: Result<
        PreciseNumber,
        ArithmeticError,
    >)
        ensures
            match r {
                Ok(p) => self.value + other.value <= u128::MAX && p.value == self.value
                    + other.value,
                Err(e) => self.value + other.value > u128::MAX && e == ArithmeticError::Overflow,
            },
    {
        match self.value.checked_add(other.value) {
            Some(value) => Ok(PreciseNumber { value }),
            None => Err(ArithmeticError::Overflow),
        }
    }

    /// Checked subtraction; fails with Underflow when the result would be
    /// negative.
    pub fn checked_sub(&self, other: &PreciseNumber) -> (r: Result<
        PreciseNumber,
        ArithmeticError,
    >)
        ensures
            match r {
                Ok(p) => self.value >= other.value && p.value == self.value - other.value,
                Err(e) => self.value < other.value && e == ArithmeticError::Underflow,
            },
    {
        match self.value.checked_sub(other.value) {
            Some(value) => Ok(PreciseNumber { value }),
            None => Err(ArithmeticError::Underflow),
        }
    }

    /// Checked multiplication on mantissas: the exact scaled product,
    /// floored to the fixed precision; fails with Overflow when the raw
    /// mantissa product exceeds the mantissa width.
    pub fn checked_mul(&self, other: &PreciseNumber) -> (r: Result<
        PreciseNumber,
        ArithmeticError,
    >)
        ensures
            match r {
                Ok(p) => self.value * other.value <= u128::MAX && p.value == (self.value
                    * other.value) / (ONE as int),
                Err(e) => self.value * other.value > u128::MAX && e == ArithmeticError::Overflow,
            },
    {
        match self.value.checked_mul(other.value) {
            Some(product) => Ok(PreciseNumber { value: product / ONE }),
            None => Err(ArithmeticError::Overflow),
        }
    }

    /// Checked division: the scaled quotient, floored to the fixed
    /// precision; fails on a zero-valued divisor, and with Overflow when
    /// widening the dividend by the scale does not fit the mantissa width.
    pub fn checked_div(&self, other: &PreciseNumber) -> (r: Result<
        PreciseNumber,
        ArithmeticError,
    >)
        ensures
            match r {
                Ok(p) => other.value != 0 && self.value * ONE <= u128::MAX && p.value == (self.value
                    * ONE) / (other.value as int),
                Err(e) => (e == ArithmeticError::DivideByZero && other.value == 0) || (e
                    == ArithmeticError::Overflow && other.value != 0 && self.value * ONE
                    > u128::MAX),
            },
    {
        if other.value == 0 {
            return Err(ArithmeticError::DivideByZero);
        }
        match self.value.checked_mul(ONE) {
            Some(scaled) => Ok(PreciseNumber { value: scaled / other.value }),
            None => Err(ArithmeticError::Overflow),
        }
    }

    /// Multiplies by `numerator` and divides by `denominator` as one
    /// operation, holding the full product in a widened intermediate so
    /// that the quotient is exact even when the product alone exceeds the
    /// mantissa width; floors the quotient. Fails on a zero-valued
    /// denominator, and with Overflow only when the final quotient itself
    /// does not fit the mantissa width.
    pub fn mul_div_floor(&self, numerator: &PreciseNumber, denominator: &PreciseNumber) -> (r:
        Result<PreciseNumber, ArithmeticError>)
        ensures
            match r {
                Ok(p) => denominator.value != 0 && p.value == (self.value * numerator.value) / (
                denominator.value as int) && (self.value * numerator.value) / (denominator.value
                    as int) <= u128::MAX,
                Err(e) => (e == ArithmeticError::DivideByZero && denominator.value == 0) || (e
                    == ArithmeticError::Overflow && denominator.value != 0 && (self.value
                    * numerator.value) / (denominator.value as int) > u128::MAX),
            },
    {
        if denominator.value == 0 {
            return Err(ArithmeticError::DivideByZero);
        }
        let (hi, lo) = mul_wide(self.value, numerator.value);
        match div_wide(hi, lo, denominator.value) {
            Some(value) => Ok(PreciseNumber { value }),
            None => Err(ArithmeticError::Overflow),
        }
    }

    /// Fixed-point square root by Newton's method: starting from half of
    /// `self + 1`, repeatedly replaces the estimate `x` by
    /// `(x + self / x) / 2`, each step reusing the checked primitives,
    /// until consecutive estimates differ by at most one mantissa unit.
    /// The result is within one mantissa unit of the floor square root of
    /// `value * ONE`. Fails with Overflow exactly when the initial
    /// estimate cannot be formed because `value + ONE` exceeds the
    /// mantissa width.
    pub fn sqrt(&self) -> (r: Result<PreciseNumber, ArithmeticError>)
        ensures
            match r {
                Ok(p) => {
                    &&& self.value + ONE <= u128::MAX
                    &&& (p.value + 1) * (p.value + 1) > self.value * ONE
                    &&& (p.value >= 1 ==> (p.value - 1) * (p.value - 1) <= self.value * ONE)
                    &&& (self.value == 0 ==> p.value == 0)
                },
                Err(e) => e == ArithmeticError::Overflow && self.value + ONE > u128::MAX,
            },
    {
        if self.value == 0 {
            let zero = PreciseNumber { value: 0 };
            proof {
                assert(self.value * ONE == 0) by (nonlinear_arith)
                    requires
                        self.value == 0,
                ;
                assert((zero.value + 1) * (zero.value + 1) == 1) by (nonlinear_arith)
                    requires
                        zero.value == 0,
                ;
            }
            return Ok(zero);
        }
        let one = PreciseNumber { value: ONE };
        let sum0 = match self.checked_add(&one) {
            Ok(s) => s,
            Err(e) => {
                return Err(e);
            },
        };
        let mut guess: u128 = sum0.value / 2;
        proof {
            assert(guess >= 1);
            assert(2 * guess + 1 >= self.value + ONE);
            assert((self.value + ONE) * (self.value + ONE) >= 4 * (self.value * ONE))
                by (nonlinear_arith);
            assert((2 * guess + 2) * (2 * guess + 2) > 4 * (self.value * ONE)) by (nonlinear_arith)
                requires
                    2 * guess + 1 >= self.value + ONE,
                    (self.value + ONE) * (self.value + ONE) >= 4 * (self.value * ONE),
                    self.value * ONE >= 0,
            ;
            assert((guess + 1) * (guess + 1) > self.value * ONE) by (nonlinear_arith)
                requires
                    (2 * guess + 2) * (2 * guess + 2) > 4 * (self.value * ONE),
            ;
        }
        loop
            invariant
                one.value == ONE,
                self.value >= 1,
                self.value + ONE <= u128::MAX,
                1 <= guess,
                guess <= (self.value + ONE) / 2,
                (guess + 1) * (guess + 1) > self.value * ONE,
            decreases guess,
        {
            let guess_pn = PreciseNumber { value: guess };
            proof {
                // the quotient below fits: value * ONE is at most
                // guess * (guess + 2), so dividing by guess gives at most
                // guess + 2
                assert(self.value * ONE <= guess * (guess + 2)) by (nonlinear_arith)
                    requires
                        (guess + 1) * (guess + 1) > self.value * ONE,
                ;
                lemma_div_is_ordered(self.value * ONE, guess * (guess + 2), guess as int);
                lemma_div_multiples_vanish(guess + 2, guess as int);
                assert((self.value * ONE) / (guess as int) <= guess + 2);
                lemma_div_is_ordered(self.value + ONE, u128::MAX as int, 2);
                assert(guess + 2 < u128::MAX);
            }
            let div_pn = match self.mul_div_floor(&one, &guess_pn) {
                Ok(d) => d,
                Err(_) => unreached(),
            };
            proof {
                // the sum of estimate and quotient stays in width: a large
                // estimate forces a small quotient
                assert(guess <= u128::MAX / 2);
                if guess >= 0x200000000000000000000 {
                    assert(self.value * ONE < 0x200000000000000000000
                        * 0x8000000000000000000000) by (nonlinear_arith)
                        requires
                            self.value <= 0xffffffffffffffffffffffffffffffff,
                            ONE == 0xe8d4a51000,
                    ;
                    lemma_multiply_divide_lt(
                        self.value * ONE,
                        0x200000000000000000000,
                        0x8000000000000000000000,
                    );
                    lemma_div_is_ordered_by_denominator(
                        self.value * ONE,
                        0x200000000000000000000,
                        guess as int,
                    );
                    assert((self.value * ONE) / (guess as int) < 0x8000000000000000000000);
                }
                assert(guess + div_pn.value <= u128::MAX);
            }
            let sum_pn = match guess_pn.checked_add(&div_pn) {
                Ok(s) => s,
                Err(_) => unreached(),
            };
            let next: u128 = sum_pn.value / 2;
            proof {
                let n = self.value * ONE;
                let d = div_pn.value as int;
                let g = guess as int;
                // one Newton step never goes below the floor root
                lemma_fundamental_div_mod(n, g);
                lemma_mod_bound(n, g);
                assert(n + 1 <= g * (d + 1)) by (nonlinear_arith)
                    requires
                        n == g * d + n % g,
                        n % g < g,
                ;
                assert((g + d + 1) * (g + d + 1) >= 4 * (g * (d + 1))) by (nonlinear_arith);
                assert(2 * next + 2 >= g + d + 1);
                assert((2 * next + 2) * (2 * next + 2) >= (g + d + 1) * (g + d + 1))
                    by (nonlinear_arith)
                    requires
                        2 * next + 2 >= g + d + 1,
                        g + d + 1 >= 0,
                ;
                assert((next + 1) * (next + 1) > n) by (nonlinear_arith)
                    requires
                        (2 * next + 2) * (2 * next + 2) >= (g + d + 1) * (g + d + 1),
                        (g + d + 1) * (g + d + 1) >= 4 * (g * (d + 1)),
                        g * (d + 1) >= n + 1,
                ;
                // estimates stay at least one: the root of a value of one
                // or more is at least one
                assert(next >= 1) by (nonlinear_arith)
                    requires
                        (next + 1) * (next + 1) > self.value * ONE,
                        self.value >= 1,
                        ONE >= 4,
                        next >= 0,
                ;
                // the estimate can only exceed its successor by one
                lemma_div_is_ordered(g + d, 2 * g + 2, 2);
                assert(next <= g + 1);
            }
            if next + 1 >= guess {
                // consecutive estimates differ by at most one unit: the
                // newer one is within one unit of the floor root
                proof {
                    let n = self.value * ONE;
                    let d = div_pn.value as int;
                    let g = guess as int;
                    assert(d >= next - 1);
                    assert(g * d >= (next - 1) * (next - 1)) by (nonlinear_arith)
                        requires
                            d >= next - 1,
                            g >= next - 1,
                            next >= 1,
                    ;
                    assert(g * d <= n) by (nonlinear_arith)
                        requires
                            n == g * d + n % g,
                            n % g >= 0,
                    ;
                    assert((next - 1) * (next - 1) <= n);
                }
                return Ok(PreciseNumber { value: next });
            }
            guess = next;
        }
    }

    /// Floors the value back to a plain unsigned integer, discarding the
    /// fractional part. The integer part of a 128-bit mantissa always fits
    /// the 128-bit output width, so the conversion cannot fail.
    pub fn to_imprecise(&self) -> (r: Result<u128, ArithmeticError>)
        ensures
            r == Ok::<u128, ArithmeticError>((self.value / ONE) as u128),
    {
        Ok(self.value / ONE)
    }
}

/// Lifting an integer into fixed point and flooring it back returns the
/// integer unchanged: on every `n` that `new` accepts, the mantissa
/// `n * ONE` divided by the scale is `n` again.
pub proof fn lemma_new_to_imprecise_round_trip(n: u128)
    requires
        n * ONE <= u128::MAX,
    ensures
        (n * ONE) / (ONE as int) == n,
{
    assert((n * ONE) / (ONE as int) == n) by (nonlinear_arith)
        requires
            ONE > 0,
    ;
}

} // verus!
