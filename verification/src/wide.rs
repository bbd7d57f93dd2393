//! Widened 128-bit arithmetic: a full 128 x 128 -> 256 bit multiply and a
//! 256 / 128 bit flooring divide, built from limb arithmetic so that a
//! multiply-then-divide can be computed even when the product alone exceeds
//! the mantissa width.

use vstd::arithmetic::div_mod::{
    lemma_basic_div, lemma_div_basics, lemma_div_denominator, lemma_div_is_ordered, lemma_div_multiples_vanish,
    lemma_fundamental_div_mod, lemma_fundamental_div_mod_converse, lemma_mod_bound,
    lemma_mod_breakdown, lemma_small_mod,
};
use vstd::arithmetic::mul::lemma_mul_inequality;
use vstd::arithmetic::power2::{
    lemma2_to64, lemma2_to64_rest, lemma_pow2_adds, lemma_pow2_pos, lemma_pow2_strictly_increases,
    pow2,
};
use vstd::prelude::*;

verus! {

/// 2^64: the base in which 128-bit values are split into two limbs.
const TWO_POW_64: u128 = 0x1_0000_0000_0000_0000;

/// 2^127: isolates the top bit of a 128-bit value.
const TWO_POW_127: u128 = 0x8000_0000_0000_0000_0000_0000_0000_0000;

/// The 256-bit value held in a high and a low 128-bit half.
pub(crate) open spec fn wide_value(hi: u128, lo: u128) -> int {
    hi * 0x1_0000_0000_0000_0000_0000_0000_0000_0000 + lo
}

/// The full product of two 128-bit values as a high and a low half.
pub(crate) fn mul_wide(a: u128, b: u128) -> (r: (u128, u128))
    ensures
        wide_value(r.0, r.1) == a * b,
{
    let a_hi: u128 = a / TWO_POW_64;
    let a_lo: u128 = a % TWO_POW_64;
    let b_hi: u128 = b / TWO_POW_64;
    let b_lo: u128 = b % TWO_POW_64;
    proof {
        assert(a_hi < TWO_POW_64 && b_hi < TWO_POW_64 && a_lo < TWO_POW_64 && b_lo < TWO_POW_64);
        assert(a_hi * b_hi <= (TWO_POW_64 - 1) * (TWO_POW_64 - 1) && a_lo * b_hi <= (TWO_POW_64 - 1)
            * (TWO_POW_64 - 1) && a_hi * b_lo <= (TWO_POW_64 - 1) * (TWO_POW_64 - 1) && a_lo * b_lo
            <= (TWO_POW_64 - 1) * (TWO_POW_64 - 1)) by (nonlinear_arith)
            requires
                a_hi < TWO_POW_64,
                b_hi < TWO_POW_64,
                a_lo < TWO_POW_64,
                b_lo < TWO_POW_64,
        ;
    }
    let p_hh: u128 = a_hi * b_hi;
    let p_lh: u128 = a_lo * b_hi;
    let p_hl: u128 = a_hi * b_lo;
    let p_ll: u128 = a_lo * b_lo;
    let mid: u128 = p_ll / TWO_POW_64 + p_lh % TWO_POW_64 + p_hl % TWO_POW_64;
    let lo: u128 = (mid % TWO_POW_64) * TWO_POW_64 + p_ll % TWO_POW_64;
    let hi: u128 = p_hh + p_lh / TWO_POW_64 + p_hl / TWO_POW_64 + mid / TWO_POW_64;
    proof {
        let bi = TWO_POW_64 as int;
        assert(a * b == p_hh * (bi * bi) + (p_lh + p_hl) * bi + p_ll) by (nonlinear_arith)
            requires
                a == a_hi * bi + a_lo,
                b == b_hi * bi + b_lo,
                p_hh == a_hi * b_hi,
                p_lh == a_lo * b_hi,
                p_hl == a_hi * b_lo,
                p_ll == a_lo * b_lo,
        ;
        lemma_fundamental_div_mod(p_ll as int, bi);
        lemma_fundamental_div_mod(p_lh as int, bi);
        lemma_fundamental_div_mod(p_hl as int, bi);
        lemma_fundamental_div_mod(mid as int, bi);
        // regroup each quotient-remainder pair one level up
        assert((mid as int / bi) * (bi * bi) + (mid as int % bi) * bi == mid * bi)
            by (nonlinear_arith)
            requires
                mid == bi * (mid as int / bi) + mid as int % bi,
        ;
        assert((p_lh as int / bi) * (bi * bi) + (p_lh as int % bi) * bi == p_lh * bi)
            by (nonlinear_arith)
            requires
                p_lh == bi * (p_lh as int / bi) + p_lh as int % bi,
        ;
        assert((p_hl as int / bi) * (bi * bi) + (p_hl as int % bi) * bi == p_hl * bi)
            by (nonlinear_arith)
            requires
                p_hl == bi * (p_hl as int / bi) + p_hl as int % bi,
        ;
        assert(mid * bi == (p_ll as int / bi) * bi + (p_lh as int % bi) * bi + (p_hl as int % bi)
            * bi) by (nonlinear_arith)
            requires
                mid == p_ll as int / bi + p_lh as int % bi + p_hl as int % bi,
        ;
        assert(hi as int * (bi * bi) + lo == p_hh * (bi * bi) + (p_lh + p_hl) * bi + p_ll)
            by (nonlinear_arith)
            requires
                hi == p_hh + p_lh as int / bi + p_hl as int / bi + mid as int / bi,
                lo == (mid as int % bi) * bi + p_ll as int % bi,
                mid * bi == (p_ll as int / bi) * bi + (p_lh as int % bi) * bi + (p_hl as int % bi)
                    * bi,
                (mid as int / bi) * (bi * bi) + (mid as int % bi) * bi == mid * bi,
                (p_lh as int / bi) * (bi * bi) + (p_lh as int % bi) * bi == p_lh * bi,
                (p_hl as int / bi) * (bi * bi) + (p_hl as int % bi) * bi == p_hl * bi,
                p_ll == bi * (p_ll as int / bi) + p_ll as int % bi,
        ;
        assert(hi as int * (bi * bi) == hi as int
            * 0x1_0000_0000_0000_0000_0000_0000_0000_0000) by (nonlinear_arith)
            requires
                bi == 0x1_0000_0000_0000_0000,
        ;
        assert(wide_value(hi, lo) == a * b);
    }
    (hi, lo)
}

/// Floors `(hi * 2^128 + lo) / divisor`, the quotient of a 256-bit value by
/// a 128-bit one; reports `None` exactly when that quotient does not fit in
/// 128 bits. The quotient is built bit by bit from the top, so that no
/// intermediate value needs more than 128 bits.
pub(crate) fn div_wide(hi: u128, lo: u128, divisor: u128) -> (r: Option<u128>)
    requires
        divisor > 0,
    ensures
        match r {
            Some(q) => q == wide_value(hi, lo) / (divisor as int),
            None => wide_value(hi, lo) / (divisor as int) > u128::MAX,
        },
{
    proof {
        lemma2_to64();
        lemma2_to64_rest();
        lemma_pow2_adds(64, 64);
        lemma_pow2_adds(64, 63);
        assert(pow2(128) as int == 0x1_0000_0000_0000_0000_0000_0000_0000_0000)
            by (nonlinear_arith)
            requires
                pow2(128) == pow2(64) * pow2(64),
                pow2(64) == 0x1_0000_0000_0000_0000,
        ;
        assert(pow2(127) as int == 0x8000_0000_0000_0000_0000_0000_0000_0000) by (nonlinear_arith)
            requires
                pow2(127) == pow2(64) * pow2(63),
                pow2(64) == 0x1_0000_0000_0000_0000,
                pow2(63) == 0x8000_0000_0000_0000,
        ;
        assert(pow2(127) as int == TWO_POW_127 as int);
    }
    if hi >= divisor {
        proof {
            let n = wide_value(hi, lo);
            let p128 = pow2(128) as int;
            lemma_mul_inequality(divisor as int, hi as int, p128);
            assert(n >= divisor * p128);
            lemma_div_multiples_vanish(p128, divisor as int);
            lemma_div_is_ordered(divisor * p128, n, divisor as int);
            assert(n / (divisor as int) >= p128);
        }
        return None;
    }
    let mut q: u128 = 0;
    let mut rem: u128 = hi;
    let mut lo_left: u128 = lo;
    let mut i: u32 = 0;
    proof {
        lemma_small_mod(lo as nat, pow2(128));
        lemma_basic_div(lo as int, pow2(128) as int);
    }
    while i < 128
        invariant
            i <= 128,
            divisor > 0,
            rem < divisor,
            (q as int) < pow2(i as nat) as int,
            lo_left as int == (lo as int % (pow2((128 - i) as nat) as int)) * (pow2(i as nat)
                as int),
            q as int * divisor as int + rem as int == hi as int * (pow2(i as nat) as int) + lo
                as int / (pow2((128 - i) as nat) as int),
        decreases 128 - i,
    {
        proof {
            lemma2_to64();
            lemma2_to64_rest();
            lemma_pow2_adds(64, 64);
            lemma_pow2_adds(64, 63);
            assert(pow2(128) as int == 0x1_0000_0000_0000_0000_0000_0000_0000_0000)
                by (nonlinear_arith)
                requires
                    pow2(128) == pow2(64) * pow2(64),
                    pow2(64) == 0x1_0000_0000_0000_0000,
            ;
            assert(pow2(127) as int == 0x8000_0000_0000_0000_0000_0000_0000_0000)
                by (nonlinear_arith)
                requires
                    pow2(127) == pow2(64) * pow2(63),
                    pow2(64) == 0x1_0000_0000_0000_0000,
                    pow2(63) == 0x8000_0000_0000_0000,
            ;
            assert(pow2(127) as int == TWO_POW_127 as int);
            lemma_pow2_pos((127 - i) as nat);
            lemma_pow2_pos(i as nat);
            lemma_pow2_adds((127 - i) as nat, 1);
            lemma_pow2_adds((127 - i) as nat, i as nat);
            lemma_pow2_adds(i as nat, 1);
            if i < 127 {
                lemma_pow2_strictly_increases(i as nat, 127);
            }
            assert(pow2(i as nat) <= pow2(127));
            assert(pow2((i + 1) as nat) as int == 2 * (pow2(i as nat) as int));
            assert((128 - i) as nat == (127 - i) as nat + 1);
        }
        let bit: u128 = lo_left / TWO_POW_127;
        let shifted: u128 = (lo_left % TWO_POW_127) * 2;
        proof {
            let k = (127 - i) as nat;
            let pk = pow2(k) as int;
            let pk1 = pow2((k + 1) as nat) as int;
            let pi = pow2(i as nat) as int;
            let pi1 = pow2((i + 1) as nat) as int;
            let m = lo as int % pk1;
            let m_low = lo as int % pk;
            let u_new = lo as int / pk;
            let u_old = lo as int / pk1;
            // split the remainder below 2^(k+1) at 2^k: the middle bit of
            // `lo` and the remainder below 2^k
            assert(pk1 == pk * 2);
            assert(m == pk * (u_new % 2) + m_low) by {
                lemma_mod_breakdown(lo as int, pk, 2);
            }
            assert(u_new == 2 * u_old + (u_new % 2)) by {
                lemma_div_denominator(lo as int, pk, 2);
                lemma_fundamental_div_mod(u_new, 2);
            }
            assert(lo_left as int == m * pi);
            assert(pk * pi == pow2(127) as int);
            assert(0 <= m_low < pk) by {
                lemma_mod_bound(lo as int, pk);
            }
            assert(lo_left as int == (u_new % 2) * (pk * pi) + m_low * pi) by (nonlinear_arith)
                requires
                    lo_left as int == m * pi,
                    m == pk * (u_new % 2) + m_low,
            ;
            assert(0 <= m_low * pi < pk * pi) by (nonlinear_arith)
                requires
                    0 <= m_low < pk,
                    pi > 0,
            ;
            // hence the exec division and remainder by 2^127 split lo_left
            assert(bit as int == u_new % 2 && (lo_left % TWO_POW_127) as int == m_low * pi) by {
                lemma_fundamental_div_mod_converse(
                    lo_left as int,
                    pow2(127) as int,
                    u_new % 2,
                    m_low * pi,
                );
            }
            assert(shifted as int == m_low * pi1) by (nonlinear_arith)
                requires
                    shifted as int == (m_low * pi) * 2,
                    pi1 == 2 * pi,
            ;
            assert(hi as int * pi1 == 2 * (hi as int * pi)) by (nonlinear_arith)
                requires
                    pi1 == 2 * pi,
            ;
            // room for the next quotient bit
            assert(q as int * 2 + 1 <= u128::MAX);
            assert(q as int * 2 + 1 < pi1);
        }
        let t: u128 = divisor - rem;
        if rem + bit >= t {
            // twice the remainder plus the incoming bit reaches the divisor
            let new_rem: u128 = (rem + bit) - t;
            proof {
                assert((q as int * 2 + 1) * divisor + new_rem == 2 * (q as int * divisor + rem)
                    + bit) by (nonlinear_arith)
                    requires
                        new_rem == rem as int + rem as int + bit - divisor,
                ;
            }
            q = q * 2 + 1;
            rem = new_rem;
        } else {
            proof {
                assert((q as int * 2) * divisor + (rem as int + rem + bit) == 2 * (q as int
                    * divisor + rem) + bit) by (nonlinear_arith);
            }
            q = q * 2;
            rem = (rem + rem) + bit;
        }
        lo_left = shifted;
        i = i + 1;
        proof {
            assert((128 - i) as nat == (127 - (i - 1)) as nat);
        }
    }
    proof {
        lemma2_to64();
        lemma2_to64_rest();
        lemma_pow2_adds(64, 64);
        assert(pow2(128) as int == 0x1_0000_0000_0000_0000_0000_0000_0000_0000)
            by (nonlinear_arith)
            requires
                pow2(128) == pow2(64) * pow2(64),
                pow2(64) == 0x1_0000_0000_0000_0000,
        ;
        assert(pow2(0) == 1);
        lemma_div_basics(lo as int);
        assert(lo as int / (pow2(0) as int) == lo as int);
        lemma_fundamental_div_mod_converse(
            wide_value(hi, lo),
            divisor as int,
            q as int,
            rem as int,
        );
    }
    Some(q)
}

} // verus!
