//! Floor square roots of unsigned 64-bit and 128-bit integers.
//!
//! Both functions are total: every input, including zero and the maximum
//! value of the width, yields the largest integer whose square does not
//! exceed the input. The bisection narrows an interval whose lower end
//! squares to at most the radicand and whose upper end squares to more,
//! so no intermediate step leaves the input's own width.

use vstd::prelude::*;

verus! {

/// The largest `root` with `root * root <= radicand`.
pub fn integer_sqrt_u64(radicand: u64) -> (root: u64)
    ensures
        root * root <= radicand,
        (root + 1) * (root + 1) > radicand,
{
    let mut lo: u64 = 0;
    let mut hi: u64 = if radicand < 0xFFFF_FFFF {
        proof {
            assert((radicand + 1) * (radicand + 1) > radicand) by (nonlinear_arith);
        }
        radicand + 1
    } else {
        0x1_0000_0000
    };
    while lo + 1 < hi
        invariant
            lo < hi,
            hi <= 0x1_0000_0000,
            lo * lo <= radicand,
            hi * hi > radicand,
        decreases hi - lo,
    {
        let mid: u64 = lo + (hi - lo) / 2;
        proof {
            assert(mid * mid <= u64::MAX) by (nonlinear_arith)
                requires mid < 0x1_0000_0000u64;
        }
        if mid * mid <= radicand {
            lo = mid;
        } else {
            hi = mid;
        }
    }
    lo
}

/// The largest `root` with `root * root <= radicand`.
pub fn integer_sqrt_u128(radicand: u128) -> (root: u128)
    ensures
        root * root <= radicand,
        (root + 1) * (root + 1) > radicand,
{
    let mut lo: u128 = 0;
    let mut hi: u128 = if radicand < 0xFFFF_FFFF_FFFF_FFFF {
        proof {
            assert((radicand + 1) * (radicand + 1) > radicand) by (nonlinear_arith);
        }
        radicand + 1
    } else {
        0x1_0000_0000_0000_0000
    };
    while lo + 1 < hi
        invariant
            lo < hi,
            hi <= 0x1_0000_0000_0000_0000,
            lo * lo <= radicand,
            hi * hi > radicand,
        decreases hi - lo,
    {
        let mid: u128 = lo + (hi - lo) / 2;
        proof {
            assert(mid * mid <= u128::MAX) by (nonlinear_arith)
                requires mid < 0x1_0000_0000_0000_0000u128;
        }
        if mid * mid <= radicand {
            lo = mid;
        } else {
            hi = mid;
        }
    }
    lo
}

} // verus!
