//! The dispatch-and-measure core: executes exactly one primitive per
//! decoded request and computes the corrected resource cost of a pair of
//! budget readings. The host shell around the library decodes the buffer
//! through [`crate::instruction::decode_instruction`], reads the budget
//! before and after the call, evaluates the floating-point baselines that
//! a verified library cannot hold, and emits the log lines.

use vstd::bytes::{
    lemma_auto_spec_u64_to_from_le_bytes, spec_u64_to_le_bytes, u64_from_le_bytes, u64_to_le_bytes,
};
use vstd::pervasive::unreached;
use vstd::prelude::*;

use crate::error::ArithmeticError;
use crate::instruction::MathInstruction;
use crate::integer_sqrt::{integer_sqrt_u128, integer_sqrt_u64};
use crate::precise_number::{PreciseNumber, ONE};

verus! {

/// Compensates for the overhead of the budget-reading calls themselves,
/// so that a reported cost approximates the measured primitive alone; the
/// no-op request exists to check it. Calibrated against one execution
/// environment; another host should recalibrate rather than trust the
/// literal value.
pub const CU_CORRECTION: u64 = 102;

/// The structured return payload of one invocation.
#[derive(Clone, Copy, Debug, PartialEq, Eq, Structural)]
pub struct TransactionTestResult {
    /// Compute units consumed during transaction
    pub compute_units_consumed: u64,
}

impl TransactionTestResult {
    /// The wire form of the payload: the count in little-endian order.
    pub fn to_bytes(&self) -> (out: Vec<u8>)
        ensures
            out@ == spec_u64_to_le_bytes(self.compute_units_consumed),
    {
        u64_to_le_bytes(self.compute_units_consumed)
    }

    /// Reads a payload back from its wire form; rejects any buffer that is
    /// not exactly one little-endian count.
    pub fn from_bytes(input: &[u8]) -> (r: Option<TransactionTestResult>)
        ensures
            match r {
                Some(t) => spec_u64_to_le_bytes(t.compute_units_consumed) == input@,
                None => input@.len() != 8,
            },
    {
        proof {
            lemma_auto_spec_u64_to_from_le_bytes();
        }
        if input.len() == 8 {
            let count: u64 = u64_from_le_bytes(input);
            Some(TransactionTestResult { compute_units_consumed: count })
        } else {
            None
        }
    }
}

/// Raw 64-bit multiply, a cost baseline. The dispatcher screens the
/// operands, so the product always fits.
#[inline(never)]
pub fn u64_multiply(multiplicand: u64, multiplier: u64) -> (product: u64)
    requires
        multiplicand * multiplier <= u64::MAX,
    ensures
        product == multiplicand * multiplier,
{
    multiplicand * multiplier
}

/// Raw 64-bit divide, a cost baseline. The dispatcher screens the
/// divisor, so it is never zero.
#[inline(never)]
pub fn u64_divide(dividend: u64, divisor: u64) -> (quotient: u64)
    requires
        divisor != 0,
    ensures
        quotient == dividend as int / divisor as int,
{
    dividend / divisor
}

/// Raw 128-bit multiply, a cost baseline.
#[inline(never)]
pub fn u128_multiply(multiplicand: u128, multiplier: u128) -> (product: u128)
    requires
        multiplicand * multiplier <= u128::MAX,
    ensures
        product == multiplicand * multiplier,
{
    multiplicand * multiplier
}

/// Raw 128-bit divide, a cost baseline.
#[inline(never)]
pub fn u128_divide(dividend: u128, divisor: u128) -> (quotient: u128)
    requires
        divisor != 0,
    ensures
        quotient == dividend as int / divisor as int,
{
    dividend / divisor
}

/// The corrected cost of one measured primitive: the difference of the
/// two budget readings, less the fixed correction, clamped at zero so a
/// near-zero-cost primitive cannot wrap to a huge count.
pub open spec fn spec_corrected_cost(cu_before: u64, cu_after: u64) -> u64 {
    if cu_before >= cu_after + CU_CORRECTION {
        (cu_before - cu_after - CU_CORRECTION) as u64
    } else {
        0u64
    }
}

/// Computes [`spec_corrected_cost`] from the two budget readings taken
/// around the measured primitive.
pub fn corrected_cost(cu_before: u64, cu_after: u64) -> (cost: u64)
    ensures
        cost == spec_corrected_cost(cu_before, cu_after),
{
    if cu_before >= cu_after && cu_before - cu_after >= CU_CORRECTION {
        cu_before - cu_after - CU_CORRECTION
    } else {
        0
    }
}

/// What executing one request produced: a scalar result to report, no
/// result at all for the no-op, or a floating-point primitive that the
/// host shell must evaluate itself.
#[derive(Clone, Copy, Debug, PartialEq, Eq, Structural)]
pub enum Execution {
    /// A 64-bit result to log.
    Unsigned64(u64),
    /// A 128-bit result to log.
    Unsigned128(u128),
    /// The no-op request: nothing was computed.
    Noop,
    /// A floating-point primitive: the host evaluates it from the
    /// operands carried by the request.
    Deferred,
}

/// The mantissa `p` is within one unit of the floor square root of
/// `square`: one more than it would already exceed the root, one less
/// would already be at most it.
pub open spec fn within_one_of_root(p: u128, square: int) -> bool {
    &&& (p + 1) * (p + 1) > square
    &&& (p >= 1 ==> (p - 1) * (p - 1) <= square)
}

/// The fixed-point square root of the request's radicand, truncated back
/// to an integer: some mantissa within one unit of the floor square root
/// of `radicand * ONE * ONE`, floored by the scale.
pub open spec fn precise_sqrt_post(radicand: u64, x: u64) -> bool {
    exists|p: u128|
        #[trigger] within_one_of_root(p, (radicand * ONE) * ONE) && x == p / ONE
}

/// Exactly what outcome each request produces: the successful result
/// value, or the failure that the offending operands force. Every clause
/// is a function of the request's operands alone.
pub open spec fn execute_post(i: MathInstruction, r: Result<Execution, ArithmeticError>) -> bool {
    match i {
        MathInstruction::PreciseSquareRoot { radicand } => match r {
            Ok(e) => e matches Execution::Unsigned64(x) && precise_sqrt_post(radicand, x),
            Err(_) => false,
        },
        MathInstruction::PreciseMulDiv { val, num, denom } => if denom == 0 {
            r == Err::<Execution, ArithmeticError>(ArithmeticError::DivideByZero)
        } else if (val * num * ONE) / (denom as int) > u128::MAX {
            r == Err::<Execution, ArithmeticError>(ArithmeticError::Overflow)
        } else {
            r matches Ok(Execution::Unsigned128(q)) && q == (val * num) / (denom as int)
        },
        MathInstruction::SquareRootU64 { radicand } => match r {
            Ok(e) => e matches Execution::Unsigned64(x) && x * x <= radicand && (x + 1) * (x + 1)
                > radicand,
            Err(_) => false,
        },
        MathInstruction::SquareRootU128 { radicand } => match r {
            Ok(e) => e matches Execution::Unsigned128(x) && x * x <= radicand && (x + 1) * (x + 1)
                > radicand,
            Err(_) => false,
        },
        MathInstruction::U64Multiply { multiplicand, multiplier } => if multiplicand * multiplier
            <= u64::MAX {
            r matches Ok(Execution::Unsigned64(x)) && x == multiplicand * multiplier
        } else {
            r == Err::<Execution, ArithmeticError>(ArithmeticError::Overflow)
        },
        MathInstruction::U64Divide { dividend, divisor } => if divisor == 0 {
            r == Err::<Execution, ArithmeticError>(ArithmeticError::DivideByZero)
        } else {
            r matches Ok(Execution::Unsigned64(x)) && x == dividend as int / divisor as int
        },
        MathInstruction::U128Multiply { multiplicand, multiplier } => if multiplicand * multiplier
            <= u128::MAX {
            r matches Ok(Execution::Unsigned128(x)) && x == multiplicand * multiplier
        } else {
            r == Err::<Execution, ArithmeticError>(ArithmeticError::Overflow)
        },
        MathInstruction::U128Divide { dividend, divisor } => if divisor == 0 {
            r == Err::<Execution, ArithmeticError>(ArithmeticError::DivideByZero)
        } else {
            r matches Ok(Execution::Unsigned128(x)) && x == dividend as int / divisor as int
        },
        MathInstruction::F32Multiply { .. } => r == Ok::<Execution, ArithmeticError>(
            Execution::Deferred,
        ),
        MathInstruction::F32Divide { .. } => r == Ok::<Execution, ArithmeticError>(
            Execution::Deferred,
        ),
        MathInstruction::F32Exponentiate { .. } => r == Ok::<Execution, ArithmeticError>(
            Execution::Deferred,
        ),
        MathInstruction::F32NaturalLog { .. } => r == Ok::<Execution, ArithmeticError>(
            Execution::Deferred,
        ),
        MathInstruction::F32NormalCDF { .. } => r == Ok::<Execution, ArithmeticError>(
            Execution::Deferred,
        ),
        MathInstruction::F64Pow { .. } => r == Ok::<Execution, ArithmeticError>(
            Execution::Deferred,
        ),
        MathInstruction::F64Multiply { .. } => r == Ok::<Execution, ArithmeticError>(
            Execution::Deferred,
        ),
        MathInstruction::F64Divide { .. } => r == Ok::<Execution, ArithmeticError>(
            Execution::Deferred,
        ),
        MathInstruction::Noop => r == Ok::<Execution, ArithmeticError>(Execution::Noop),
    }
}

/// Executes the one primitive that the request selects and returns its
/// result, or the first failure the primitive meets; a floating-point
/// request is handed back for the host to evaluate. There is no retry and
/// no partial result.
pub fn execute_instruction(i: &MathInstruction) -> (r: Result<Execution, ArithmeticError>)
    ensures
        execute_post(*i, r),
{
    match *i {
        MathInstruction::PreciseSquareRoot { radicand } => {
            proof {
                assert((radicand as u128) * ONE + ONE <= u128::MAX) by (nonlinear_arith)
                    requires
                        radicand <= 0xffffffffffffffff,
                        ONE == 0xe8d4a51000,
                ;
            }
            let radicand_pn = match PreciseNumber::new(radicand as u128) {
                Ok(p) => p,
                Err(_) => unreached(),
            };
            let root = match radicand_pn.sqrt() {
                Ok(p) => p,
                Err(_) => unreached(),
            };
            proof {
                // the root of a 64-bit radicand, scaled down, fits 64 bits
                if root.value >= 1 {
                    assert(root.value <= 0x100000000 * ONE) by (nonlinear_arith)
                        requires
                            (root.value - 1) * (root.value - 1) <= (radicand * ONE) * ONE,
                            radicand <= 0xffffffffffffffff,
                            ONE == 0xe8d4a51000,
                            root.value >= 1,
                    ;
                    assert(root.value / ONE <= 0x100000000) by (nonlinear_arith)
                        requires
                            root.value <= 0x100000000 * ONE,
                            ONE == 0xe8d4a51000,
                    ;
                } else {
                    assert(root.value / ONE == 0);
                }
                assert(root.value / ONE <= 0x100000000);
            }
            let imprecise: u128 = match root.to_imprecise() {
                Ok(y) => y,
                Err(_) => unreached(),
            };
            let result: u64 = imprecise as u64;
            proof {
                assert(within_one_of_root(root.value, (radicand * ONE) * ONE) && result
                    == root.value / ONE);
                assert(precise_sqrt_post(radicand, result));
            }
            Ok(Execution::Unsigned64(result))
        },
        MathInstruction::PreciseMulDiv { val, num, denom } => {
            proof {
                assert((val as u128) * ONE <= u128::MAX && (num as u128) * ONE <= u128::MAX && (
                denom as u128) * ONE <= u128::MAX) by (nonlinear_arith)
                    requires
                        val <= 0xffffffffffffffff,
                        num <= 0xffffffffffffffff,
                        denom <= 0xffffffffffffffff,
                        ONE == 0xe8d4a51000,
                ;
            }
            let val_pn = match PreciseNumber::new(val as u128) {
                Ok(p) => p,
                Err(_) => unreached(),
            };
            let num_pn = match PreciseNumber::new(num as u128) {
                Ok(p) => p,
                Err(_) => unreached(),
            };
            let denom_pn = match PreciseNumber::new(denom as u128) {
                Ok(p) => p,
                Err(_) => unreached(),
            };
            proof {
                assert(denom == 0 <==> denom_pn.value == 0) by (nonlinear_arith)
                    requires
                        denom_pn.value == denom * ONE,
                        ONE >= 1,
                ;
                if denom != 0 {
                    // the scale cancels between the widened product and
                    // the scaled denominator
                    lemma_mul_div_cancel_scale(val as int, num as int, denom as int);
                }
            }
            match val_pn.mul_div_floor(&num_pn, &denom_pn) {
                Ok(q) => {
                    let y: u128 = match q.to_imprecise() {
                        Ok(y) => y,
                        Err(_) => unreached(),
                    };
                    proof {
                        lemma_mul_div_strip_scale(val as int, num as int, denom as int);
                    }
                    Ok(Execution::Unsigned128(y))
                },
                Err(e) => Err(e),
            }
        },
        MathInstruction::SquareRootU64 { radicand } => {
            let result = integer_sqrt_u64(radicand);
            Ok(Execution::Unsigned64(result))
        },
        MathInstruction::SquareRootU128 { radicand } => {
            let result = integer_sqrt_u128(radicand);
            Ok(Execution::Unsigned128(result))
        },
        MathInstruction::U64Multiply { multiplicand, multiplier } => {
            match multiplicand.checked_mul(multiplier) {
                Some(_) => Ok(Execution::Unsigned64(u64_multiply(multiplicand, multiplier))),
                None => Err(ArithmeticError::Overflow),
            }
        },
        MathInstruction::U64Divide { dividend, divisor } => {
            if divisor == 0 {
                Err(ArithmeticError::DivideByZero)
            } else {
                Ok(Execution::Unsigned64(u64_divide(dividend, divisor)))
            }
        },
        MathInstruction::U128Multiply { multiplicand, multiplier } => {
            match multiplicand.checked_mul(multiplier) {
                Some(_) => Ok(Execution::Unsigned128(u128_multiply(multiplicand, multiplier))),
                None => Err(ArithmeticError::Overflow),
            }
        },
        MathInstruction::U128Divide { dividend, divisor } => {
            if divisor == 0 {
                Err(ArithmeticError::DivideByZero)
            } else {
                Ok(Execution::Unsigned128(u128_divide(dividend, divisor)))
            }
        },
        MathInstruction::F32Multiply { .. } => Ok(Execution::Deferred),
        MathInstruction::F32Divide { .. } => Ok(Execution::Deferred),
        MathInstruction::F32Exponentiate { .. } => Ok(Execution::Deferred),
        MathInstruction::F32NaturalLog { .. } => Ok(Execution::Deferred),
        MathInstruction::F32NormalCDF { .. } => Ok(Execution::Deferred),
        MathInstruction::F64Pow { .. } => Ok(Execution::Deferred),
        MathInstruction::F64Multiply { .. } => Ok(Execution::Deferred),
        MathInstruction::F64Divide { .. } => Ok(Execution::Deferred),
        MathInstruction::Noop => Ok(Execution::Noop),
    }
}

/// Issuing the identical request twice, with no state surviving between
/// the invocations, produces the identical outcome: the execution
/// contract determines the outcome from the request's operands alone.
/// The fixed-point square-root request stands outside this statement,
/// because its contract pins the result only to a one-mantissa-unit
/// window around the true root.
pub proof fn lemma_execution_deterministic(
    i: MathInstruction,
    r1: Result<Execution, ArithmeticError>,
    r2: Result<Execution, ArithmeticError>,
)
    requires
        execute_post(i, r1),
        execute_post(i, r2),
        !(i matches MathInstruction::PreciseSquareRoot { .. }),
    ensures
        r1 == r2,
{
    match i {
        MathInstruction::SquareRootU64 { radicand } => {
            match (r1, r2) {
                (Ok(Execution::Unsigned64(x1)), Ok(Execution::Unsigned64(x2))) => {
                    // two floor roots of one radicand coincide
                    assert(x1 == x2) by (nonlinear_arith)
                        requires
                            x1 * x1 <= radicand,
                            radicand < (x1 + 1) * (x1 + 1),
                            x2 * x2 <= radicand,
                            radicand < (x2 + 1) * (x2 + 1),
                    ;
                },
                _ => {},
            }
        },
        MathInstruction::SquareRootU128 { radicand } => {
            match (r1, r2) {
                (Ok(Execution::Unsigned128(x1)), Ok(Execution::Unsigned128(x2))) => {
                    assert(x1 == x2) by (nonlinear_arith)
                        requires
                            x1 * x1 <= radicand,
                            radicand < (x1 + 1) * (x1 + 1),
                            x2 * x2 <= radicand,
                            radicand < (x2 + 1) * (x2 + 1),
                    ;
                },
                _ => {},
            }
        },
        _ => {},
    }
}

/// The widened quotient of scaled mantissas equals the plainly scaled
/// quotient: the common factor of the scale cancels.
proof fn lemma_mul_div_cancel_scale(val: int, num: int, denom: int)
    requires
        0 <= val,
        0 <= num,
        0 < denom,
    ensures
        ((val * ONE) * (num * ONE)) / ((denom * ONE) as int) == (val * num * ONE) / denom,
{
    assert((val * ONE) * (num * ONE) == ONE * (val * num * ONE) && denom * ONE == ONE * denom)
        by (nonlinear_arith);
    assert(val * num * ONE >= 0) by (nonlinear_arith)
        requires
            0 <= val,
            0 <= num,
            ONE >= 1,
    ;
    vstd::arithmetic::div_mod::lemma_div_multiples_vanish_quotient(
        ONE as int,
        val * num * ONE,
        denom,
    );
}

/// Flooring the scaled quotient by the scale gives the plain quotient:
/// dividing by the denominator and then by the scale is dividing by their
/// product.
proof fn lemma_mul_div_strip_scale(val: int, num: int, denom: int)
    requires
        0 <= val,
        0 <= num,
        0 < denom,
    ensures
        ((val * num * ONE) / denom) / (ONE as int) == (val * num) / denom,
{
    assert(val * num >= 0 && val * num * ONE >= 0) by (nonlinear_arith)
        requires
            0 <= val,
            0 <= num,
            ONE >= 1,
    ;
    vstd::arithmetic::div_mod::lemma_div_denominator(val * num * ONE, denom, ONE as int);
    vstd::arithmetic::div_mod::lemma_div_multiples_vanish_quotient(ONE as int, val * num, denom);
    assert(ONE * (val * num) == val * num * ONE && ONE * denom == denom * ONE)
        by (nonlinear_arith);
}

} // verus!
