use spl_math_example::error::ArithmeticError;
use spl_math_example::instruction::{decode_instruction, encode_instruction, MathInstruction};
use spl_math_example::processor::{
    corrected_cost, execute_instruction, u128_divide, u128_multiply, u64_divide, u64_multiply,
    Execution, TransactionTestResult, CU_CORRECTION,
};

#[test]
fn test_u64_multiply() {
    assert_eq!(2 * 2, u64_multiply(2, 2));
    assert_eq!(4 * 3, u64_multiply(4, 3));
}

#[test]
fn test_u64_divide() {
    assert_eq!(1, u64_divide(2, 2));
    assert_eq!(2, u64_divide(2, 1));
}

#[test]
fn test_u128_multiply() {
    assert_eq!(4, u128_multiply(2, 2));
    assert_eq!(1 << 101, u128_multiply(1 << 100, 2));
}

#[test]
fn test_u128_divide() {
    assert_eq!(20, u128_divide(1415, 69));
    assert_eq!(2, u128_divide(2, 1));
}

#[test]
fn test_execute_u64_multiply() {
    let r = execute_instruction(&MathInstruction::U64Multiply {
        multiplicand: 42,
        multiplier: 84,
    });
    assert_eq!(r, Ok(Execution::Unsigned64(3528)));
    let overflow = execute_instruction(&MathInstruction::U64Multiply {
        multiplicand: u64::MAX,
        multiplier: 2,
    });
    assert_eq!(overflow, Err(ArithmeticError::Overflow));
}

#[test]
fn test_execute_u64_divide() {
    let r = execute_instruction(&MathInstruction::U64Divide { dividend: 3, divisor: 1 });
    assert_eq!(r, Ok(Execution::Unsigned64(3)));
    let by_zero = execute_instruction(&MathInstruction::U64Divide { dividend: 3, divisor: 0 });
    assert_eq!(by_zero, Err(ArithmeticError::DivideByZero));
}

#[test]
fn test_execute_u128() {
    let r = execute_instruction(&MathInstruction::U128Multiply {
        multiplicand: 1 << 100,
        multiplier: 2,
    });
    assert_eq!(r, Ok(Execution::Unsigned128(1 << 101)));
    let overflow = execute_instruction(&MathInstruction::U128Multiply {
        multiplicand: u128::MAX,
        multiplier: 2,
    });
    assert_eq!(overflow, Err(ArithmeticError::Overflow));
    let q = execute_instruction(&MathInstruction::U128Divide { dividend: 1415, divisor: 69 });
    assert_eq!(q, Ok(Execution::Unsigned128(20)));
    let by_zero = execute_instruction(&MathInstruction::U128Divide { dividend: 1, divisor: 0 });
    assert_eq!(by_zero, Err(ArithmeticError::DivideByZero));
}

#[test]
fn test_execute_integer_square_roots() {
    let r = execute_instruction(&MathInstruction::SquareRootU64 { radicand: u64::MAX });
    assert_eq!(r, Ok(Execution::Unsigned64(4294967295)));
    let r = execute_instruction(&MathInstruction::SquareRootU128 { radicand: u128::MAX });
    assert_eq!(r, Ok(Execution::Unsigned128(u64::MAX as u128)));
}

#[test]
fn test_execute_precise_square_root() {
    let r = execute_instruction(&MathInstruction::PreciseSquareRoot { radicand: 9 });
    assert_eq!(r, Ok(Execution::Unsigned64(3)));
    let r = execute_instruction(&MathInstruction::PreciseSquareRoot { radicand: 0 });
    assert_eq!(r, Ok(Execution::Unsigned64(0)));
    let r = execute_instruction(&MathInstruction::PreciseSquareRoot { radicand: u64::MAX });
    assert_eq!(r, Ok(Execution::Unsigned64(4294967295)));
}

#[test]
fn test_execute_precise_mul_div() {
    let r = execute_instruction(&MathInstruction::PreciseMulDiv { val: 42, num: 84, denom: 2 });
    assert_eq!(r, Ok(Execution::Unsigned128(1764)));
    // the quotient floors
    let r = execute_instruction(&MathInstruction::PreciseMulDiv { val: 7, num: 9, denom: 4 });
    assert_eq!(r, Ok(Execution::Unsigned128(15)));
    let by_zero =
        execute_instruction(&MathInstruction::PreciseMulDiv { val: 1, num: 1, denom: 0 });
    assert_eq!(by_zero, Err(ArithmeticError::DivideByZero));
    let overflow = execute_instruction(&MathInstruction::PreciseMulDiv {
        val: u64::MAX,
        num: u64::MAX,
        denom: 1,
    });
    assert_eq!(overflow, Err(ArithmeticError::Overflow));
}

#[test]
fn test_execute_floating_point_deferred() {
    for instruction in [
        MathInstruction::F32Multiply { multiplicand: 0, multiplier: 0 },
        MathInstruction::F32Divide { dividend: 0, divisor: 0 },
        MathInstruction::F32Exponentiate { base: 0, exponent: 0 },
        MathInstruction::F32NaturalLog { argument: 0 },
        MathInstruction::F32NormalCDF { argument: 0 },
        MathInstruction::F64Pow { base: 0, exponent: 0 },
        MathInstruction::F64Multiply { multiplicand: 0, multiplier: 0 },
        MathInstruction::F64Divide { dividend: 0, divisor: 0 },
    ] {
        assert_eq!(execute_instruction(&instruction), Ok(Execution::Deferred));
    }
}

#[test]
fn test_execute_noop() {
    assert_eq!(
        execute_instruction(&MathInstruction::Noop),
        Ok(Execution::Noop)
    );
}

#[test]
fn test_identical_requests_agree() {
    // no invocation-local state survives: running the same request twice
    // gives the same outcome
    for instruction in [
        MathInstruction::PreciseSquareRoot { radicand: u64::MAX },
        MathInstruction::PreciseMulDiv { val: 42, num: 84, denom: 2 },
        MathInstruction::SquareRootU64 { radicand: 12345 },
        MathInstruction::U64Multiply { multiplicand: 42, multiplier: 84 },
        MathInstruction::U64Divide { dividend: 3, divisor: 1 },
        MathInstruction::Noop,
    ] {
        let first = execute_instruction(&instruction);
        let second = execute_instruction(&instruction);
        assert_eq!(first, second);
    }
}

#[test]
fn test_corrected_cost() {
    // the raw delta less the fixed correction
    assert_eq!(corrected_cost(1000, 800), 200 - CU_CORRECTION);
    assert_eq!(corrected_cost(CU_CORRECTION + 5, 0), 5);
    // a strictly positive cost survives the correction
    assert!(corrected_cost(10_000, 100) > 0);
}

#[test]
fn test_corrected_cost_clamps_to_zero() {
    // a near-zero-cost primitive must not wrap to a huge count
    assert_eq!(corrected_cost(100, 100), 0);
    assert_eq!(corrected_cost(CU_CORRECTION, 0), 0);
    assert_eq!(corrected_cost(50, 0), 0);
    assert_eq!(corrected_cost(0, 100), 0);
}

#[test]
fn test_transaction_test_result_bytes() {
    let payload = TransactionTestResult { compute_units_consumed: 149570 };
    let bytes = payload.to_bytes();
    assert_eq!(bytes, 149570u64.to_le_bytes().to_vec());
    assert_eq!(TransactionTestResult::from_bytes(&bytes), Some(payload));
    assert_eq!(TransactionTestResult::from_bytes(&bytes[..7]), None);
}

#[test]
fn test_decode_then_execute() {
    // a full invocation through the wire form: decode, then execute
    let input = encode_instruction(&MathInstruction::U64Multiply {
        multiplicand: 42,
        multiplier: 84,
    });
    let instruction = decode_instruction(&input).unwrap();
    assert_eq!(
        execute_instruction(&instruction),
        Ok(Execution::Unsigned64(3528))
    );
    // a malformed buffer fails the invocation before any primitive runs
    assert_eq!(decode_instruction(&input[..5]), None);
}
