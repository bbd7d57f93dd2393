use spl_math_example::instruction::{decode_instruction, encode_instruction, MathInstruction};

fn check_round_trip(instruction: MathInstruction) {
    let bytes = encode_instruction(&instruction);
    assert_eq!(decode_instruction(&bytes), Some(instruction));
}

#[test]
fn test_encode_decode_round_trip_all_variants() {
    for instruction in [
        MathInstruction::PreciseSquareRoot { radicand: u64::MAX },
        MathInstruction::PreciseMulDiv { val: 42, num: 84, denom: 2 },
        MathInstruction::SquareRootU64 { radicand: 12345 },
        MathInstruction::SquareRootU128 { radicand: u128::MAX },
        MathInstruction::U64Multiply { multiplicand: 3, multiplier: 4 },
        MathInstruction::U64Divide { dividend: 2, divisor: 2 },
        MathInstruction::F32Multiply {
            multiplicand: 3.0f32.to_bits(),
            multiplier: 4.0f32.to_bits(),
        },
        MathInstruction::F32Divide {
            dividend: 2.0f32.to_bits(),
            divisor: 2.0f32.to_bits(),
        },
        MathInstruction::F32Exponentiate {
            base: 4.0f32.to_bits(),
            exponent: 2.0f32.to_bits(),
        },
        MathInstruction::F32NaturalLog { argument: 1.0f32.to_bits() },
        MathInstruction::F32NormalCDF { argument: 0.5f32.to_bits() },
        MathInstruction::F64Pow {
            base: 50.0f64.to_bits(),
            exponent: 10.0f64.to_bits(),
        },
        MathInstruction::U128Multiply { multiplicand: 1 << 100, multiplier: 2 },
        MathInstruction::U128Divide { dividend: 1415, divisor: 69 },
        MathInstruction::F64Multiply {
            multiplicand: 42.0f64.to_bits(),
            multiplier: 42.0f64.to_bits(),
        },
        MathInstruction::F64Divide {
            dividend: 420420.0f64.to_bits(),
            divisor: 42.0f64.to_bits(),
        },
        MathInstruction::Noop,
    ] {
        check_round_trip(instruction);
    }
}

#[test]
fn test_encoding_layout() {
    // one tag byte, then operands in little-endian order
    let bytes = encode_instruction(&MathInstruction::U64Multiply {
        multiplicand: 42,
        multiplier: 84,
    });
    let mut expected = vec![4u8];
    expected.extend_from_slice(&42u64.to_le_bytes());
    expected.extend_from_slice(&84u64.to_le_bytes());
    assert_eq!(bytes, expected);

    assert_eq!(encode_instruction(&MathInstruction::Noop), vec![16u8]);
}

#[test]
fn test_decode_handmade_buffer() {
    let mut bytes = vec![0u8];
    bytes.extend_from_slice(&9u64.to_le_bytes());
    assert_eq!(
        decode_instruction(&bytes),
        Some(MathInstruction::PreciseSquareRoot { radicand: 9 })
    );
}

#[test]
fn test_decode_rejects_empty() {
    assert_eq!(decode_instruction(&[]), None);
}

#[test]
fn test_decode_rejects_truncated() {
    let bytes = encode_instruction(&MathInstruction::U64Divide { dividend: 2, divisor: 2 });
    for cut in 0..bytes.len() {
        if cut > 0 {
            assert_eq!(decode_instruction(&bytes[..cut]), None);
        }
    }
}

#[test]
fn test_decode_rejects_trailing_bytes() {
    let mut bytes = encode_instruction(&MathInstruction::Noop);
    bytes.push(0);
    assert_eq!(decode_instruction(&bytes), None);
}

#[test]
fn test_decode_rejects_unknown_tag() {
    assert_eq!(decode_instruction(&[17u8]), None);
    assert_eq!(decode_instruction(&[255u8, 0, 0, 0, 0, 0, 0, 0, 0]), None);
}
