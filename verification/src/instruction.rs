//! The tagged request format: one variant per primitive, each carrying the
//! scalar operands that primitive needs. A request travels as one tag byte
//! followed by the operands in little-endian order; decoding accepts a
//! buffer exactly when it is the encoding of some request, and rejects
//! truncated, oversized or unknown-tag buffers whole.
//!
//! Floating-point operands travel as their IEEE-754 bit patterns; the host
//! shell turns the bits into numbers where it evaluates a floating-point
//! primitive.

use vstd::bytes::{
    lemma_auto_spec_u128_to_from_le_bytes, lemma_auto_spec_u32_to_from_le_bytes,
    lemma_auto_spec_u64_to_from_le_bytes, spec_u128_from_le_bytes, spec_u128_to_le_bytes,
    spec_u32_from_le_bytes, spec_u32_to_le_bytes, spec_u64_from_le_bytes, spec_u64_to_le_bytes,
    u128_from_le_bytes, u128_to_le_bytes, u32_from_le_bytes, u32_to_le_bytes, u64_from_le_bytes,
    u64_to_le_bytes,
};
use vstd::prelude::*;
use vstd::slice::slice_subrange;

verus! {

/// One request: the primitive to execute and its literal operands.
/// Fields named after floating-point widths hold IEEE-754 bit patterns.
#[derive(Clone, Copy, Debug, PartialEq, Eq, Structural)]
pub enum MathInstruction {
    /// Square root of a fixed-point lift of a 64-bit integer.
    PreciseSquareRoot { radicand: u64 },
    /// Fixed-point multiply-then-divide with a widened intermediate.
    PreciseMulDiv { val: u64, num: u64, denom: u64 },
    /// Floor square root of a 64-bit integer.
    SquareRootU64 { radicand: u64 },
    /// Floor square root of a 128-bit integer.
    SquareRootU128 { radicand: u128 },
    /// Raw 64-bit multiply, a cost baseline.
    U64Multiply { multiplicand: u64, multiplier: u64 },
    /// Raw 64-bit divide, a cost baseline.
    U64Divide { dividend: u64, divisor: u64 },
    /// Single-precision multiply; operands are bit patterns.
    F32Multiply { multiplicand: u32, multiplier: u32 },
    /// Single-precision divide; operands are bit patterns.
    F32Divide { dividend: u32, divisor: u32 },
    /// Single-precision power; operands are bit patterns.
    F32Exponentiate { base: u32, exponent: u32 },
    /// Single-precision natural logarithm; operand is a bit pattern.
    F32NaturalLog { argument: u32 },
    /// Single-precision cumulative normal distribution; bit pattern.
    F32NormalCDF { argument: u32 },
    /// Double-precision power, measured both as an integer-exponent power
    /// and as a general power; operands are bit patterns.
    F64Pow { base: u64, exponent: u64 },
    /// Raw 128-bit multiply, a cost baseline.
    U128Multiply { multiplicand: u128, multiplier: u128 },
    /// Raw 128-bit divide, a cost baseline.
    U128Divide { dividend: u128, divisor: u128 },
    /// Double-precision multiply; operands are bit patterns.
    F64Multiply { multiplicand: u64, multiplier: u64 },
    /// Double-precision divide; operands are bit patterns.
    F64Divide { dividend: u64, divisor: u64 },
    /// No primitive at all: calibrates the measurement overhead.
    Noop,
}

/// The tag byte that opens the encoding of a request.
pub open spec fn spec_tag(i: MathInstruction) -> u8 {
    match i {
        MathInstruction::PreciseSquareRoot { .. } => 0,
        MathInstruction::PreciseMulDiv { .. } => 1,
        MathInstruction::SquareRootU64 { .. } => 2,
        MathInstruction::SquareRootU128 { .. } => 3,
        MathInstruction::U64Multiply { .. } => 4,
        MathInstruction::U64Divide { .. } => 5,
        MathInstruction::F32Multiply { .. } => 6,
        MathInstruction::F32Divide { .. } => 7,
        MathInstruction::F32Exponentiate { .. } => 8,
        MathInstruction::F32NaturalLog { .. } => 9,
        MathInstruction::F32NormalCDF { .. } => 10,
        MathInstruction::F64Pow { .. } => 11,
        MathInstruction::U128Multiply { .. } => 12,
        MathInstruction::U128Divide { .. } => 13,
        MathInstruction::F64Multiply { .. } => 14,
        MathInstruction::F64Divide { .. } => 15,
        MathInstruction::Noop => 16,
    }
}

/// The length of the encoding that opens with the given tag byte; zero for
/// a byte that no request uses.
pub open spec fn spec_encoded_len(tag: u8) -> int {
    if tag == 0 {
        9
    } else if tag == 1 {
        25
    } else if tag == 2 {
        9
    } else if tag == 3 {
        17
    } else if tag == 4 {
        17
    } else if tag == 5 {
        17
    } else if tag == 6 {
        9
    } else if tag == 7 {
        9
    } else if tag == 8 {
        9
    } else if tag == 9 {
        5
    } else if tag == 10 {
        5
    } else if tag == 11 {
        17
    } else if tag == 12 {
        33
    } else if tag == 13 {
        33
    } else if tag == 14 {
        17
    } else if tag == 15 {
        17
    } else if tag == 16 {
        1
    } else {
        0
    }
}

/// The wire encoding of a request: its tag byte, then each operand in
/// little-endian byte order.
pub open spec fn spec_encode(i: MathInstruction) -> Seq<u8> {
    match i {
        MathInstruction::PreciseSquareRoot { radicand } => seq![0u8] + spec_u64_to_le_bytes(
            radicand,
        ),
        MathInstruction::PreciseMulDiv { val, num, denom } => seq![1u8] + spec_u64_to_le_bytes(val)
            + spec_u64_to_le_bytes(num) + spec_u64_to_le_bytes(denom),
        MathInstruction::SquareRootU64 { radicand } => seq![2u8] + spec_u64_to_le_bytes(radicand),
        MathInstruction::SquareRootU128 { radicand } => seq![3u8] + spec_u128_to_le_bytes(radicand),
        MathInstruction::U64Multiply { multiplicand, multiplier } => seq![4u8]
            + spec_u64_to_le_bytes(multiplicand) + spec_u64_to_le_bytes(multiplier),
        MathInstruction::U64Divide { dividend, divisor } => seq![5u8] + spec_u64_to_le_bytes(
            dividend,
        ) + spec_u64_to_le_bytes(divisor),
        MathInstruction::F32Multiply { multiplicand, multiplier } => seq![6u8]
            + spec_u32_to_le_bytes(multiplicand) + spec_u32_to_le_bytes(multiplier),
        MathInstruction::F32Divide { dividend, divisor } => seq![7u8] + spec_u32_to_le_bytes(
            dividend,
        ) + spec_u32_to_le_bytes(divisor),
        MathInstruction::F32Exponentiate { base, exponent } => seq![8u8] + spec_u32_to_le_bytes(
            base,
        ) + spec_u32_to_le_bytes(exponent),
        MathInstruction::F32NaturalLog { argument } => seq![9u8] + spec_u32_to_le_bytes(argument),
        MathInstruction::F32NormalCDF { argument } => seq![10u8] + spec_u32_to_le_bytes(argument),
        MathInstruction::F64Pow { base, exponent } => seq![11u8] + spec_u64_to_le_bytes(base)
            + spec_u64_to_le_bytes(exponent),
        MathInstruction::U128Multiply { multiplicand, multiplier } => seq![12u8]
            + spec_u128_to_le_bytes(multiplicand) + spec_u128_to_le_bytes(multiplier),
        MathInstruction::U128Divide { dividend, divisor } => seq![13u8] + spec_u128_to_le_bytes(
            dividend,
        ) + spec_u128_to_le_bytes(divisor),
        MathInstruction::F64Multiply { multiplicand, multiplier } => seq![14u8]
            + spec_u64_to_le_bytes(multiplicand) + spec_u64_to_le_bytes(multiplier),
        MathInstruction::F64Divide { dividend, divisor } => seq![15u8] + spec_u64_to_le_bytes(
            dividend,
        ) + spec_u64_to_le_bytes(divisor),
        MathInstruction::Noop => seq![16u8],
    }
}

/// Every encoding opens with the request's tag byte and has the length
/// that the tag dictates.
pub proof fn lemma_encode_shape(i: MathInstruction)
    ensures
        spec_encode(i).len() == spec_encoded_len(spec_tag(i)),
        spec_encode(i).len() >= 1,
        spec_encode(i)[0] == spec_tag(i),
{
    lemma_auto_spec_u32_to_from_le_bytes();
    lemma_auto_spec_u64_to_from_le_bytes();
    lemma_auto_spec_u128_to_from_le_bytes();
}

/// A buffer of the wrong length for its tag byte, or without a tag byte at
/// all, is the encoding of no request.
proof fn lemma_no_request(s: Seq<u8>)
    requires
        s.len() == 0 || s.len() != spec_encoded_len(s[0]),
    ensures
        forall|i: MathInstruction| spec_encode(i) != s,
{
    assert forall|i: MathInstruction| spec_encode(i) != s by {
        lemma_encode_shape(i);
    }
}

/// Reads the 32-bit little-endian operand at `offset`.
fn read_u32(input: &[u8], offset: usize) -> (x: u32)
    requires
        offset + 4 <= input@.len(),
        input@.len() <= usize::MAX,
    ensures
        x == spec_u32_from_le_bytes(input@.subrange(offset as int, offset + 4)),
{
    u32_from_le_bytes(slice_subrange(input, offset, offset + 4))
}

/// Reads the 64-bit little-endian operand at `offset`.
fn read_u64(input: &[u8], offset: usize) -> (x: u64)
    requires
        offset + 8 <= input@.len(),
        input@.len() <= usize::MAX,
    ensures
        x == spec_u64_from_le_bytes(input@.subrange(offset as int, offset + 8)),
{
    u64_from_le_bytes(slice_subrange(input, offset, offset + 8))
}

/// Reads the 128-bit little-endian operand at `offset`.
fn read_u128(input: &[u8], offset: usize) -> (x: u128)
    requires
        offset + 16 <= input@.len(),
        input@.len() <= usize::MAX,
    ensures
        x == spec_u128_from_le_bytes(input@.subrange(offset as int, offset + 16)),
{
    u128_from_le_bytes(slice_subrange(input, offset, offset + 16))
}

/// Decodes one request from a buffer. Succeeds exactly on the buffers
/// that are the encoding of a request, and returns that request; there is
/// no partial or defaulted interpretation, and trailing bytes reject the
/// buffer.
pub fn decode_instruction(input: &[u8]) -> (r: Option<MathInstruction>)
    ensures
        match r {
            Some(i) => spec_encode(i) == input@,
            None => forall|i: MathInstruction| spec_encode(i) != input@,
        },
{
    proof {
        lemma_auto_spec_u32_to_from_le_bytes();
        lemma_auto_spec_u64_to_from_le_bytes();
        lemma_auto_spec_u128_to_from_le_bytes();
    }
    if input.len() == 0 {
        proof {
            lemma_no_request(input@);
        }
        return None;
    }
    let tag: u8 = input[0];
    let n: usize = input.len();
    let decoded: Option<MathInstruction> = match tag {
        0 => {
            if n == 9 {
                Some(MathInstruction::PreciseSquareRoot { radicand: read_u64(input, 1) })
            } else {
                None
            }
        },
        1 => {
            if n == 25 {
                Some(
                    MathInstruction::PreciseMulDiv {
                        val: read_u64(input, 1),
                        num: read_u64(input, 9),
                        denom: read_u64(input, 17),
                    },
                )
            } else {
                None
            }
        },
        2 => {
            if n == 9 {
                Some(MathInstruction::SquareRootU64 { radicand: read_u64(input, 1) })
            } else {
                None
            }
        },
        3 => {
            if n == 17 {
                Some(MathInstruction::SquareRootU128 { radicand: read_u128(input, 1) })
            } else {
                None
            }
        },
        4 => {
            if n == 17 {
                Some(
                    MathInstruction::U64Multiply {
                        multiplicand: read_u64(input, 1),
                        multiplier: read_u64(input, 9),
                    },
                )
            } else {
                None
            }
        },
        5 => {
            if n == 17 {
                Some(
                    MathInstruction::U64Divide {
                        dividend: read_u64(input, 1),
                        divisor: read_u64(input, 9),
                    },
                )
            } else {
                None
            }
        },
        6 => {
            if n == 9 {
                Some(
                    MathInstruction::F32Multiply {
                        multiplicand: read_u32(input, 1),
                        multiplier: read_u32(input, 5),
                    },
                )
            } else {
                None
            }
        },
        7 => {
            if n == 9 {
                Some(
                    MathInstruction::F32Divide {
                        dividend: read_u32(input, 1),
                        divisor: read_u32(input, 5),
                    },
                )
            } else {
                None
            }
        },
        8 => {
            if n == 9 {
                Some(
                    MathInstruction::F32Exponentiate {
                        base: read_u32(input, 1),
                        exponent: read_u32(input, 5),
                    },
                )
            } else {
                None
            }
        },
        9 => {
            if n == 5 {
                Some(MathInstruction::F32NaturalLog { argument: read_u32(input, 1) })
            } else {
                None
            }
        },
        10 => {
            if n == 5 {
                Some(MathInstruction::F32NormalCDF { argument: read_u32(input, 1) })
            } else {
                None
            }
        },
        11 => {
            if n == 17 {
                Some(
                    MathInstruction::F64Pow {
                        base: read_u64(input, 1),
                        exponent: read_u64(input, 9),
                    },
                )
            } else {
                None
            }
        },
        12 => {
            if n == 33 {
                Some(
                    MathInstruction::U128Multiply {
                        multiplicand: read_u128(input, 1),
                        multiplier: read_u128(input, 17),
                    },
                )
            } else {
                None
            }
        },
        13 => {
            if n == 33 {
                Some(
                    MathInstruction::U128Divide {
                        dividend: read_u128(input, 1),
                        divisor: read_u128(input, 17),
                    },
                )
            } else {
                None
            }
        },
        14 => {
            if n == 17 {
                Some(
                    MathInstruction::F64Multiply {
                        multiplicand: read_u64(input, 1),
                        multiplier: read_u64(input, 9),
                    },
                )
            } else {
                None
            }
        },
        15 => {
            if n == 17 {
                Some(
                    MathInstruction::F64Divide {
                        dividend: read_u64(input, 1),
                        divisor: read_u64(input, 9),
                    },
                )
            } else {
                None
            }
        },
        16 => {
            if n == 1 {
                Some(MathInstruction::Noop)
            } else {
                None
            }
        },
        _ => None,
    };
    proof {
        match decoded {
            Some(i) => {
                lemma_encode_shape(i);
                assert(spec_encode(i) =~= input@);
            },
            None => {
                lemma_no_request(input@);
            },
        }
    }
    decoded
}

/// Appends the little-endian bytes of a 32-bit operand.
fn push_u32(out: &mut Vec<u8>, x: u32)
    ensures
        final(out)@ == old(out)@ + spec_u32_to_le_bytes(x),
{
    let mut bytes = u32_to_le_bytes(x);
    out.append(&mut bytes);
}

/// Appends the little-endian bytes of a 64-bit operand.
fn push_u64(out: &mut Vec<u8>, x: u64)
    ensures
        final(out)@ == old(out)@ + spec_u64_to_le_bytes(x),
{
    let mut bytes = u64_to_le_bytes(x);
    out.append(&mut bytes);
}

/// Appends the little-endian bytes of a 128-bit operand.
fn push_u128(out: &mut Vec<u8>, x: u128)
    ensures
        final(out)@ == old(out)@ + spec_u128_to_le_bytes(x),
{
    let mut bytes = u128_to_le_bytes(x);
    out.append(&mut bytes);
}

/// Encodes a request into the buffer form that `decode_instruction`
/// accepts: the tag byte, then each operand in little-endian order.
pub fn encode_instruction(i: &MathInstruction) -> (out: Vec<u8>)
    ensures
        out@ == spec_encode(*i),
{
    let mut out: Vec<u8> = Vec::new();
    match *i {
        MathInstruction::PreciseSquareRoot { radicand } => {
            out.push(0);
            push_u64(&mut out, radicand);
        },
        MathInstruction::PreciseMulDiv { val, num, denom } => {
            out.push(1);
            push_u64(&mut out, val);
            push_u64(&mut out, num);
            push_u64(&mut out, denom);
        },
        MathInstruction::SquareRootU64 { radicand } => {
            out.push(2);
            push_u64(&mut out, radicand);
        },
        MathInstruction::SquareRootU128 { radicand } => {
            out.push(3);
            push_u128(&mut out, radicand);
        },
        MathInstruction::U64Multiply { multiplicand, multiplier } => {
            out.push(4);
            push_u64(&mut out, multiplicand);
            push_u64(&mut out, multiplier);
        },
        MathInstruction::U64Divide { dividend, divisor } => {
            out.push(5);
            push_u64(&mut out, dividend);
            push_u64(&mut out, divisor);
        },
        MathInstruction::F32Multiply { multiplicand, multiplier } => {
            out.push(6);
            push_u32(&mut out, multiplicand);
            push_u32(&mut out, multiplier);
        },
        MathInstruction::F32Divide { dividend, divisor } => {
            out.push(7);
            push_u32(&mut out, dividend);
            push_u32(&mut out, divisor);
        },
        MathInstruction::F32Exponentiate { base, exponent } => {
            out.push(8);
            push_u32(&mut out, base);
            push_u32(&mut out, exponent);
        },
        MathInstruction::F32NaturalLog { argument } => {
            out.push(9);
            push_u32(&mut out, argument);
        },
        MathInstruction::F32NormalCDF { argument } => {
            out.push(10);
            push_u32(&mut out, argument);
        },
        MathInstruction::F64Pow { base, exponent } => {
            out.push(11);
            push_u64(&mut out, base);
            push_u64(&mut out, exponent);
        },
        MathInstruction::U128Multiply { multiplicand, multiplier } => {
            out.push(12);
            push_u128(&mut out, multiplicand);
            push_u128(&mut out, multiplier);
        },
        MathInstruction::U128Divide { dividend, divisor } => {
            out.push(13);
            push_u128(&mut out, dividend);
            push_u128(&mut out, divisor);
        },
        MathInstruction::F64Multiply { multiplicand, multiplier } => {
            out.push(14);
            push_u64(&mut out, multiplicand);
            push_u64(&mut out, multiplier);
        },
        MathInstruction::F64Divide { dividend, divisor } => {
            out.push(15);
            push_u64(&mut out, dividend);
            push_u64(&mut out, divisor);
        },
        MathInstruction::Noop => {
            out.push(16);
        },
    }
    proof {
        assert(out@ =~= spec_encode(*i));
    }
    out
}

/// Two requests with the same wire encoding are the same request: the
/// encoding is injective, so decoding what `encode_instruction` produced
/// yields the original request.
#[verifier::rlimit(50)]
pub proof fn lemma_encode_injective(i: MathInstruction, j: MathInstruction)
    requires
        spec_encode(i) == spec_encode(j),
    ensures
        i == j,
{
    lemma_auto_spec_u32_to_from_le_bytes();
    lemma_auto_spec_u64_to_from_le_bytes();
    lemma_auto_spec_u128_to_from_le_bytes();
    lemma_encode_shape(i);
    lemma_encode_shape(j);
    match (i, j) {
            (
                MathInstruction::PreciseSquareRoot { radicand: x0a },
                MathInstruction::PreciseSquareRoot { radicand: x0b },
            ) => {
                assert forall|t: int| 0 <= t < 8 implies spec_u64_to_le_bytes(x0a)[t]
                    == spec_u64_to_le_bytes(x0b)[t] by {
                    assert(spec_encode(i)[1 + t] == spec_encode(j)[1 + t]);
                    assert(spec_encode(i)[1 + t] == spec_u64_to_le_bytes(x0a)[t]);
                    assert(spec_encode(j)[1 + t] == spec_u64_to_le_bytes(x0b)[t]);
                }
                assert(spec_u64_to_le_bytes(x0a) =~= spec_u64_to_le_bytes(x0b));
            },
            (
                MathInstruction::PreciseMulDiv { val: x0a, num: x1a, denom: x2a },
                MathInstruction::PreciseMulDiv { val: x0b, num: x1b, denom: x2b },
            ) => {
                assert forall|t: int| 0 <= t < 8 implies spec_u64_to_le_bytes(x0a)[t]
                    == spec_u64_to_le_bytes(x0b)[t] by {
                    assert(spec_encode(i)[1 + t] == spec_encode(j)[1 + t]);
                    assert(spec_encode(i)[1 + t] == spec_u64_to_le_bytes(x0a)[t]);
                    assert(spec_encode(j)[1 + t] == spec_u64_to_le_bytes(x0b)[t]);
                }
                assert(spec_u64_to_le_bytes(x0a) =~= spec_u64_to_le_bytes(x0b));
                assert forall|t: int| 0 <= t < 8 implies spec_u64_to_le_bytes(x1a)[t]
                    == spec_u64_to_le_bytes(x1b)[t] by {
                    assert(spec_encode(i)[9 + t] == spec_encode(j)[9 + t]);
                    assert(spec_encode(i)[9 + t] == spec_u64_to_le_bytes(x1a)[t]);
                    assert(spec_encode(j)[9 + t] == spec_u64_to_le_bytes(x1b)[t]);
                }
                assert(spec_u64_to_le_bytes(x1a) =~= spec_u64_to_le_bytes(x1b));
                assert forall|t: int| 0 <= t < 8 implies spec_u64_to_le_bytes(x2a)[t]
                    == spec_u64_to_le_bytes(x2b)[t] by {
                    assert(spec_encode(i)[17 + t] == spec_encode(j)[17 + t]);
                    assert(spec_encode(i)[17 + t] == spec_u64_to_le_bytes(x2a)[t]);
                    assert(spec_encode(j)[17 + t] == spec_u64_to_le_bytes(x2b)[t]);
                }
                assert(spec_u64_to_le_bytes(x2a) =~= spec_u64_to_le_bytes(x2b));
            },
            (
                MathInstruction::SquareRootU64 { radicand: x0a },
                MathInstruction::SquareRootU64 { radicand: x0b },
            ) => {
                assert forall|t: int| 0 <= t < 8 implies spec_u64_to_le_bytes(x0a)[t]
                    == spec_u64_to_le_bytes(x0b)[t] by {
                    assert(spec_encode(i)[1 + t] == spec_encode(j)[1 + t]);
                    assert(spec_encode(i)[1 + t] == spec_u64_to_le_bytes(x0a)[t]);
                    assert(spec_encode(j)[1 + t] == spec_u64_to_le_bytes(x0b)[t]);
                }
                assert(spec_u64_to_le_bytes(x0a) =~= spec_u64_to_le_bytes(x0b));
            },
            (
                MathInstruction::SquareRootU128 { radicand: x0a },
                MathInstruction::SquareRootU128 { radicand: x0b },
            ) => {
                assert forall|t: int| 0 <= t < 16 implies spec_u128_to_le_bytes(x0a)[t]
                    == spec_u128_to_le_bytes(x0b)[t] by {
                    assert(spec_encode(i)[1 + t] == spec_encode(j)[1 + t]);
                    assert(spec_encode(i)[1 + t] == spec_u128_to_le_bytes(x0a)[t]);
                    assert(spec_encode(j)[1 + t] == spec_u128_to_le_bytes(x0b)[t]);
                }
                assert(spec_u128_to_le_bytes(x0a) =~= spec_u128_to_le_bytes(x0b));
            },
            (
                MathInstruction::U64Multiply { multiplicand: x0a, multiplier: x1a },
                MathInstruction::U64Multiply { multiplicand: x0b, multiplier: x1b },
            ) => {
                assert forall|t: int| 0 <= t < 8 implies spec_u64_to_le_bytes(x0a)[t]
                    == spec_u64_to_le_bytes(x0b)[t] by {
                    assert(spec_encode(i)[1 + t] == spec_encode(j)[1 + t]);
                    assert(spec_encode(i)[1 + t] == spec_u64_to_le_bytes(x0a)[t]);
                    assert(spec_encode(j)[1 + t] == spec_u64_to_le_bytes(x0b)[t]);
                }
                assert(spec_u64_to_le_bytes(x0a) =~= spec_u64_to_le_bytes(x0b));
                assert forall|t: int| 0 <= t < 8 implies spec_u64_to_le_bytes(x1a)[t]
                    == spec_u64_to_le_bytes(x1b)[t] by {
                    assert(spec_encode(i)[9 + t] == spec_encode(j)[9 + t]);
                    assert(spec_encode(i)[9 + t] == spec_u64_to_le_bytes(x1a)[t]);
                    assert(spec_encode(j)[9 + t] == spec_u64_to_le_bytes(x1b)[t]);
                }
                assert(spec_u64_to_le_bytes(x1a) =~= spec_u64_to_le_bytes(x1b));
            },
            (
                MathInstruction::U64Divide { dividend: x0a, divisor: x1a },
                MathInstruction::U64Divide { dividend: x0b, divisor: x1b },
            ) => {
                assert forall|t: int| 0 <= t < 8 implies spec_u64_to_le_bytes(x0a)[t]
                    == spec_u64_to_le_bytes(x0b)[t] by {
                    assert(spec_encode(i)[1 + t] == spec_encode(j)[1 + t]);
                    assert(spec_encode(i)[1 + t] == spec_u64_to_le_bytes(x0a)[t]);
                    assert(spec_encode(j)[1 + t] == spec_u64_to_le_bytes(x0b)[t]);
                }
                assert(spec_u64_to_le_bytes(x0a) =~= spec_u64_to_le_bytes(x0b));
                assert forall|t: int| 0 <= t < 8 implies spec_u64_to_le_bytes(x1a)[t]
                    == spec_u64_to_le_bytes(x1b)[t] by {
                    assert(spec_encode(i)[9 + t] == spec_encode(j)[9 + t]);
                    assert(spec_encode(i)[9 + t] == spec_u64_to_le_bytes(x1a)[t]);
                    assert(spec_encode(j)[9 + t] == spec_u64_to_le_bytes(x1b)[t]);
                }
                assert(spec_u64_to_le_bytes(x1a) =~= spec_u64_to_le_bytes(x1b));
            },
            (
                MathInstruction::F32Multiply { multiplicand: x0a, multiplier: x1a },
                MathInstruction::F32Multiply { multiplicand: x0b, multiplier: x1b },
            ) => {
                assert forall|t: int| 0 <= t < 4 implies spec_u32_to_le_bytes(x0a)[t]
                    == spec_u32_to_le_bytes(x0b)[t] by {
                    assert(spec_encode(i)[1 + t] == spec_encode(j)[1 + t]);
                    assert(spec_encode(i)[1 + t] == spec_u32_to_le_bytes(x0a)[t]);
                    assert(spec_encode(j)[1 + t] == spec_u32_to_le_bytes(x0b)[t]);
                }
                assert(spec_u32_to_le_bytes(x0a) =~= spec_u32_to_le_bytes(x0b));
                assert forall|t: int| 0 <= t < 4 implies spec_u32_to_le_bytes(x1a)[t]
                    == spec_u32_to_le_bytes(x1b)[t] by {
                    assert(spec_encode(i)[5 + t] == spec_encode(j)[5 + t]);
                    assert(spec_encode(i)[5 + t] == spec_u32_to_le_bytes(x1a)[t]);
                    assert(spec_encode(j)[5 + t] == spec_u32_to_le_bytes(x1b)[t]);
                }
                assert(spec_u32_to_le_bytes(x1a) =~= spec_u32_to_le_bytes(x1b));
            },
            (
                MathInstruction::F32Divide { dividend: x0a, divisor: x1a },
                MathInstruction::F32Divide { dividend: x0b, divisor: x1b },
            ) => {
                assert forall|t: int| 0 <= t < 4 implies spec_u32_to_le_bytes(x0a)[t]
                    == spec_u32_to_le_bytes(x0b)[t] by {
                    assert(spec_encode(i)[1 + t] == spec_encode(j)[1 + t]);
                    assert(spec_encode(i)[1 + t] == spec_u32_to_le_bytes(x0a)[t]);
                    assert(spec_encode(j)[1 + t] == spec_u32_to_le_bytes(x0b)[t]);
                }
                assert(spec_u32_to_le_bytes(x0a) =~= spec_u32_to_le_bytes(x0b));
                assert forall|t: int| 0 <= t < 4 implies spec_u32_to_le_bytes(x1a)[t]
                    == spec_u32_to_le_bytes(x1b)[t] by {
                    assert(spec_encode(i)[5 + t] == spec_encode(j)[5 + t]);
                    assert(spec_encode(i)[5 + t] == spec_u32_to_le_bytes(x1a)[t]);
                    assert(spec_encode(j)[5 + t] == spec_u32_to_le_bytes(x1b)[t]);
                }
                assert(spec_u32_to_le_bytes(x1a) =~= spec_u32_to_le_bytes(x1b));
            },
            (
                MathInstruction::F32Exponentiate { base: x0a, exponent: x1a },
                MathInstruction::F32Exponentiate { base: x0b, exponent: x1b },
            ) => {
                assert forall|t: int| 0 <= t < 4 implies spec_u32_to_le_bytes(x0a)[t]
                    == spec_u32_to_le_bytes(x0b)[t] by {
                    assert(spec_encode(i)[1 + t] == spec_encode(j)[1 + t]);
                    assert(spec_encode(i)[1 + t] == spec_u32_to_le_bytes(x0a)[t]);
                    assert(spec_encode(j)[1 + t] == spec_u32_to_le_bytes(x0b)[t]);
                }
                assert(spec_u32_to_le_bytes(x0a) =~= spec_u32_to_le_bytes(x0b));
                assert forall|t: int| 0 <= t < 4 implies spec_u32_to_le_bytes(x1a)[t]
                    == spec_u32_to_le_bytes(x1b)[t] by {
                    assert(spec_encode(i)[5 + t] == spec_encode(j)[5 + t]);
                    assert(spec_encode(i)[5 + t] == spec_u32_to_le_bytes(x1a)[t]);
                    assert(spec_encode(j)[5 + t] == spec_u32_to_le_bytes(x1b)[t]);
                }
                assert(spec_u32_to_le_bytes(x1a) =~= spec_u32_to_le_bytes(x1b));
            },
            (
                MathInstruction::F32NaturalLog { argument: x0a },
                MathInstruction::F32NaturalLog { argument: x0b },
            ) => {
                assert forall|t: int| 0 <= t < 4 implies spec_u32_to_le_bytes(x0a)[t]
                    == spec_u32_to_le_bytes(x0b)[t] by {
                    assert(spec_encode(i)[1 + t] == spec_encode(j)[1 + t]);
                    assert(spec_encode(i)[1 + t] == spec_u32_to_le_bytes(x0a)[t]);
                    assert(spec_encode(j)[1 + t] == spec_u32_to_le_bytes(x0b)[t]);
                }
                assert(spec_u32_to_le_bytes(x0a) =~= spec_u32_to_le_bytes(x0b));
            },
            (
                MathInstruction::F32NormalCDF { argument: x0a },
                MathInstruction::F32NormalCDF { argument: x0b },
            ) => {
                assert forall|t: int| 0 <= t < 4 implies spec_u32_to_le_bytes(x0a)[t]
                    == spec_u32_to_le_bytes(x0b)[t] by {
                    assert(spec_encode(i)[1 + t] == spec_encode(j)[1 + t]);
                    assert(spec_encode(i)[1 + t] == spec_u32_to_le_bytes(x0a)[t]);
                    assert(spec_encode(j)[1 + t] == spec_u32_to_le_bytes(x0b)[t]);
                }
                assert(spec_u32_to_le_bytes(x0a) =~= spec_u32_to_le_bytes(x0b));
            },
            (
                MathInstruction::F64Pow { base: x0a, exponent: x1a },
                MathInstruction::F64Pow { base: x0b, exponent: x1b },
            ) => {
                assert forall|t: int| 0 <= t < 8 implies spec_u64_to_le_bytes(x0a)[t]
                    == spec_u64_to_le_bytes(x0b)[t] by {
                    assert(spec_encode(i)[1 + t] == spec_encode(j)[1 + t]);
                    assert(spec_encode(i)[1 + t] == spec_u64_to_le_bytes(x0a)[t]);
                    assert(spec_encode(j)[1 + t] == spec_u64_to_le_bytes(x0b)[t]);
                }
                assert(spec_u64_to_le_bytes(x0a) =~= spec_u64_to_le_bytes(x0b));
                assert forall|t: int| 0 <= t < 8 implies spec_u64_to_le_bytes(x1a)[t]
                    == spec_u64_to_le_bytes(x1b)[t] by {
                    assert(spec_encode(i)[9 + t] == spec_encode(j)[9 + t]);
                    assert(spec_encode(i)[9 + t] == spec_u64_to_le_bytes(x1a)[t]);
                    assert(spec_encode(j)[9 + t] == spec_u64_to_le_bytes(x1b)[t]);
                }
                assert(spec_u64_to_le_bytes(x1a) =~= spec_u64_to_le_bytes(x1b));
            },
            (
                MathInstruction::U128Multiply { multiplicand: x0a, multiplier: x1a },
                MathInstruction::U128Multiply { multiplicand: x0b, multiplier: x1b },
            ) => {
                assert forall|t: int| 0 <= t < 16 implies spec_u128_to_le_bytes(x0a)[t]
                    == spec_u128_to_le_bytes(x0b)[t] by {
                    assert(spec_encode(i)[1 + t] == spec_encode(j)[1 + t]);
                    assert(spec_encode(i)[1 + t] == spec_u128_to_le_bytes(x0a)[t]);
                    assert(spec_encode(j)[1 + t] == spec_u128_to_le_bytes(x0b)[t]);
                }
                assert(spec_u128_to_le_bytes(x0a) =~= spec_u128_to_le_bytes(x0b));
                assert forall|t: int| 0 <= t < 16 implies spec_u128_to_le_bytes(x1a)[t]
                    == spec_u128_to_le_bytes(x1b)[t] by {
                    assert(spec_encode(i)[17 + t] == spec_encode(j)[17 + t]);
                    assert(spec_encode(i)[17 + t] == spec_u128_to_le_bytes(x1a)[t]);
                    assert(spec_encode(j)[17 + t] == spec_u128_to_le_bytes(x1b)[t]);
                }
                assert(spec_u128_to_le_bytes(x1a) =~= spec_u128_to_le_bytes(x1b));
            },
            (
                MathInstruction::U128Divide { dividend: x0a, divisor: x1a },
                MathInstruction::U128Divide { dividend: x0b, divisor: x1b },
            ) => {
                assert forall|t: int| 0 <= t < 16 implies spec_u128_to_le_bytes(x0a)[t]
                    == spec_u128_to_le_bytes(x0b)[t] by {
                    assert(spec_encode(i)[1 + t] == spec_encode(j)[1 + t]);
                    assert(spec_encode(i)[1 + t] == spec_u128_to_le_bytes(x0a)[t]);
                    assert(spec_encode(j)[1 + t] == spec_u128_to_le_bytes(x0b)[t]);
                }
                assert(spec_u128_to_le_bytes(x0a) =~= spec_u128_to_le_bytes(x0b));
                assert forall|t: int| 0 <= t < 16 implies spec_u128_to_le_bytes(x1a)[t]
                    == spec_u128_to_le_bytes(x1b)[t] by {
                    assert(spec_encode(i)[17 + t] == spec_encode(j)[17 + t]);
                    assert(spec_encode(i)[17 + t] == spec_u128_to_le_bytes(x1a)[t]);
                    assert(spec_encode(j)[17 + t] == spec_u128_to_le_bytes(x1b)[t]);
                }
                assert(spec_u128_to_le_bytes(x1a) =~= spec_u128_to_le_bytes(x1b));
            },
            (
                MathInstruction::F64Multiply { multiplicand: x0a, multiplier: x1a },
                MathInstruction::F64Multiply { multiplicand: x0b, multiplier: x1b },
            ) => {
                assert forall|t: int| 0 <= t < 8 implies spec_u64_to_le_bytes(x0a)[t]
                    == spec_u64_to_le_bytes(x0b)[t] by {
                    assert(spec_encode(i)[1 + t] == spec_encode(j)[1 + t]);
                    assert(spec_encode(i)[1 + t] == spec_u64_to_le_bytes(x0a)[t]);
                    assert(spec_encode(j)[1 + t] == spec_u64_to_le_bytes(x0b)[t]);
                }
                assert(spec_u64_to_le_bytes(x0a) =~= spec_u64_to_le_bytes(x0b));
                assert forall|t: int| 0 <= t < 8 implies spec_u64_to_le_bytes(x1a)[t]
                    == spec_u64_to_le_bytes(x1b)[t] by {
                    assert(spec_encode(i)[9 + t] == spec_encode(j)[9 + t]);
                    assert(spec_encode(i)[9 + t] == spec_u64_to_le_bytes(x1a)[t]);
                    assert(spec_encode(j)[9 + t] == spec_u64_to_le_bytes(x1b)[t]);
                }
                assert(spec_u64_to_le_bytes(x1a) =~= spec_u64_to_le_bytes(x1b));
            },
            (
                MathInstruction::F64Divide { dividend: x0a, divisor: x1a },
                MathInstruction::F64Divide { dividend: x0b, divisor: x1b },
            ) => {
                assert forall|t: int| 0 <= t < 8 implies spec_u64_to_le_bytes(x0a)[t]
                    == spec_u64_to_le_bytes(x0b)[t] by {
                    assert(spec_encode(i)[1 + t] == spec_encode(j)[1 + t]);
                    assert(spec_encode(i)[1 + t] == spec_u64_to_le_bytes(x0a)[t]);
                    assert(spec_encode(j)[1 + t] == spec_u64_to_le_bytes(x0b)[t]);
                }
                assert(spec_u64_to_le_bytes(x0a) =~= spec_u64_to_le_bytes(x0b));
                assert forall|t: int| 0 <= t < 8 implies spec_u64_to_le_bytes(x1a)[t]
                    == spec_u64_to_le_bytes(x1b)[t] by {
                    assert(spec_encode(i)[9 + t] == spec_encode(j)[9 + t]);
                    assert(spec_encode(i)[9 + t] == spec_u64_to_le_bytes(x1a)[t]);
                    assert(spec_encode(j)[9 + t] == spec_u64_to_le_bytes(x1b)[t]);
                }
                assert(spec_u64_to_le_bytes(x1a) =~= spec_u64_to_le_bytes(x1b));
            },
        _ => {},
    }
}

} // verus!
