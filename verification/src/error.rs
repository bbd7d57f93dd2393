//! Error kinds reported by the arithmetic kernel.

use vstd::prelude::*;

verus! {

/// The two domain error kinds that the host channel can carry as a numeric
/// code: a result that cannot be represented in the destination width, and a
/// subtraction that would go below zero in an unsigned representation.
#[derive(Clone, Copy, Debug, PartialEq, Eq, Structural)]
pub enum MathError {
    /// Calculation overflowed the destination number
    Overflow,
    /// Calculation underflowed the destination number
    Underflow,
}

impl MathError {
    /// The numeric code under which the host reports this error kind.
    pub fn error_code(&self) -> (code: u32)
        ensures
            code == match *self {
                MathError::Overflow => 0u32,
                MathError::Underflow => 1u32,
            },
    {
        match *self {
            MathError::Overflow => 0,
            MathError::Underflow => 1,
        }
    }
}

/// Every way a checked arithmetic primitive can fail: the two coded kinds,
/// plus division by a zero-valued operand, which surfaces as a generic
/// domain failure without a code of its own.
#[derive(Clone, Copy, Debug, PartialEq, Eq, Structural)]
pub enum ArithmeticError {
    /// The result does not fit the destination width.
    Overflow,
    /// An unsigned subtraction would produce a negative value.
    Underflow,
    /// A division's denominator holds the value zero.
    DivideByZero,
}

impl ArithmeticError {
    /// The coded error kind for this failure, if it has one; division by
    /// zero carries no domain-specific code.
    pub fn math_error(&self) -> (e: Option<MathError>)
        ensures
            e == match *self {
                ArithmeticError::Overflow => Some(MathError::Overflow),
                ArithmeticError::Underflow => Some(MathError::Underflow),
                ArithmeticError::DivideByZero => None::<MathError>,
            },
    {
        match *self {
            ArithmeticError::Overflow => Some(MathError::Overflow),
            ArithmeticError::Underflow => Some(MathError::Underflow),
            ArithmeticError::DivideByZero => None,
        }
    }
}

} // verus!
