use spl_math_example::error::{ArithmeticError, MathError};

#[test]
fn test_math_error_from() {
    assert_eq!(MathError::Overflow.error_code(), 0);
    assert_eq!(MathError::Underflow.error_code(), 1);
}

#[test]
fn test_arithmetic_error_math_error() {
    assert_eq!(
        ArithmeticError::Overflow.math_error(),
        Some(MathError::Overflow)
    );
    assert_eq!(
        ArithmeticError::Underflow.math_error(),
        Some(MathError::Underflow)
    );
    assert_eq!(ArithmeticError::DivideByZero.math_error(), None);
}
