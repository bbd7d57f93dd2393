use spl_math_example::error::ArithmeticError;
use spl_math_example::precise_number::{PreciseNumber, ONE};

// The largest integer whose fixed-point lift fits the mantissa width.
const LARGEST_NEW: u128 = u128::MAX / ONE;

#[test]
fn test_new_scales_by_one() {
    assert_eq!(PreciseNumber::new(0).unwrap().value, 0);
    assert_eq!(PreciseNumber::new(1).unwrap().value, ONE);
    assert_eq!(PreciseNumber::new(42).unwrap().value, 42 * ONE);
    assert_eq!(PreciseNumber::new(LARGEST_NEW).unwrap().value, LARGEST_NEW * ONE);
    assert_eq!(
        PreciseNumber::new(LARGEST_NEW + 1),
        Err(ArithmeticError::Overflow)
    );
    assert_eq!(PreciseNumber::new(u128::MAX), Err(ArithmeticError::Overflow));
}

#[test]
fn test_new_to_imprecise_round_trip() {
    for v in [0u128, 1, 2, 1000, 999_999_999_999, LARGEST_NEW] {
        let lifted = PreciseNumber::new(v).unwrap();
        assert_eq!(lifted.to_imprecise().unwrap(), v);
    }
}

#[test]
fn test_to_imprecise_floors() {
    // one third keeps no integer part; four thirds keeps one
    let one = PreciseNumber::new(1).unwrap();
    let three = PreciseNumber::new(3).unwrap();
    let four = PreciseNumber::new(4).unwrap();
    let third = one.checked_div(&three).unwrap();
    assert_eq!(third.to_imprecise().unwrap(), 0);
    let four_thirds = four.checked_div(&three).unwrap();
    assert_eq!(four_thirds.to_imprecise().unwrap(), 1);
}

#[test]
fn test_checked_add_sub() {
    let two = PreciseNumber::new(2).unwrap();
    let three = PreciseNumber::new(3).unwrap();
    assert_eq!(two.checked_add(&three).unwrap().value, 5 * ONE);
    assert_eq!(three.checked_sub(&two).unwrap().value, ONE);
    assert_eq!(
        two.checked_sub(&three),
        Err(ArithmeticError::Underflow)
    );
    let top = PreciseNumber { value: u128::MAX };
    assert_eq!(
        top.checked_add(&two),
        Err(ArithmeticError::Overflow)
    );
}

#[test]
fn test_checked_mul_exact() {
    let two = PreciseNumber::new(2).unwrap();
    let three = PreciseNumber::new(3).unwrap();
    assert_eq!(two.checked_mul(&three).unwrap().value, 6 * ONE);
    // a fractional product floors to the fixed precision
    let one = PreciseNumber::new(1).unwrap();
    let third = one.checked_div(&PreciseNumber::new(3).unwrap()).unwrap();
    let ninth = third.checked_mul(&third).unwrap();
    assert_eq!(ninth.value, (third.value * third.value) / ONE);
}

#[test]
fn test_checked_mul_overflow() {
    // mantissa product above the width fails; below it succeeds
    let big = PreciseNumber::new(20_000_000).unwrap();
    assert_eq!(big.checked_mul(&big), Err(ArithmeticError::Overflow));
    let small = PreciseNumber::new(10_000_000).unwrap();
    let product = small.checked_mul(&small).unwrap();
    assert_eq!(product.to_imprecise().unwrap(), 100_000_000_000_000);
}

#[test]
fn test_checked_div() {
    let one = PreciseNumber::new(1).unwrap();
    let three = PreciseNumber::new(3).unwrap();
    let third = one.checked_div(&three).unwrap();
    assert_eq!(third.value, ONE * ONE / (3 * ONE));
    assert_eq!(third.value, 333_333_333_333);
    let zero = PreciseNumber::new(0).unwrap();
    assert_eq!(
        one.checked_div(&zero),
        Err(ArithmeticError::DivideByZero)
    );
    let top = PreciseNumber { value: u128::MAX };
    assert_eq!(
        top.checked_div(&three),
        Err(ArithmeticError::Overflow)
    );
}

#[test]
fn test_mul_div_floor_survives_wide_product() {
    // the direct mantissa product overflows the width, the quotient does
    // not: the widened intermediate must carry it
    let a = PreciseNumber::new(100_000_000).unwrap();
    let b = PreciseNumber::new(100_000_000).unwrap();
    let one = PreciseNumber::new(1).unwrap();
    assert_eq!(a.checked_mul(&b), Err(ArithmeticError::Overflow));
    let q = a.mul_div_floor(&b, &one).unwrap();
    assert_eq!(q.to_imprecise().unwrap(), 10_000_000_000_000_000);
}

#[test]
fn test_mul_div_floor_floors() {
    let seven = PreciseNumber::new(7).unwrap();
    let nine = PreciseNumber::new(9).unwrap();
    let four = PreciseNumber::new(4).unwrap();
    // 7 * 9 / 4 = 15.75: the fixed-point quotient keeps the fraction
    let q = seven.mul_div_floor(&nine, &four).unwrap();
    assert_eq!(q.value, 15_750_000_000_000);
    assert_eq!(q.to_imprecise().unwrap(), 15);
    let zero = PreciseNumber::new(0).unwrap();
    assert_eq!(
        seven.mul_div_floor(&nine, &zero),
        Err(ArithmeticError::DivideByZero)
    );
}

#[test]
fn test_mul_div_floor_overflow() {
    let top = PreciseNumber { value: u128::MAX };
    let two = PreciseNumber::new(2).unwrap();
    let one = PreciseNumber::new(1).unwrap();
    assert_eq!(
        top.mul_div_floor(&two, &one),
        Err(ArithmeticError::Overflow)
    );
}

fn check_sqrt_within_one_unit(v: u128) {
    let root = PreciseNumber::new(v).unwrap().sqrt().unwrap();
    let square = v * ONE * ONE;
    let p = root.value;
    assert!((p + 1) * (p + 1) > square);
    if p >= 1 {
        assert!((p - 1) * (p - 1) <= square);
    } else {
        assert_eq!(square, 0);
    }
}

#[test]
fn test_sqrt_exact_values() {
    assert_eq!(PreciseNumber::new(0).unwrap().sqrt().unwrap().value, 0);
    let nine = PreciseNumber::new(9).unwrap().sqrt().unwrap();
    assert_eq!(nine.to_imprecise().unwrap(), 3);
    let four = PreciseNumber::new(4).unwrap().sqrt().unwrap();
    assert_eq!(four.to_imprecise().unwrap(), 2);
}

#[test]
fn test_sqrt_across_magnitudes() {
    for v in [1u128, 2, 3, 10, 99, 100, 65_535, 1_000_000, 123_456_789, 1_000_000_000_000, 300_000_000_000_000] {
        check_sqrt_within_one_unit(v);
    }
}

#[test]
fn test_sqrt_of_two() {
    let two = PreciseNumber::new(2).unwrap();
    let root = two.sqrt().unwrap();
    // the true value is 1.414213562373095...: within one mantissa unit
    assert!(root.value >= 1_414_213_562_373 && root.value <= 1_414_213_562_374);
}

#[test]
fn test_sqrt_fails_cleanly_at_maximum() {
    let top = PreciseNumber { value: u128::MAX };
    assert_eq!(top.sqrt(), Err(ArithmeticError::Overflow));
    let above = PreciseNumber { value: u128::MAX - ONE + 1 };
    assert_eq!(above.sqrt(), Err(ArithmeticError::Overflow));
    // one below the failing band still succeeds
    let just_fits = PreciseNumber { value: u128::MAX - ONE };
    assert!(just_fits.sqrt().is_ok());
}
