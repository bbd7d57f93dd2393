use spl_math_example::integer_sqrt::{integer_sqrt_u128, integer_sqrt_u64};

fn check_u64(radicand: u64) {
    let root = integer_sqrt_u64(radicand);
    let root_wide = root as u128;
    assert!(root_wide * root_wide <= radicand as u128);
    assert!((root_wide + 1) * (root_wide + 1) > radicand as u128);
}

#[test]
fn test_integer_sqrt_u64_small() {
    assert_eq!(integer_sqrt_u64(0), 0);
    assert_eq!(integer_sqrt_u64(1), 1);
    assert_eq!(integer_sqrt_u64(2), 1);
    assert_eq!(integer_sqrt_u64(3), 1);
    assert_eq!(integer_sqrt_u64(4), 2);
    assert_eq!(integer_sqrt_u64(99), 9);
    assert_eq!(integer_sqrt_u64(100), 10);
}

#[test]
fn test_integer_sqrt_u64_max() {
    assert_eq!(integer_sqrt_u64(u64::MAX), 4294967295);
    assert_eq!(integer_sqrt_u64(u32::MAX as u64), 65535);
}

#[test]
fn test_integer_sqrt_u64_floor_property() {
    for radicand in [
        0,
        1,
        2,
        5,
        1000,
        65536,
        123456789,
        u32::MAX as u64,
        1 << 62,
        u64::MAX - 1,
        u64::MAX,
    ] {
        check_u64(radicand);
    }
}

#[test]
fn test_integer_sqrt_u128() {
    assert_eq!(integer_sqrt_u128(0), 0);
    assert_eq!(integer_sqrt_u128(1), 1);
    assert_eq!(integer_sqrt_u128(144), 12);
    assert_eq!(integer_sqrt_u128(u64::MAX as u128), 4294967295);
    // the floor root of the largest 128-bit value is the largest 64-bit value
    assert_eq!(integer_sqrt_u128(u128::MAX), u64::MAX as u128);
    let exact = (u64::MAX as u128) * (u64::MAX as u128);
    assert_eq!(integer_sqrt_u128(exact), u64::MAX as u128);
    assert_eq!(integer_sqrt_u128(exact - 1), (u64::MAX as u128) - 1);
}
