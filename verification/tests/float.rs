use zerx::float::{eq, i128_to_f64_bits, is_finite, is_integral, is_nan, lt, u128_to_f64_bits};

#[test]
fn integer_to_float_matches_the_cast() {
    let samples: Vec<i128> = vec![
        0,
        1,
        -1,
        2,
        3,
        1000,
        -1000,
        (1i128 << 53) - 1,
        1i128 << 53,
        (1i128 << 53) + 1,
        (1i128 << 53) + 3,
        -((1i128 << 53) + 1),
        i64::MAX as i128,
        i64::MIN as i128,
        u64::MAX as i128,
        i128::MAX,
        i128::MIN,
        i128::MIN + 1,
        123_456_789_012_345_678_901_234_567,
    ];
    for n in samples {
        assert_eq!(i128_to_f64_bits(n), (n as f64).to_bits(), "n = {}", n);
    }
}

#[test]
fn unsigned_to_float_matches_the_cast() {
    let samples: Vec<u128> = vec![0, 1, 7, u64::MAX as u128, (u64::MAX as u128) + 1, u128::MAX, u128::MAX - 1, 1u128 << 127];
    for m in samples {
        assert_eq!(u128_to_f64_bits(m), (m as f64).to_bits(), "m = {}", m);
    }
}

#[test]
fn classification() {
    assert!(is_nan(f64::NAN.to_bits()));
    assert!(!is_nan(f64::INFINITY.to_bits()));
    assert!(!is_finite(f64::INFINITY.to_bits()));
    assert!(!is_finite(f64::NEG_INFINITY.to_bits()));
    assert!(is_finite(1.5f64.to_bits()));
    assert!(is_integral(3.0f64.to_bits()));
    assert!(is_integral((-0.0f64).to_bits()));
    assert!(!is_integral(3.5f64.to_bits()));
    assert!(!is_integral(0.5f64.to_bits()));
    assert!(is_integral(1e300f64.to_bits()));
    assert!(!is_integral(f64::NAN.to_bits()));
}

#[test]
fn comparison() {
    assert!(lt((-2.0f64).to_bits(), (-1.0f64).to_bits()));
    assert!(lt((-1.0f64).to_bits(), 0.5f64.to_bits()));
    assert!(!lt(1.0f64.to_bits(), 1.0f64.to_bits()));
    assert!(!lt(f64::NAN.to_bits(), 1.0f64.to_bits()));
    assert!(eq(0.0f64.to_bits(), (-0.0f64).to_bits()));
    assert!(!eq(f64::NAN.to_bits(), f64::NAN.to_bits()));
    assert!(lt(f64::NEG_INFINITY.to_bits(), f64::MIN.to_bits()));
}
