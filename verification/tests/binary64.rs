use normal_histogram::binary64::{has_nan_pattern, key_of, FRACTION_RANGE, INFINITY, SIGN_BIT};

#[test]
fn constants_are_the_patterns_they_name() {
    assert_eq!(SIGN_BIT, (-0.0f64).to_bits());
    assert_eq!(INFINITY, f64::INFINITY.to_bits());
    assert_eq!(SIGN_BIT + INFINITY, f64::NEG_INFINITY.to_bits());
    assert_eq!(FRACTION_RANGE, 1u64 << 52);
    assert_eq!(FRACTION_RANGE, f64::MIN_POSITIVE.to_bits());
}

#[test]
fn nan_patterns_are_recognised() {
    assert!(has_nan_pattern(f64::NAN.to_bits()));
    assert!(has_nan_pattern((-f64::NAN).to_bits()));
    assert!(has_nan_pattern(0x7ff0_0000_0000_0001));
    assert!(has_nan_pattern(0xfff0_0000_0000_0001));
    assert!(has_nan_pattern(u64::MAX));
    assert!(has_nan_pattern((0.0f64 / 0.0f64).to_bits()));
}

#[test]
fn numbers_and_infinities_are_not_nan() {
    let numbers = [
        0.0f64,
        -0.0,
        1.0,
        -1.0,
        5e-324,
        -5e-324,
        f64::MIN_POSITIVE,
        f64::MAX,
        f64::MIN,
        f64::INFINITY,
        f64::NEG_INFINITY,
    ];
    for x in numbers {
        assert!(!has_nan_pattern(x.to_bits()), "{x}");
        assert_eq!(has_nan_pattern(x.to_bits()), x.is_nan());
    }
}

#[test]
fn keys_of_known_patterns() {
    assert_eq!(key_of(0.0f64.to_bits()), 0);
    assert_eq!(key_of((-0.0f64).to_bits()), 0);
    assert_eq!(key_of(5e-324f64.to_bits()), 1);
    assert_eq!(key_of((-5e-324f64).to_bits()), -1);
    assert_eq!(key_of(1.0f64.to_bits()), 0x3ff0_0000_0000_0000);
    assert_eq!(key_of((-1.0f64).to_bits()), -0x3ff0_0000_0000_0000);
    assert_eq!(key_of(3.0f64.to_bits()), 0x4008_0000_0000_0000);
    assert_eq!(key_of(f64::INFINITY.to_bits()), 0x7ff0_0000_0000_0000);
    assert_eq!(key_of(f64::NEG_INFINITY.to_bits()), -0x7ff0_0000_0000_0000);
    assert_eq!(key_of(u64::MAX), -i64::MAX);
    assert_eq!(key_of(SIGN_BIT - 1), i64::MAX);
}

#[test]
fn keys_increase_with_the_numbers() {
    let ascending = [
        f64::NEG_INFINITY,
        f64::MIN,
        -1e300,
        -2.0,
        -1.5,
        -1.0,
        -f64::MIN_POSITIVE,
        -5e-324,
        0.0,
        5e-324,
        f64::MIN_POSITIVE,
        0.25,
        1.0,
        1.5,
        2.0,
        3.651_020_501_235_238_6,
        1e300,
        f64::MAX,
        f64::INFINITY,
    ];
    for pair in ascending.windows(2) {
        assert!(pair[0] < pair[1]);
        assert!(
            key_of(pair[0].to_bits()) < key_of(pair[1].to_bits()),
            "{} and {}",
            pair[0],
            pair[1]
        );
    }
}

#[test]
fn keys_agree_with_float_comparison_on_every_pair() {
    let numbers = [
        -7.25f64, -0.0, 0.0, 1e-310, -1e-310, 2.5, 2.5000000000000004, -2.5, 1e10, -1e10,
    ];
    for a in numbers {
        for b in numbers {
            let (ka, kb) = (key_of(a.to_bits()), key_of(b.to_bits()));
            assert_eq!(ka < kb, a < b, "{a} < {b}");
            assert_eq!(ka == kb, a == b, "{a} == {b}");
        }
    }
}
