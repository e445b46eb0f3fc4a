use fixed_math::number_128::{power_of_ten, NarrowingError, Number128, ONE};

#[test]
fn number_128_zero_equals_zero() {
    assert_eq!(Number128::zero(), Number128::from_decimal(0, 0));
}

#[test]
fn number_128_one_equals_one() {
    assert_eq!(Number128::one(), Number128::from_decimal(1, 0));
}

#[test]
fn negative_one_equals_negative_one() {
    assert_eq!(-Number128::one(), Number128::from_decimal(-1, 0));
}

#[test]
fn number_128_one_plus_one_equals_two() {
    assert_eq!(
        Number128::from_decimal(2, 0),
        Number128::one() + Number128::one()
    );
}

#[test]
fn number_128_one_minus_one_equals_zero() {
    assert_eq!(Number128::one() - Number128::one(), Number128::zero());
}

#[test]
fn number_128_one_times_one_equals_one() {
    assert_eq!(Number128::one(), Number128::one() * Number128::one());
}

#[test]
fn number_128_one_divided_by_one_equals_one() {
    assert_eq!(Number128::one(), Number128::one() / Number128::one());
}

#[test]
fn number_128_ten_div_100_equals_point_1() {
    assert_eq!(
        Number128::from_decimal(1, -1),
        Number128::from_decimal(1, 1) / Number128::from_decimal(100, 0)
    );
}

#[test]
fn comparison() {
    let a = Number128::from_decimal(1000, -4);
    let b = Number128::from_decimal(10, -2);
    assert!(a >= b);

    let c = Number128::from_decimal(1001, -4);
    assert!(c > a);
    assert!(c > b);

    let d = Number128::from_decimal(9999999, -8);
    assert!(d < a);
    assert!(d < b);
    assert!(d < c);
    assert!(d <= d);

    assert_eq!(a.cmp(&b), std::cmp::Ordering::Equal);
    assert_eq!(a.cmp(&c), std::cmp::Ordering::Less);
    assert_eq!(a.cmp(&d), std::cmp::Ordering::Greater);
}

#[test]
fn number_128_multiply_by_u64() {
    assert_eq!(
        Number128::from_decimal(3, 1),
        Number128::from_decimal(1, 1) * 3u64
    )
}

#[test]
fn number_128_test_add_assign_101_2() {
    let mut a = Number128::from_decimal(101, 0);
    a += Number128::from_decimal(2, 0);
    assert_eq!(Number128::from_decimal(103, 0), a);
}

#[test]
fn number_128_test_sub_assign_101_2() {
    let mut a = Number128::from_decimal(101, 0);
    a -= Number128::from_decimal(2, 0);
    assert_eq!(Number128::from_decimal(99, 0), a);
}

#[test]
fn number_128_test_mul_assign_101_2() {
    let mut a = Number128::from_decimal(101, 0);
    a *= Number128::from_decimal(2, 0);
    assert_eq!(Number128::from_decimal(202, 0).0, a.0);
}

#[test]
fn number_128_test_div_assign_101_2() {
    let mut a = Number128::from_decimal(101, 0);
    a /= Number128::from_decimal(2, 0);
    assert_eq!(Number128::from_decimal(505, -1), a);
}

#[test]
fn test_div_assign_102_3() {
    let mut a = Number128::from_decimal(1, 1);
    a /= Number128::from_decimal(100, 0);
    assert_eq!(Number128::from_decimal(1, -1).0, a.0);
}

#[test]
fn div_into_i128() {
    let a = Number128::from_decimal(1000, 0);
    let b = a / 500;
    assert_eq!(Number128::from_decimal(2, 0), b);

    let c = Number128::from_decimal(1000, -3);
    let d = c / 3;
    assert_eq!(Number128::from_decimal(3333333333i64, -10).0, d.0);
}

#[test]
fn equality() {
    let a = Number128::from_decimal(1000, -4);
    let b = Number128::from_decimal(10, -2);
    assert_eq!(a, b);

    let c = Number128::from_decimal(-1000, -4);
    assert_ne!(a, c);
    assert_ne!(b, c);
}

#[test]
fn number_128_as_u64() {
    let u64in = 31455;
    let a = Number128::from_decimal(u64in, -3);
    let b = a.as_u64(-3);
    assert_eq!(b, u64in);
}

#[test]
#[should_panic = "cannot convert to u64 because value < 0"]
fn as_u64_panic_neg() {
    let a = Number128::from_decimal(-10000, -3);
    a.as_u64(-3);
}

#[test]
#[should_panic = "cannot convert to u64 due to overflow"]
fn number_128_as_u64_panic_big() {
    let a = Number128::from_decimal(u64::MAX as i128 + 1, -3);
    a.as_u64(-3);
}

#[test]
fn display() {
    let a = Number128::from_bps(15000);
    assert_eq!("1.5", a.to_string().as_str());

    let a = Number128::from_bps(0) - Number128::from_bps(15000);
    assert_eq!("-1.5", a.to_string().as_str());

    let b = Number128::from_decimal(12345678901i128, -10);
    assert_eq!("1.2345678901", b.to_string().as_str());

    let b = Number128::from_decimal(-12345678901i128, -10);
    assert_eq!("-1.2345678901", b.to_string().as_str());

    let c = Number128::from_decimal(-12345678901i128, -9);
    assert_eq!("-12.345678901", c.to_string().as_str());

    let c = Number128::from_decimal(12345678901i128, -9);
    assert_eq!("12.345678901", c.to_string().as_str());

    let d = Number128::from_decimal(ONE - 1, 1);
    assert_eq!("99999999990.0", d.to_string().as_str());

    let e = Number128::from_decimal(12345678901i128, -13);
    assert_eq!("0.0012345678", e.to_string().as_str());

    let e = Number128::from_decimal(-12345678901i128, -13);
    assert_eq!("-0.0012345678", e.to_string().as_str());
}

#[test]
fn number_128_into_bits() {
    let bits = Number128::from_decimal(1242, -3).into_bits();
    let number = Number128::from_bits(bits);

    assert_eq!(Number128::from_decimal(1242, -3), number);
}

#[test]
fn number_128_constants() {
    assert_eq!(Number128::one().0, 10_000_000_000);
    assert_eq!(ONE, 10_000_000_000);
    assert_eq!(Number128::zero().0, 0);
    assert_eq!(Number128::max_value().0, i128::MAX);
    assert_eq!(Number128::min_value().0, i128::MIN);
    assert_eq!(Number128::BITS, 128);
    assert_eq!(Number128::from_i128(-7).to_i128(), -7);
    assert_eq!(Number128::from(-7i64), Number128::from_i128(-7));
    assert_eq!(Number128::from(7u64).0, 7);
}

#[test]
fn number_128_powers_of_ten() {
    let mut expected: i128 = 1;
    for index in 0..=12u32 {
        assert_eq!(power_of_ten(index), expected);
        expected *= 10;
    }
}

#[test]
fn number_128_from_decimal_over_the_whole_table() {
    assert_eq!(Number128::from_decimal(7, 2).0, 7_000_000_000_000);
    assert_eq!(Number128::from_decimal(7, -10).0, 7);
    assert_eq!(Number128::from_decimal(7_000_000_000_000i64, -22).0, 7);
    assert_eq!(Number128::from_decimal(-7_999_999_999_999i64, -22).0, -7);
    assert_eq!(Number128::from_decimal(999_999_999_999i64, -22).0, 0);
    assert_eq!(Number128::from_decimal(-19, -11).0, -1);
    assert_eq!(Number128::from_decimal(19, -11).0, 1);
    assert_eq!(Number128::from_bps(1).0, 1_000_000);
    assert_eq!(Number128::from_bps(u16::MAX).0, 65_535_000_000);
}

#[test]
fn number_128_as_u64_over_the_whole_table() {
    let v = Number128::from_i128(12_345_678_901_234);
    assert_eq!(v.as_u64(0), 1234);
    assert_eq!(v.as_u64(2), 12);
    assert_eq!(v.as_u64(-10), 12_345_678_901_234);
    assert_eq!(v.as_u64(-12), 1_234_567_890_123_400);
    assert_eq!(Number128::from_i128(18).as_u64(-22), 18_000_000_000_000);
    // a negative number whose scaled value rounds to zero is zero
    assert_eq!(Number128::from_i128(-5).as_u64(0), 0);
    assert_eq!(Number128::from_decimal(u64::MAX, 0).as_u64(0), u64::MAX);
    assert_eq!(Number128::zero().as_u64(-22), 0);
}

#[test]
fn number_128_decimal_round_trip() {
    for e in -10..=2i32 {
        for n in [0u64, 1, 9, 31455, 4_000_000_000] {
            assert_eq!(Number128::from_decimal(n, e).as_u64(e), n);
        }
    }
}

#[test]
fn number_128_rounds_toward_zero() {
    assert_eq!((Number128::from_i128(-7) / 2).0, -3);
    assert_eq!((Number128::from_i128(7) / -2).0, -3);
    assert_eq!((Number128::from_i128(-7) / -2).0, 3);
    assert_eq!((Number128::from_i128(-15) * Number128::from_i128(1_000_000_000)).0, -1);
    assert_eq!((Number128::from_i128(-1) / Number128::from_decimal(3, 0)).0, 0);
    assert_eq!((Number128::from_decimal(-1, 0) / Number128::from_decimal(3, 0)).0, -3_333_333_333);
    assert_eq!((Number128::from_decimal(1, 0) / Number128::from_decimal(-3, 0)).0, -3_333_333_333);
}

#[test]
fn number_128_text_at_the_boundaries() {
    assert_eq!("0.0", Number128::zero().to_string());
    assert_eq!("1.0", Number128::one().to_string());
    assert_eq!("-1.0", (-Number128::one()).to_string());
    assert_eq!("0.0000000001", Number128::from_i128(1).to_string());
    assert_eq!("-0.0000000001", Number128::from_i128(-1).to_string());
    assert_eq!("0.9999999999", Number128::from_i128(ONE - 1).to_string());
    assert_eq!("-0.9999999999", Number128::from_i128(1 - ONE).to_string());
    assert_eq!("-1.0000000001", Number128::from_i128(-ONE - 1).to_string());
    assert_eq!("0.5", Number128::from_bps(5000).to_string());
    assert_eq!(
        "17014118346046923173168730371.5884105727",
        Number128::max_value().to_string()
    );
    assert_eq!(
        "-17014118346046923173168730371.5884105728",
        Number128::min_value().to_string()
    );
}

#[test]
fn number_128_identities() {
    let mut raw: i128 = -1_000_000_007;
    for _ in 0..40 {
        let v = Number128::from_i128(raw);
        assert_eq!(v + Number128::zero(), v);
        assert_eq!(v * Number128::one(), v);
        raw = raw * -3 + 11;
    }
}

#[test]
fn number_128_division_then_multiplication() {
    let a = Number128::from_decimal(-1242, -3);
    let b = Number128::from_bps(3333);
    let back = (a / b) * b;
    assert!((a - back).0.abs() <= 1);
    let back = (a / -b) * -b;
    assert!((a - back).0.abs() <= 1);
    // a divisor above one loses more than one unit
    assert_eq!((Number128::from_i128(5) / Number128::from_decimal(3, 0)) * Number128::from_decimal(3, 0), Number128::from_i128(3));
}

#[test]
fn number_128_bytes_in_both_orders() {
    let v = Number128::from_i128(0x0102030405060708_1112131415161718);
    assert_eq!(v.to_bytes(true), 0x0102030405060708_1112131415161718i128.to_le_bytes());
    assert_eq!(v.to_bytes(false), 0x0102030405060708_1112131415161718i128.to_be_bytes());
    for raw in [0i128, 1, -1, i128::MAX, i128::MIN, -1242, 1 << 64, -(1 << 64), (1 << 64) - 1] {
        let v = Number128::from_i128(raw);
        assert_eq!(v.to_bytes(true), raw.to_le_bytes());
        assert_eq!(v.to_bytes(false), raw.to_be_bytes());
        assert_eq!(Number128::from_bytes(raw.to_le_bytes(), true), v);
        assert_eq!(Number128::from_bytes(raw.to_be_bytes(), false), v);
        assert_eq!(v.into_bits(), raw.to_ne_bytes());
        assert_eq!(Number128::from_bits(raw.to_ne_bytes()), v);
        assert_eq!(Number128::from_bits(v.into_bits()), v);
    }
}

#[test]
fn number_128_narrowing_faults() {
    let too_big = Number128::from_decimal(u64::MAX as i128 + 1, -3);
    assert_eq!(too_big.try_as_u64(-3), Err(NarrowingError::Overflow));
    let largest = Number128::from_decimal(u64::MAX, -3);
    assert_eq!(largest.try_as_u64(-3), Ok(u64::MAX));
    let negative = Number128::from_decimal(-10000, -3);
    assert_eq!(negative.try_as_u64(-3), Err(NarrowingError::Negative));
    assert_eq!(Number128::from_i128(-1).try_as_u64(-10), Err(NarrowingError::Negative));
    // rounding toward zero leaves nothing of a small negative number
    assert_eq!(Number128::from_i128(-1).try_as_u64(-9), Ok(0));
    assert_eq!(Number128::zero().try_as_u64(-22), Ok(0));
    // products beyond 128 bits
    assert_eq!(Number128::max_value().try_as_u64(-22), Err(NarrowingError::Overflow));
    assert_eq!(Number128::min_value().try_as_u64(-22), Err(NarrowingError::Negative));
    assert_eq!(Number128::max_value().try_as_u64(2), Err(NarrowingError::Overflow));
    assert_eq!(Number128::min_value().try_as_u64(2), Err(NarrowingError::Negative));
    assert_eq!(Number128::from_i128(1_844_674_407_370_955_161_5).try_as_u64(-10), Ok(u64::MAX));
    assert_eq!(
        Number128::from_i128(1_844_674_407_370_955_161_6).try_as_u64(-10),
        Err(NarrowingError::Overflow)
    );
    assert_eq!(
        NarrowingError::Overflow.to_string(),
        "cannot convert to u64 due to overflow"
    );
    assert_eq!(
        NarrowingError::Negative.to_string(),
        "cannot convert to u64 because value < 0"
    );
}
