use fixed_math::fixed_point::{Fp32, FP32_ONE};

#[test]
fn fixed_point_zero_equals_zero() {
    assert_eq!(Fp32::zero(), Fp32::from(0u64));
}

#[test]
fn fixed_point_one_equals_one() {
    assert_eq!(Fp32::one(), Fp32::from(1u64));
}

#[test]
fn fixed_point_one_plus_one_equals_two() {
    assert_eq!(Fp32::from(2u64), Fp32::one() + Fp32::one());
}

#[test]
fn fixed_point_one_minus_one_equals_zero() {
    assert_eq!(Fp32::one() - Fp32::from(1u64), Fp32::zero());
}

#[test]
fn fixed_point_one_times_one_equals_one() {
    assert_eq!(Fp32::one(), Fp32::one() * Fp32::one());
    assert_eq!(Fp32::one(), Fp32::from(1u64) * Fp32::one());
}

#[test]
fn fixed_point_one_divided_by_one_equals_one() {
    assert_eq!(Fp32::one(), Fp32::one() / Fp32::one());
    assert_eq!(Fp32::one(), Fp32::from(1u64) / Fp32::one());
}

#[test]
fn one_thousand_div_100_equals_ten() {
    assert_eq!(Fp32::from(10u64), Fp32::from(1_000u64) / Fp32::from(100u64));
}

#[test]
fn fixed_point_multiply_by_u64() {
    assert_eq!(Fp32::from(3u64), Fp32::from(1u64) * 3u64)
}

#[test]
fn fixed_point_test_add_assign_101_2() {
    let mut a = Fp32::from(101u64);
    a += Fp32::from(2u64);
    assert_eq!(Fp32::from(103u64), a);
}

#[test]
fn fixed_point_test_sub_assign_101_2() {
    let mut a = Fp32::from(101u64);
    a -= Fp32::from(2u64);
    assert_eq!(Fp32::from(99u64), a);
}

#[test]
fn fixed_point_test_mul_assign_101_2() {
    let mut a = Fp32::from(101u64);
    a *= Fp32::from(2u64);
    assert_eq!(Fp32::from(202u64), a);
}

#[test]
fn fixed_point_test_div_assign_101_2() {
    let mut a = Fp32::from(101u64);
    a = a / Fp32::from(2u64);
    assert_eq!(Fp32::from(505u64) / Fp32::from(10u64), a);
}

#[test]
fn fixed_point_as_u64() {
    let u64in = 31455u64;
    let a = Fp32::from(u64in);
    let b = a.as_decimal_u64().unwrap();
    assert_eq!(b, u64in);
}

#[test]
#[should_panic]
fn fixed_point_as_u64_panic_big() {
    let a = Fp32::from(u64::MAX as u128 + 1);
    a.as_decimal_u64().unwrap();
}

#[test]
fn u64_mul() {
    let a = 100u64;
    let fp = Fp32::from(10u64);

    assert_eq!(fp.decimal_u64_mul(a).unwrap(), 1_000);
}

#[test]
fn u64_div() {
    let a = 10u64;
    let fp = Fp32::from(100u64);

    assert_eq!(fp.u64_div(a).unwrap(), 10u64)
}

#[test]
fn up_and_downcasting() {
    let fp32_u64 = 10 * (FP32_ONE as u64);
    let up = Fp32::upcast_fp32(fp32_u64);

    assert_eq!(up.downcast_u64().unwrap(), fp32_u64);
}

#[test]
fn fixed_point_raw_value_of_an_integer() {
    assert_eq!(Fp32::from(5u8), Fp32::wrap_u128(5 << 32));
    assert_eq!(Fp32::from(5u16), Fp32::wrap_u128(5 << 32));
    assert_eq!(Fp32::from(5u32), Fp32::wrap_u128(5 << 32));
    assert_eq!(Fp32::one().0, 4_294_967_296);
    assert_eq!(Fp32::max_value().0, u128::MAX);
    assert_eq!(Fp32::min_value().0, 0);
}

#[test]
fn fixed_point_integer_part_truncates() {
    assert_eq!(Fp32::wrap_u128((7 << 32) + 1).as_decimal_u64(), Some(7));
    assert_eq!(Fp32::wrap_u128((7 << 32) - 1).as_decimal_u64(), Some(6));
    assert_eq!(Fp32::wrap_u128(u128::MAX >> 32).as_decimal_u64(), Some(u64::MAX));
    assert_eq!(Fp32::wrap_u128(1 << 96).as_decimal_u64(), None);
}

#[test]
fn fixed_point_ceiling_rounds_any_fraction_up() {
    assert_eq!(Fp32::wrap_u128(7 << 32).as_decimal_u64_ceil(), Some(7));
    assert_eq!(Fp32::wrap_u128((7 << 32) + 1).as_decimal_u64_ceil(), Some(8));
    assert_eq!(Fp32::wrap_u128((8 << 32) - 1).as_decimal_u64_ceil(), Some(8));
    assert_eq!(Fp32::wrap_u128(0).as_decimal_u64_ceil(), Some(0));
    assert_eq!(Fp32::wrap_u128(1).as_decimal_u64_ceil(), Some(1));
    assert_eq!(
        Fp32::wrap_u128((u64::MAX as u128) << 32).as_decimal_u64_ceil(),
        Some(u64::MAX)
    );
    assert_eq!(
        Fp32::wrap_u128(((u64::MAX as u128) << 32) + 1).as_decimal_u64_ceil(),
        None
    );
    assert_eq!(Fp32::wrap_u128(u128::MAX).as_decimal_u64_ceil(), None);
}

#[test]
fn fixed_point_ceiling_is_never_below_the_floor() {
    let mut raw: u128 = 1;
    while raw < (1 << 90) {
        let v = Fp32::wrap_u128(raw);
        let down = v.as_decimal_u64().unwrap();
        let up = v.as_decimal_u64_ceil().unwrap();
        assert!(up >= down);
        assert!(up - down <= 1);
        raw = raw * 3 + 1;
    }
}

#[test]
fn fixed_point_downcast_reports_what_does_not_fit() {
    assert_eq!(Fp32::wrap_u128(u64::MAX as u128).downcast_u64(), Some(u64::MAX));
    assert_eq!(Fp32::wrap_u128(u64::MAX as u128 + 1).downcast_u64(), None);
}

#[test]
fn fixed_point_arithmetic_wraps_around() {
    assert_eq!(Fp32::max_value() + Fp32::wrap_u128(1), Fp32::zero());
    assert_eq!(Fp32::zero() - Fp32::wrap_u128(1), Fp32::max_value());
    assert_eq!(Fp32::wrap_u128(1 << 127) * 2u64, Fp32::zero());
    // 2^96 * 2^32 wraps to zero before the division by the scale
    assert_eq!(Fp32::wrap_u128(1 << 96) * Fp32::one(), Fp32::zero());
    assert_eq!(Fp32::wrap_u128(1 << 96) / Fp32::one(), Fp32::zero());
    let mut a = Fp32::max_value();
    a += Fp32::wrap_u128(2);
    assert_eq!(a, Fp32::wrap_u128(1));
    let mut b = Fp32::zero();
    b -= Fp32::wrap_u128(2);
    assert_eq!(b, Fp32::wrap_u128(u128::MAX - 1));
}

#[test]
fn fixed_point_identities() {
    let mut raw: u128 = 1;
    while raw < (1 << 96) {
        let v = Fp32::wrap_u128(raw);
        assert_eq!(v + Fp32::zero(), v);
        assert_eq!(v * Fp32::one(), v);
        raw = raw * 5 + 3;
    }
}

#[test]
fn fixed_point_division_then_multiplication() {
    let a = Fp32::from(7u64);
    let b = Fp32::wrap_u128(3 << 30);
    let back = (a / b) * b;
    assert!(back <= a);
    assert!(a.0 - back.0 <= 1);
    // a divisor above one loses more than one unit
    let c = Fp32::wrap_u128(5);
    let d = Fp32::from(3u64);
    assert_eq!((c / d) * d, Fp32::wrap_u128(3));
}

#[test]
fn fixed_point_scalar_operations() {
    assert_eq!(Fp32::from(10u64) / 4u64, Fp32::wrap_u128(10 * (1 << 32) / 4));
    assert_eq!(Fp32::from(10u64).decimal_u64_mul(u64::MAX), None);
    assert_eq!(Fp32::wrap_u128(1 << 31).decimal_u64_mul(3), Some(1));
    assert_eq!(Fp32::from(7u64).u64_div(2), Some(3));
}

#[test]
fn fixed_point_ordering_follows_the_raw_value() {
    assert!(Fp32::from(2u64) > Fp32::one());
    assert!(Fp32::wrap_u128(1) < Fp32::one());
    assert!(Fp32::zero() <= Fp32::min_value());
}
