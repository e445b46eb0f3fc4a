use fixed_math::number::{Error, Number, BPS_EXPONENT};
use fixed_math::u192::U192;

#[test]
fn number_zero_equals_zero() {
    assert_eq!(Number::zero(), Number::from_decimal(0u64, 0));
    assert_eq!(Number::zero(), Number::from(0u64));
}

#[test]
fn number_one_equals_one() {
    assert_eq!(Number::one(), Number::from_decimal(1u64, 0));
    assert_eq!(Number::one(), Number::from(1u64));
}

#[test]
fn number_one_plus_one_equals_two() {
    assert_eq!(Number::from_decimal(2u64, 0), Number::one() + Number::one());
}

#[test]
fn number_one_minus_one_equals_zero() {
    assert_eq!(Number::one() - Number::one(), Number::zero());
}

#[test]
fn number_one_times_one_equals_one() {
    assert_eq!(Number::one(), Number::one() * Number::one());
}

#[test]
fn number_one_divided_by_one_equals_one() {
    assert_eq!(Number::one(), Number::one() / Number::one());
}

#[test]
fn number_ten_div_100_equals_point_1() {
    assert_eq!(
        Number::from_decimal(1u64, -1),
        Number::from_decimal(1u64, 1) / Number::from_decimal(100u64, 0)
    );
}

#[test]
fn number_multiply_by_u64() {
    assert_eq!(
        Number::from_decimal(3u64, 1),
        Number::from_decimal(1u64, 1) * 3u64
    )
}

#[test]
fn ceil_gt_one() {
    assert_eq!(Number::from_decimal(11u64, -1).as_u64_ceil(0), 2u64);
    assert_eq!(Number::from_decimal(19u64, -1).as_u64_ceil(0), 2u64);
}

#[test]
fn ceil_lt_one() {
    assert_eq!(Number::from_decimal(1u64, -1).as_u64_ceil(0), 1u64);
    assert_eq!(Number::from_decimal(1u64, -10).as_u64_ceil(0), 1u64);
}

#[test]
fn ceil_of_int() {
    assert_eq!(Number::from_decimal(1u64, 0).as_u64_ceil(0), 1u64);
    assert_eq!(
        Number::from_decimal(1_000_000u64, 0).as_u64_ceil(0),
        1_000_000u64
    );
}

#[test]
fn to_string() {
    assert_eq!("1000.0", Number::from(1000u64).to_string());
    assert_eq!("1.0", Number::from(1u64).to_string());
    assert_eq!("0.001", Number::from_decimal(1u64, -3).to_string());
}

#[test]
fn number_into_bits() {
    let bits = Number::from_decimal(1242u64, -3).into_bits();
    let number = Number::from_bits(bits);

    assert_eq!(Number::from_decimal(1242u64, -3), number);
}

fn raw(hi: u64, mid: u64, lo: u64) -> Number {
    Number(U192 { hi, mid, lo })
}

#[test]
fn number_constants() {
    assert_eq!(Number::one(), raw(0, 0, 1 << 50));
    assert_eq!(Number::zero(), raw(0, 0, 0));
    assert_eq!(Number::min_value(), Number::zero());
    assert_eq!(Number::max_value(), raw(u64::MAX, u64::MAX, u64::MAX));
    assert_eq!(Number::BITS, 192);
    assert_eq!(BPS_EXPONENT, -4);
    assert_eq!(Number::default(), Number::zero());
}

#[test]
fn number_renders_decimals_as_they_were_given() {
    assert_eq!("0.1", Number::from_decimal(1000u64, -4).to_string());
    assert_eq!("0.001", Number::from_decimal(1u64, -3).to_string());
    assert_eq!("1.242", Number::from_decimal(1242u64, -3).to_string());
    assert_eq!("0.0", Number::zero().to_string());
    assert_eq!("0.000000000000001", Number::from_decimal(1u64, -15).to_string());
    assert_eq!("123456789.123456789", Number::from_decimal(123456789123456789u64, -9).to_string());
    assert_eq!("0.015", Number::from_bps(150).to_string());
}

#[test]
fn number_rendering_rounds_up_at_the_last_digit() {
    // one raw unit is 2^-50, a little under 10^-15
    assert_eq!("0.000000000000001", raw(0, 0, 1).to_string());
    // one raw unit below two
    assert_eq!("2.0", raw(0, 0, (2 << 50) - 1).to_string());
    // a third
    assert_eq!("0.333333333333334", (Number::one() / 3u64).to_string());
    assert_eq!(
        "5575186299632655785383929568162090376495104.0",
        Number::max_value().to_string()
    );
}

#[test]
fn number_ten_pow_table() {
    let mut expected: u64 = 1;
    for e in 0..=16u32 {
        assert_eq!(Number::ten_pow(e), U192::from(expected));
        if e < 16 {
            expected *= 10;
        }
    }
    assert_eq!(Number::ten_pow(16), U192::from(10_000_000_000_000_000u64));
}

#[test]
fn number_from_decimal_scales_by_powers_of_ten() {
    assert_eq!(Number::from_decimal(5u64, 2), Number::from(500u64));
    assert_eq!(Number::from_decimal(500u64, -2), Number::from(5u64));
    assert_eq!(Number::from_decimal(1u64, -16), raw(0, 0, (1u64 << 50) / 10_000_000_000_000_000));
    assert_eq!(Number::from_decimal(1u64, 16), raw(0, 610351562500, 0));
    assert_eq!(Number::from_decimal(7u128, 0), Number::from(7u8));
    assert_eq!(Number::from_decimal(7u16, 0), Number::from(7u32));
    // the division by the power of ten rounds down
    assert_eq!(Number::from_decimal(1u64, -3), raw(0, 0, 1125899906842));
}

#[test]
fn number_from_decimal_drops_the_bits_beyond_192() {
    // 2^142 * 2^50 is 2^192, which is reduced to zero
    let big = U192 { hi: 1 << 14, mid: 0, lo: 0 };
    assert_eq!(Number::from_decimal(big, 0), Number::zero());
    let big_plus_one = U192 { hi: 1 << 14, mid: 0, lo: 1 };
    assert_eq!(Number::from_decimal(big_plus_one, 0), Number::one());
    assert_eq!(Number::from(big_plus_one), Number::one());
}

#[test]
fn number_as_decimal_inverts_from_decimal() {
    for e in 0..=16i32 {
        for n in [0u64, 1, 7, 1242, 99_999_999] {
            let v = Number::from_decimal(n, e);
            assert_eq!(v.as_decimal(e), U192::from(n));
        }
    }
    // a negative exponent comes back where the power of ten divides evenly
    assert_eq!(Number::from_decimal(5u64, -1).as_decimal(-1), U192::from(5u64));
    assert_eq!(Number::from_decimal(1000u64, -3).as_decimal(-3), U192::from(1000u64));
    // and one short where the division by the power of ten lost something
    assert_eq!(Number::from_decimal(1u64, -3).as_decimal(-3), U192::from(0u64));
}

#[test]
fn number_as_decimal_exact_values() {
    assert_eq!(Number::from(1234u64).as_decimal(2), U192::from(12u64));
    assert_eq!(Number::from(1234u64).as_decimal(-2), U192::from(123400u64));
    assert_eq!(Number::from_bps(15000).as_decimal(-1), U192::from(15u64));
    assert_eq!(Number::from_bps(3333).as_decimal(-4), U192::from(3332u64));
    assert_eq!(Number::from_bps(15000).as_decimal(0), U192::from(1u64));
}

#[test]
fn number_from_bps() {
    assert_eq!(Number::from_bps(10000), Number::one());
    assert_eq!(Number::from_bps(0), Number::zero());
    assert_eq!(Number::from_bps(1), raw(0, 0, (1u64 << 50) / 10000));
    assert_eq!(Number::from_bps(15000), Number::from_decimal(15000u64, -4));
}

#[test]
fn number_from_u64_scales_by_powers_of_two() {
    assert_eq!(Number::from_u64(3, 0), Number::from(3u64));
    assert_eq!(Number::from_u64(3, -50), raw(0, 0, 3));
    assert_eq!(Number::from_u64(3, 14), raw(0, 3, 0));
    assert_eq!(Number::from_u64(1, 141), raw(1 << 63, 0, 0));
    assert_eq!(Number::from_u64(1, 142), Number::zero());
    assert_eq!(Number::from_u64(u64::MAX, 100), raw(u64::MAX << 22, 0, 0));
    assert_eq!(Number::from_u64(u64::MAX, i32::MAX), Number::zero());
}

#[test]
fn number_as_u64_at_decimal_exponents() {
    assert_eq!(Number::from(31455u64).as_u64(0), 31455);
    assert_eq!(Number::from(31455u64).as_u64(-3), 31_455_000);
    assert_eq!(Number::from(31455u64).as_u64(3), 31);
    assert_eq!(Number::from(31455u64).as_u64(5), 0);
    // 31.455 has no exact raw value: the raw value lies just below it
    assert_eq!(Number::from_decimal(31455u64, -3).as_u64(-3), 31454);
    assert_eq!(Number::from_decimal(31455u64, -3).as_u64_rounded(-3), 31455);
    assert_eq!(Number::from_decimal(31455u64, -3).as_u64_ceil(-3), 31455);
    assert_eq!(Number::from_decimal(31455u64, -3).as_u64(0), 31);
    assert_eq!(Number::from_bps(15000).as_u64(-1), 15);
    assert_eq!(Number::from_bps(15000).as_u64(-16), 15_000_000_000_000_000);
    assert_eq!(Number::from(u64::MAX).as_u64(0), u64::MAX);
    assert_eq!(raw(0, 1 << 60, 0).as_u64(16), 1_888_946);
    assert_eq!(raw(0, 0, 1).as_u64(-16), 8);
    assert_eq!(raw(0, 0, 1).as_u64(-15), 0);
    assert_eq!(Number::zero().as_u64(-16), 0);
}

#[test]
fn number_rounding_conversions() {
    let one_and_a_half = Number::from_bps(15000);
    assert_eq!(one_and_a_half.as_u64(0), 1);
    assert_eq!(one_and_a_half.as_u64_ceil(0), 2);
    assert_eq!(one_and_a_half.as_u64_rounded(0), 2);

    let just_under_half = raw(0, 0, (1 << 49) - 1);
    assert_eq!(just_under_half.as_u64(0), 0);
    assert_eq!(just_under_half.as_u64_ceil(0), 1);
    assert_eq!(just_under_half.as_u64_rounded(0), 0);

    let half = raw(0, 0, 1 << 49);
    assert_eq!(half.as_u64_rounded(0), 1);

    assert_eq!(Number::from(9u64).as_u64_rounded(0), 9);
    assert_eq!(Number::from(9u64).as_u64_ceil(0), 9);
    assert_eq!(Number::zero().as_u64_ceil(0), 0);
    assert_eq!(Number::zero().as_u64_rounded(0), 0);

    // 1.25 in tenths: 12.5
    let one_and_a_quarter = Number::from_bps(12500);
    assert_eq!(one_and_a_quarter.as_u64(-1), 12);
    assert_eq!(one_and_a_quarter.as_u64_rounded(-1), 13);
    assert_eq!(one_and_a_quarter.as_u64_ceil(-1), 13);
    assert_eq!(one_and_a_quarter.as_u64(-2), 125);
    assert_eq!(one_and_a_quarter.as_u64_rounded(-2), 125);
    assert_eq!(one_and_a_quarter.as_u64_ceil(-2), 125);

    // 1249 and 1250 in thousands
    assert_eq!(Number::from(1249u64).as_u64(3), 1);
    assert_eq!(Number::from(1249u64).as_u64_rounded(3), 1);
    assert_eq!(Number::from(1249u64).as_u64_ceil(3), 2);
    assert_eq!(Number::from(1500u64).as_u64_rounded(3), 2);
    assert_eq!(Number::from(1499u64).as_u64_rounded(3), 1);
    assert_eq!((Number::from(1500u64) - raw(0, 0, 1)).as_u64_rounded(3), 1);
    assert_eq!(Number::from(2000u64).as_u64_ceil(3), 2);
    // one raw unit above ten is rounded up to two tens
    assert_eq!((Number::from(10u64) + raw(0, 0, 1)).as_u64(1), 1);
    assert_eq!((Number::from(10u64) + raw(0, 0, 1)).as_u64_ceil(1), 2);
    assert_eq!((Number::from(10u64) + raw(0, 0, 1)).as_u64_rounded(1), 1);

    // one raw unit is 2^-50
    assert_eq!(raw(0, 0, 1).as_u64_ceil(-16), 9);
    assert_eq!(raw(0, 0, 1).as_u64_rounded(-16), 9);
    assert_eq!(raw(0, 0, 1).as_u64_ceil(16), 1);
    assert_eq!(raw(0, 0, 1).as_u64_rounded(16), 0);

    // the largest results
    assert_eq!(raw(0, (1 << 50) - 1, u64::MAX << 50).as_u64_ceil(0), u64::MAX);
    assert_eq!(raw(0, (1 << 50) - 1, (u64::MAX << 50) + (1 << 49) - 1).as_u64_rounded(0), u64::MAX);
}

#[test]
fn number_rounding_never_goes_below_truncation() {
    let mut v = raw(0, 0, 1);
    let mut seen = 0;
    for _ in 0..100 {
        for e in [-16, -7, -1, 0, 1, 9, 16] {
            if let (Ok(down), Ok(up), Ok(near)) =
                (v.try_as_u64(e), v.try_as_u64_ceil(e), v.try_as_u64_rounded(e))
            {
                assert_eq!(down, v.as_u64(e));
                assert_eq!(up, v.as_u64_ceil(e));
                assert_eq!(near, v.as_u64_rounded(e));
                assert!(up >= down);
                assert!(near >= down);
                assert!(up - down <= 1);
                assert!(near - down <= 1);
                assert!(up >= near);
                seen += 1;
            }
        }
        v = v * 3u64 + raw(0, 0, 1);
    }
    assert!(seen > 300);
}

#[test]
fn number_identities() {
    let mut v = raw(0, 0, 1);
    for _ in 0..80 {
        assert_eq!(v + Number::zero(), v);
        assert_eq!(v * Number::one(), v);
        v = v * 3u64 + raw(0, 0, 1);
    }
}

#[test]
fn number_division_then_multiplication() {
    let a = Number::from_decimal(1242u64, -3);
    let b = Number::from_bps(3333);
    let back = (a / b) * b;
    assert!(back <= a);
    assert!(a - back <= raw(0, 0, 1));
    // a divisor above one loses more than one unit
    assert_eq!((raw(0, 0, 5) / Number::from(3u64)) * Number::from(3u64), raw(0, 0, 3));
}

#[test]
fn number_products_and_quotients() {
    assert_eq!(
        Number::from_bps(15000) * Number::from_bps(15000),
        Number::from_decimal(225u64, -2)
    );
    assert_eq!(Number::from(7u64) / Number::from(2u64), Number::from_bps(35000));
    assert_eq!(Number::from(7u64) / 2u64, Number::from_bps(35000));
    assert_eq!(raw(0, 0, 7) / 2u64, raw(0, 0, 3));
    // the dividend times 2^50 is reduced to 192 bits
    assert_eq!(raw(1 << 14, 0, 1 << 50) / Number::one(), raw(0, 0, 1 << 50));
    let mut a = Number::from(101u64);
    a += Number::from(2u64);
    assert_eq!(a, Number::from(103u64));
    a -= Number::from(4u64);
    assert_eq!(a, Number::from(99u64));
    a *= Number::from(2u64);
    assert_eq!(a, Number::from(198u64));
}

#[test]
fn number_divides_exactly() {
    assert_eq!(Number::from(1000u64) / 500u64, Number::from(2u64));
    assert_eq!(Number::from(1000u64) / Number::from(500u64), Number::from(2u64));
    assert_eq!((Number::from(1000u64) / 500u64).to_string(), "2.0");
}

#[test]
fn number_saturating_operations() {
    let one_raw = raw(0, 0, 1);
    assert_eq!(Number::max_value().saturating_add(one_raw), Number::max_value());
    assert_eq!(Number::one().saturating_add(one_raw), raw(0, 0, (1 << 50) + 1));
    assert_eq!(Number::zero().saturating_sub(one_raw), Number::zero());
    assert_eq!(Number::one().saturating_sub(one_raw), raw(0, 0, (1 << 50) - 1));
    // the product of the quantities: one times one is one
    assert_eq!(Number::one().saturating_mul(Number::one()), Number::one());
    assert_eq!(
        Number::from_bps(15000).saturating_mul(Number::from_bps(15000)),
        Number::from_decimal(225u64, -2)
    );
    assert_eq!(Number::max_value().saturating_mul(Number::zero()), Number::zero());
    assert_eq!(raw(0, 1, 0).saturating_mul(raw(0, 1, 0)), raw(0, 1 << 14, 0));
    assert_eq!(raw(1, 0, 0).saturating_mul(raw(0, 1, 0)), raw(1 << 14, 0, 0));
    // a raw product beyond 192 bits whose quotient by the scale still fits
    assert_eq!(Number::max_value().saturating_mul(Number::one()), Number::max_value());
    assert_eq!(
        Number::max_value().saturating_mul(raw(0, 0, 2)),
        raw(32767, u64::MAX, u64::MAX)
    );
    assert_eq!(
        Number::max_value().saturating_mul(raw(0, 0, (1 << 50) - 1)),
        raw(u64::MAX - 16384, u64::MAX, u64::MAX)
    );
    assert_eq!(raw(1, 0, 0).saturating_mul(raw(0, 1 << 49, 0)), raw(1 << 63, 0, 0));
    // the first products that do not fit
    assert_eq!(raw(1, 0, 0).saturating_mul(raw(0, 1 << 50, 0)), Number::max_value());
    assert_eq!(
        Number::max_value().saturating_mul(raw(0, 0, (1 << 50) + 1)),
        Number::max_value()
    );
    assert_eq!(
        Number::max_value().saturating_mul(Number::max_value()),
        Number::max_value()
    );
}

#[test]
fn number_pow_of_raw_values() {
    assert_eq!(raw(0, 0, 3).pow(raw(0, 0, 4)), raw(0, 0, 81));
    assert_eq!(raw(0, 0, 2).pow(raw(0, 0, 191)), raw(1 << 63, 0, 0));
    assert_eq!(raw(0, 0, 0).pow(raw(0, 0, 0)), raw(0, 0, 1));
    assert_eq!(raw(0, 0, 0).pow(raw(0, 7, 0)), raw(0, 0, 0));
    assert_eq!(raw(0, 0, 1).pow(Number::max_value()), raw(0, 0, 1));
    assert_eq!(Number::one().pow(raw(0, 0, 3)), raw(1 << 22, 0, 0));
    assert_eq!(raw(0, 0, 10).pow(raw(0, 0, 20)), raw(0, 5, 7766279631452241920));
}

#[test]
fn number_sum() {
    assert_eq!(Number::sum(&[]), Number::zero());
    assert_eq!(
        Number::sum(&[Number::one(), Number::from_bps(5000), Number::from(2u64)]),
        Number::from_bps(35000)
    );
}

#[test]
fn number_bytes_in_both_orders() {
    let v = raw(0x0102030405060708, 0x1112131415161718, 0x2122232425262728);
    let little = v.to_bytes(true);
    assert_eq!(
        little,
        [
            0x28, 0x27, 0x26, 0x25, 0x24, 0x23, 0x22, 0x21, 0x18, 0x17, 0x16, 0x15, 0x14, 0x13,
            0x12, 0x11, 0x08, 0x07, 0x06, 0x05, 0x04, 0x03, 0x02, 0x01
        ]
    );
    let big = v.to_bytes(false);
    assert_eq!(
        big,
        [
            0x21, 0x22, 0x23, 0x24, 0x25, 0x26, 0x27, 0x28, 0x11, 0x12, 0x13, 0x14, 0x15, 0x16,
            0x17, 0x18, 0x01, 0x02, 0x03, 0x04, 0x05, 0x06, 0x07, 0x08
        ]
    );
    assert_eq!(Number::from_bytes(little, true), v);
    assert_eq!(Number::from_bytes(big, false), v);
    assert_ne!(Number::from_bytes(big, true), v);
}

#[test]
fn number_bits_are_the_limbs_in_memory() {
    let v = raw(0x0102030405060708, 0x1112131415161718, 0x2122232425262728);
    let mut expected = [0u8; 24];
    expected[0..8].copy_from_slice(&0x2122232425262728u64.to_ne_bytes());
    expected[8..16].copy_from_slice(&0x1112131415161718u64.to_ne_bytes());
    expected[16..24].copy_from_slice(&0x0102030405060708u64.to_ne_bytes());
    assert_eq!(v.into_bits(), expected);
    assert_eq!(Number::from_bits(expected), v);
    assert_eq!(Number::from_bits([0u8; 24]), Number::zero());
    assert_eq!(Number::from_bits(Number::max_value().into_bits()), Number::max_value());
}

#[test]
fn number_to_byte_array_is_most_significant_first() {
    let v = raw(0x0102030405060708, 0x1112131415161718, 0x2122232425262728);
    let bytes: [u8; 24] = v.into();
    assert_eq!(
        bytes,
        [
            0x01, 0x02, 0x03, 0x04, 0x05, 0x06, 0x07, 0x08, 0x11, 0x12, 0x13, 0x14, 0x15, 0x16,
            0x17, 0x18, 0x21, 0x22, 0x23, 0x24, 0x25, 0x26, 0x27, 0x28
        ]
    );
}

#[test]
fn number_ordering_follows_the_raw_value() {
    assert!(raw(1, 0, 0) > raw(0, u64::MAX, u64::MAX));
    assert!(raw(0, 1, 0) > raw(0, 0, u64::MAX));
    assert!(raw(0, 0, 2) > raw(0, 0, 1));
    assert!(Number::from_bps(9999) < Number::one());
}

#[test]
fn number_error_messages() {
    assert_eq!(Error::Overflow(Number::one()).to_string(), "An integer value overflowed");
    assert_eq!(Error::DivideByZero.to_string(), "Attempting to divide by zero");
    assert_ne!(Error::Overflow(Number::one()), Error::Overflow(Number::zero()));
}

#[test]
fn number_narrowing_reports_the_overflow() {
    let fits = raw(0, (1 << 50) - 1, u64::MAX);
    assert_eq!(fits.try_as_u64(0), Ok(u64::MAX));
    assert_eq!(fits.try_as_u64_ceil(0), Err(Error::Overflow(fits)));
    assert_eq!(fits.try_as_u64_rounded(0), Err(Error::Overflow(fits)));
    assert_eq!(fits.try_as_u64(-1), Err(Error::Overflow(fits)));
    assert_eq!(fits.try_as_u64(1), Ok(u64::MAX / 10));
    assert_eq!(fits.try_as_u64_ceil(1), Ok(u64::MAX / 10 + 1));
    assert_eq!(fits.try_as_u64_rounded(1), Ok(u64::MAX / 10 + 1));

    let too_big = raw(0, 1 << 50, 0);
    assert_eq!(too_big.try_as_u64(0), Err(Error::Overflow(too_big)));
    assert_eq!(too_big.try_as_u64_ceil(0), Err(Error::Overflow(too_big)));
    assert_eq!(too_big.try_as_u64_rounded(0), Err(Error::Overflow(too_big)));
    assert_eq!(too_big.try_as_u64(1), Ok(1_844_674_407_370_955_161));

    let exact = raw(0, (1 << 50) - 1, u64::MAX << 50);
    assert_eq!(exact.try_as_u64(0), Ok(u64::MAX));
    assert_eq!(exact.try_as_u64_ceil(0), Ok(u64::MAX));
    assert_eq!(exact.try_as_u64_rounded(0), Ok(u64::MAX));

    // beyond 192 bits before the division
    let largest = Number::max_value();
    assert_eq!(largest.try_as_u64(-16), Err(Error::Overflow(largest)));
    assert_eq!(largest.try_as_u64_ceil(-1), Err(Error::Overflow(largest)));
    assert_eq!(largest.try_as_u64_rounded(-1), Err(Error::Overflow(largest)));
    assert_eq!(largest.try_as_u64(16), Err(Error::Overflow(largest)));
    let wide = raw(0, 1 << 60, 0);
    assert_eq!(wide.try_as_u64(16), Ok(1_888_946));
    assert_eq!(wide.try_as_u64_ceil(16), Ok(1_888_947));
    assert_eq!(wide.try_as_u64_rounded(16), Ok(1_888_947));
    assert_eq!(Number::one().try_as_u64(-16), Ok(10_000_000_000_000_000));
}
