//! An unsigned decimal number with 50 fractional bits, held in 192 bits.

use crate::arith::{
    div_ceil, div_nearest, lemma_div_ceil, lemma_div_nearest, lemma_pow10_adds,
    lemma_pow10_increases, lemma_pow10_positive, lemma_pow10_values, pow10,
};
use crate::bytes::{
    lemma_bytes_round_trip, lemma_limb_round_trip, limb_bytes, limb_value, limbs_to_bytes,
    native_is_little_endian, read_limb,
};
use crate::guard::demand;
use crate::text::{digits, fraction_digits, push_fraction_digits};
use crate::u192::{lemma_pow2_limbs, limb_sq, modulus, U192};
use crate::widen::Widen;
use std::cmp::Ordering;
use std::ops::{Add, AddAssign, Div, Mul, MulAssign, Sub, SubAssign};
use vstd::arithmetic::div_mod::{
    lemma_basic_div, lemma_fundamental_div_mod, lemma_fundamental_div_mod_converse,
    lemma_small_mod,
};
use vstd::arithmetic::power2::{lemma2_to64, lemma2_to64_rest, lemma_pow2_adds, pow2};
use vstd::prelude::*;
use vstd::std_specs::cmp::PartialOrdSpecImpl;
use vstd::std_specs::convert::FromSpecImpl;
use vstd::std_specs::ops::{AddSpecImpl, DivSpecImpl, MulSpecImpl, SubSpecImpl};
use vstd::string::StringExecFns;

verus! {

/// The decimal exponent of a basis point: one basis point is `10^-4`.
pub const BPS_EXPONENT: i32 = -4;

/// The number of fractional bits.
pub const PRECISION: i32 = 50;

/// The raw value that stands for the quantity one: `2^50`.
pub open spec fn scale() -> nat {
    0x4_0000_0000_0000
}

/// A large unsigned number with 50 fractional bits.
///
/// The raw value `r` stands for the quantity `r / 2^50`.
#[derive(Debug, Copy, Clone, PartialEq, Eq, Ord, Structural)]
pub struct Number(pub U192);

impl View for Number {
    type V = nat;

    /// The raw backing integer.
    open spec fn view(&self) -> nat {
        self.0@
    }
}

/// The shift that the binary exponent of `from_u64` asks for.
pub open spec fn binary_shift(exponent: i32) -> nat {
    (PRECISION + exponent) as nat
}

impl Number {
    /// The number of bits of the backing integer.
    pub const BITS: u32 = 192;

    /// The number whose raw value is `raw`, for `raw` below `2^192`.
    pub open spec fn of_raw(raw: nat) -> Number {
        Number(U192::from_nat(raw))
    }

    /// The sum: the sum of the raw values.
    pub open spec fn spec_add(self, rhs: Number) -> Number {
        Number::of_raw(self@ + rhs@)
    }

    /// The difference: the difference of the raw values.
    pub open spec fn spec_sub(self, rhs: Number) -> Number {
        Number::of_raw((self@ - rhs@) as nat)
    }

    /// The product of the quantities: the product of the raw values divided
    /// by `2^50`.
    pub open spec fn spec_mul(self, rhs: Number) -> Number {
        Number::of_raw((self@ * rhs@) / scale())
    }

    /// The quotient of the quantities: the raw value times `2^50`, reduced
    /// to 192 bits, divided by the raw value of `rhs`.
    pub open spec fn spec_div(self, rhs: Number) -> Number {
        Number::of_raw(((self@ * scale()) % modulus()) / rhs@)
    }

    /// The quantity one.
    pub fn one() -> (r: Number)
        ensures
            r@ == scale(),
    {
        Number(U192 { hi: 0, mid: 0, lo: 0x4_0000_0000_0000 })
    }

    /// The quantity zero.
    pub fn zero() -> (r: Number)
        ensures
            r@ == 0,
    {
        Number(U192::zero())
    }

    /// The largest number.
    pub fn max_value() -> (r: Number)
        ensures
            r@ == modulus() - 1,
    {
        Number(U192::max_value())
    }

    /// The smallest number, which is zero.
    pub fn min_value() -> (r: Number)
        ensures
            r@ == 0,
    {
        Number(U192::zero())
    }

    /// Ten to the power `exponent`, for the exponents up to 16.
    pub fn ten_pow(exponent: u32) -> (r: U192)
        requires
            exponent <= 16,
        ensures
            r@ == pow10(exponent as nat),
    {
        proof {
            lemma_pow10_values();
        }
        demand(exponent <= 16, "no support for exponent");
        let value: u64 = match exponent {
            16 => 10_000_000_000_000_000,
            15 => 1_000_000_000_000_000,
            14 => 100_000_000_000_000,
            13 => 10_000_000_000_000,
            12 => 1_000_000_000_000,
            11 => 100_000_000_000,
            10 => 10_000_000_000,
            9 => 1_000_000_000,
            8 => 100_000_000,
            7 => 10_000_000,
            6 => 1_000_000,
            5 => 100_000,
            4 => 10_000,
            3 => 1_000,
            2 => 100,
            1 => 10,
            _ => 1,
        };
        U192::from(value)
    }

    /// The number `value * 2^exponent`: `exponent` counts binary digits.
    ///
    /// Bits that leave the 192 are dropped.
    pub fn from_u64(value: u64, exponent: i32) -> (r: Number)
        requires
            exponent >= -PRECISION,
        ensures
            r@ == (value as nat * pow2(binary_shift(exponent))) % modulus(),
    {
        demand(exponent >= -PRECISION, "Unsigned integer can't be created from negative value");
        let shift: u32 = (PRECISION as i64 + exponent as i64) as u32;
        Number(U192::from(value).shl(shift))
    }
}

impl Number {
    /// What `from_decimal` makes of `value` and `exponent`: `value * 2^50`,
    /// reduced to 192 bits, times or divided by the power of ten.
    pub open spec fn spec_from_decimal(value: nat, exponent: int) -> nat {
        let expanded = (value * scale()) % modulus();
        if exponent < 0 {
            expanded / pow10((-exponent) as nat)
        } else {
            expanded * pow10(exponent as nat)
        }
    }

    /// The numerator of the quantity in units of `10^exponent`, whose
    /// denominator is `units_denominator(exponent)`.
    pub open spec fn units_numerator(raw: nat, exponent: int) -> nat {
        if exponent < 0 {
            raw * pow10((-exponent) as nat)
        } else {
            raw
        }
    }

    /// The denominator of a quantity in units of `10^exponent`.
    pub open spec fn units_denominator(exponent: int) -> nat {
        if exponent < 0 {
            scale()
        } else {
            pow10(exponent as nat) * scale()
        }
    }

    /// The quantity in units of `10^exponent`, rounded down.
    pub open spec fn spec_as_decimal(raw: nat, exponent: int) -> nat {
        Self::units_numerator(raw, exponent) / Self::units_denominator(exponent)
    }

    /// The quantity in units of `10^exponent`, rounded up.
    pub open spec fn spec_as_decimal_ceil(raw: nat, exponent: int) -> nat {
        div_ceil(Self::units_numerator(raw, exponent), Self::units_denominator(exponent))
    }

    /// The quantity in units of `10^exponent`, rounded to the nearest unit, a
    /// half rounded up.
    pub open spec fn spec_as_decimal_rounded(raw: nat, exponent: int) -> nat {
        div_nearest(Self::units_numerator(raw, exponent), Self::units_denominator(exponent))
    }

    /// `target` as a `u64`, or the overflow of this number where `target`
    /// does not fit in 64 bits.
    pub open spec fn narrowed(self, target: nat) -> Result<u64, Error> {
        if target <= u64::MAX {
            Ok(target as u64)
        } else {
            Err(Error::Overflow(self))
        }
    }

    /// The denominator of a quantity in units of `10^exponent` is positive
    /// and even.
    pub proof fn lemma_units_denominator(exponent: int)
        ensures
            Self::units_denominator(exponent) > 0,
            Self::units_denominator(exponent) % 2 == 0,
    {
        if exponent >= 0 {
            let t: nat = pow10(exponent as nat);
            lemma_pow10_positive(exponent as nat);
            assert(t * scale() == 2 * (t * 0x2_0000_0000_0000) && t * scale() > 0)
                by (nonlinear_arith)
                requires
                    t > 0,
                    scale() == 2 * 0x2_0000_0000_0000,
            ;
        }
    }

    /// The quantity in units of `10^exponent`: the quotient, the remainder
    /// and the divisor of the division that gives it. `None` where the
    /// numerator of that division is beyond 192 bits, and with it the
    /// quotient beyond 64.
    fn in_units(&self, exponent: i32) -> (r: Option<(U192, U192, U192)>)
        requires
            -16 <= exponent <= 16,
        ensures
            match r {
                Some((quotient, remainder, divisor)) => {
                    &&& divisor@ == Self::units_denominator(exponent as int)
                    &&& quotient@ == Self::units_numerator(self@, exponent as int) / divisor@
                    &&& remainder@ == Self::units_numerator(self@, exponent as int) % divisor@
                },
                None => {
                    &&& exponent < 0
                    &&& Self::units_numerator(self@, exponent as int) >= modulus()
                },
            },
    {
        proof {
            lemma2_to64_rest();
        }
        if exponent < 0 {
            let prec_value = Self::ten_pow((-exponent) as u32);
            match self.0.checked_mul(prec_value) {
                None => None,
                Some(numerator) => {
                    let quotient = numerator.shr(PRECISION as u32);
                    let low: u64 = numerator.lo % 0x4_0000_0000_0000;
                    proof {
                        numerator.lemma_limbs_of_view();
                        vstd::arithmetic::div_mod::lemma_mod_mod(
                            numerator@ as int,
                            0x4_0000_0000_0000,
                            0x4000,
                        );
                    }
                    Some(
                        (
                            quotient,
                            U192 { hi: 0, mid: 0, lo: low },
                            U192 { hi: 0, mid: 0, lo: 0x4_0000_0000_0000 },
                        ),
                    )
                },
            }
        } else {
            let prec_value = Self::ten_pow(exponent as u32);
            let divisor = prec_value.shl(PRECISION as u32);
            proof {
                lemma_pow10_positive(exponent as nat);
                lemma_pow10_increases(exponent as nat, 16);
                lemma_pow10_values();
                assert(0 < prec_value@ * scale() <= 10_000_000_000_000_000 * scale())
                    by (nonlinear_arith)
                    requires
                        0 < prec_value@ <= 10_000_000_000_000_000,
                        scale() > 0,
                ;
                lemma_small_mod(prec_value@ * scale(), modulus());
            }
            let (quotient, remainder) = self.0.div_mod(divisor);
            Some((quotient, remainder, divisor))
        }
    }

    /// The number in units of `10^exponent`, rounded down, for the exponents
    /// from -16 to 16, or the overflow where that does not fit in 64 bits.
    pub fn try_as_u64(&self, exponent: i32) -> (r: Result<u64, Error>)
        requires
            -16 <= exponent <= 16,
        ensures
            r == self.narrowed(Self::spec_as_decimal(self@, exponent as int)),
    {
        proof {
            Self::lemma_units_overflow(self@, exponent as int);
        }
        match self.in_units(exponent) {
            Some((quotient, _, _)) => {
                if quotient.fits_u64() {
                    Ok(quotient.as_u64())
                } else {
                    Err(Error::Overflow(*self))
                }
            },
            None => Err(Error::Overflow(*self)),
        }
    }

    /// The number in units of `10^exponent`, rounded down, for the exponents
    /// from -16 to 16. The result has to fit in 64 bits.
    pub fn as_u64(&self, exponent: i32) -> (r: u64)
        requires
            -16 <= exponent <= 16,
            Self::spec_as_decimal(self@, exponent as int) <= u64::MAX,
        ensures
            r == Self::spec_as_decimal(self@, exponent as int),
    {
        self.try_as_u64(exponent).expect("cannot convert to u64 due to overflow")
    }

    /// The number in units of `10^exponent`, rounded up, for the exponents
    /// from -16 to 16, or the overflow where that does not fit in 64 bits.
    pub fn try_as_u64_ceil(&self, exponent: i32) -> (r: Result<u64, Error>)
        requires
            -16 <= exponent <= 16,
        ensures
            r == self.narrowed(Self::spec_as_decimal_ceil(self@, exponent as int)),
    {
        proof {
            Self::lemma_units_overflow(self@, exponent as int);
            Self::lemma_units_denominator(exponent as int);
            lemma_div_ceil(
                Self::units_numerator(self@, exponent as int),
                Self::units_denominator(exponent as int),
            );
        }
        match self.in_units(exponent) {
            Some((quotient, remainder, _)) => {
                if !quotient.fits_u64() {
                    Err(Error::Overflow(*self))
                } else if remainder.is_zero() {
                    Ok(quotient.as_u64())
                } else if quotient.as_u64() == u64::MAX {
                    Err(Error::Overflow(*self))
                } else {
                    Ok(quotient.as_u64() + 1)
                }
            },
            None => Err(Error::Overflow(*self)),
        }
    }

    /// The number in units of `10^exponent`, rounded up, for the exponents
    /// from -16 to 16. The result has to fit in 64 bits.
    pub fn as_u64_ceil(&self, exponent: i32) -> (r: u64)
        requires
            -16 <= exponent <= 16,
            Self::spec_as_decimal_ceil(self@, exponent as int) <= u64::MAX,
        ensures
            r == Self::spec_as_decimal_ceil(self@, exponent as int),
    {
        self.try_as_u64_ceil(exponent).expect("cannot convert to u64 due to overflow")
    }

    /// The number in units of `10^exponent`, rounded to the nearest unit, a
    /// half rounded up, for the exponents from -16 to 16, or the overflow
    /// where that does not fit in 64 bits.
    pub fn try_as_u64_rounded(&self, exponent: i32) -> (r: Result<u64, Error>)
        requires
            -16 <= exponent <= 16,
        ensures
            r == self.narrowed(Self::spec_as_decimal_rounded(self@, exponent as int)),
    {
        proof {
            Self::lemma_units_overflow(self@, exponent as int);
            Self::lemma_units_denominator(exponent as int);
            lemma_div_nearest(
                Self::units_numerator(self@, exponent as int),
                Self::units_denominator(exponent as int),
            );
        }
        match self.in_units(exponent) {
            Some((quotient, remainder, divisor)) => {
                let rest = divisor.checked_sub(remainder).unwrap();
                if !quotient.fits_u64() {
                    Err(Error::Overflow(*self))
                } else if remainder < rest {
                    Ok(quotient.as_u64())
                } else if quotient.as_u64() == u64::MAX {
                    Err(Error::Overflow(*self))
                } else {
                    Ok(quotient.as_u64() + 1)
                }
            },
            None => Err(Error::Overflow(*self)),
        }
    }

    /// The number in units of `10^exponent`, rounded to the nearest unit, a
    /// half rounded up, for the exponents from -16 to 16. The result has to
    /// fit in 64 bits.
    pub fn as_u64_rounded(&self, exponent: i32) -> (r: u64)
        requires
            -16 <= exponent <= 16,
            Self::spec_as_decimal_rounded(self@, exponent as int) <= u64::MAX,
        ensures
            r == Self::spec_as_decimal_rounded(self@, exponent as int),
    {
        self.try_as_u64_rounded(exponent).expect("cannot convert to u64 due to overflow")
    }

    /// A numerator beyond 192 bits makes a quotient beyond 64 bits.
    proof fn lemma_units_overflow(raw: nat, exponent: int)
        ensures
            exponent < 0 && Self::units_numerator(raw, exponent) >= modulus()
                ==> Self::spec_as_decimal(raw, exponent) > u64::MAX,
    {
        if exponent < 0 {
            let n: nat = Self::units_numerator(raw, exponent);
            lemma_fundamental_div_mod(n as int, scale() as int);
        }
    }

    /// Rounding up or to the nearest never gives less than rounding down,
    /// rounding to the nearest never gives more than rounding up, and
    /// rounding up gives at most one more than rounding down.
    pub proof fn lemma_rounding_order(raw: nat, exponent: int)
        ensures
            Self::spec_as_decimal(raw, exponent) <= Self::spec_as_decimal_rounded(raw, exponent)
                <= Self::spec_as_decimal_ceil(raw, exponent) <= Self::spec_as_decimal(
                raw,
                exponent,
            ) + 1,
    {
        Self::lemma_units_denominator(exponent);
        lemma_div_nearest(Self::units_numerator(raw, exponent), Self::units_denominator(exponent));
    }

    /// The number `value * 10^exponent`, for the exponents from -16 to 16.
    ///
    /// `value * 2^50` is reduced to 192 bits before the power of ten is
    /// applied; a division by the power of ten rounds down.
    pub fn from_decimal<T: Widen<U192>>(value: T, exponent: i32) -> (r: Number)
        requires
            -16 <= exponent <= 16,
            exponent >= 0 ==> Self::spec_from_decimal(value.widen_spec()@, exponent as int)
                < modulus(),
        ensures
            r@ == Self::spec_from_decimal(value.widen_spec()@, exponent as int),
    {
        let wide: U192 = value.widen();
        let expanded = wide.shl(PRECISION as u32);
        proof {
            lemma2_to64_rest();
        }
        if exponent < 0 {
            let prec_value = Self::ten_pow((-exponent) as u32);
            proof {
                lemma_pow10_positive((-exponent) as nat);
            }
            Number(expanded.div_mod(prec_value).0)
        } else {
            let prec_value = Self::ten_pow(exponent as u32);
            Number(expanded.checked_mul(prec_value).unwrap())
        }
    }

    /// The number in units of `10^exponent`, rounded down, for the exponents
    /// from -16 to 16. For a negative exponent the raw value times the power
    /// of ten has to fit in 192 bits.
    pub fn as_decimal(&self, exponent: i32) -> (r: U192)
        requires
            -16 <= exponent <= 16,
            Self::units_numerator(self@, exponent as int) < modulus(),
        ensures
            r@ == Self::spec_as_decimal(self@, exponent as int),
    {
        self.in_units(exponent).unwrap().0
    }

    /// The number of `basis_points` basis points: `basis_points / 10^4`.
    pub fn from_bps(basis_points: u16) -> (r: Number)
        ensures
            r@ == (basis_points as nat * scale()) / 10_000,
    {
        proof {
            lemma_pow10_values();
            lemma_small_mod(basis_points as nat * scale(), modulus());
        }
        Self::from_decimal(basis_points, BPS_EXPONENT)
    }

    /// The raw value raised to the raw value of `exp`.
    ///
    /// Neither the base nor the exponent is rescaled.
    pub fn pow(&self, exp: Number) -> (r: Number)
        requires
            vstd::arithmetic::power::pow(self@ as int, exp@) < modulus(),
        ensures
            r@ == vstd::arithmetic::power::pow(self@ as int, exp@),
    {
        Number(self.0.pow(exp.0))
    }

    /// The sum of the raw values, or the largest number when it does not fit.
    pub fn saturating_add(&self, n: Number) -> (r: Number)
        ensures
            r@ == if self@ + n@ < modulus() { self@ + n@ } else { (modulus() - 1) as nat },
    {
        Number(self.0.saturating_add(n.0))
    }

    /// The difference of the raw values, or zero when `n` exceeds `self`.
    pub fn saturating_sub(&self, n: Number) -> (r: Number)
        ensures
            r@ == if self@ >= n@ { (self@ - n@) as nat } else { 0 },
    {
        Number(self.0.saturating_sub(n.0))
    }

    /// The product of the quantities, or the largest number when it does
    /// not fit: the product of the raw values divided by `2^50`, which is
    /// formed in full, so that only a product beyond 192 bits is replaced.
    pub fn saturating_mul(&self, n: Number) -> (r: Number)
        ensures
            r@ == if (self@ * n@) / scale() < modulus() {
                (self@ * n@) / scale()
            } else {
                (modulus() - 1) as nat
            },
    {
        let (low, high) = self.0.full_mul(n.0);
        let ghost product: nat = self@ * n@;
        // 2^142, the weight of the high half once the scale is divided out
        let ghost weight: nat = 0x4000 * limb_sq();
        proof {
            lemma2_to64();
            lemma2_to64_rest();
            lemma_pow2_limbs();
            lemma_pow2_adds(14, 128);
            assert(pow2(142) == weight);
            assert(scale() * weight == modulus());
            low.lemma_limbs_of_view();
            high.lemma_limbs_of_view();
            lemma_fundamental_div_mod(low@ as int, scale() as int);
            let q: nat = low@ / scale();
            let rest: nat = low@ % scale();
            assert(product == (high@ * weight + q) * scale() + rest) by (nonlinear_arith)
                requires
                    product == low@ + high@ * modulus(),
                    scale() * weight == modulus(),
                    low@ == scale() * q + rest,
            ;
            lemma_fundamental_div_mod_converse(
                product as int,
                scale() as int,
                (high@ * weight + q) as int,
                rest as int,
            );
            assert(q < weight) by (nonlinear_arith)
                requires
                    low@ == scale() * q + rest,
                    low@ < scale() * weight,
                    rest >= 0,
                    scale() > 0,
            ;
            assert(high@ >= scale() ==> high@ * weight >= modulus()) by (nonlinear_arith)
                requires
                    scale() * weight == modulus(),
                    weight > 0,
            ;
            assert(high@ < scale() ==> high@ * weight + weight <= modulus()) by (nonlinear_arith)
                requires
                    scale() * weight == modulus(),
                    weight > 0,
                    high@ >= 0,
            ;
        }
        if high.hi != 0 || high.mid != 0 || high.lo >= 0x4_0000_0000_0000 {
            Number(U192::max_value())
        } else {
            let upper = high.shl(142);
            let lower = low.shr(PRECISION as u32);
            proof {
                lemma_small_mod(high@ * weight, modulus());
            }
            Number(upper.checked_add(lower).unwrap())
        }
    }
}

impl PartialOrd for Number {
    /// The order of the raw values.
    fn partial_cmp(&self, other: &Number) -> (r: Option<Ordering>) {
        self.0.partial_cmp(&other.0)
    }
}

impl PartialOrdSpecImpl for Number {
    open spec fn obeys_partial_cmp_spec() -> bool {
        true
    }

    open spec fn partial_cmp_spec(&self, other: &Number) -> Option<Ordering> {
        if self@ < other@ {
            Some(Ordering::Less)
        } else if self@ == other@ {
            Some(Ordering::Equal)
        } else {
            Some(Ordering::Greater)
        }
    }
}

impl Default for Number {
    fn default() -> (r: Number)
        ensures
            r@ == 0,
    {
        Number(U192::zero())
    }
}

impl<T: Widen<U192>> From<T> for Number {
    /// The integer `n` as a number: the raw value is `n * 2^50`, reduced to
    /// 192 bits.
    fn from(n: T) -> (r: Number) {
        let wide: U192 = n.widen();
        let raw = wide.shl(PRECISION as u32);
        proof {
            lemma2_to64_rest();
            raw.lemma_view_bounds();
        }
        Number(raw)
    }
}

impl<T: Widen<U192>> FromSpecImpl<T> for Number {
    open spec fn obeys_from_spec() -> bool {
        true
    }

    open spec fn from_spec(n: T) -> Number {
        Number::of_raw((n.widen_spec()@ * scale()) % modulus())
    }
}

impl Add<Number> for Number {
    type Output = Number;

    /// The sum, which has to fit in 192 bits.
    fn add(self, rhs: Number) -> (r: Number)
        ensures
            r@ == self@ + rhs@,
    {
        let sum = self.0.checked_add(rhs.0).unwrap();
        proof {
            sum.lemma_view_bounds();
        }
        Number(sum)
    }
}

impl AddSpecImpl<Number> for Number {
    open spec fn obeys_add_spec() -> bool {
        true
    }

    open spec fn add_req(self, rhs: Number) -> bool {
        self@ + rhs@ < modulus()
    }

    open spec fn add_spec(self, rhs: Number) -> Number {
        self.spec_add(rhs)
    }
}

impl AddAssign<Number> for Number {
    /// Adds `rhs`; the sum has to fit in 192 bits.
    fn add_assign(&mut self, rhs: Number)
        requires
            old(self)@ + rhs@ < modulus(),
        ensures
            final(self)@ == old(self)@ + rhs@,
    {
        self.0 = self.0.checked_add(rhs.0).unwrap();
    }
}

impl Sub<Number> for Number {
    type Output = Number;

    /// The difference, for `rhs` at most `self`.
    fn sub(self, rhs: Number) -> (r: Number)
        ensures
            r@ == self@ - rhs@,
    {
        let diff = self.0.checked_sub(rhs.0).unwrap();
        proof {
            diff.lemma_view_bounds();
        }
        Number(diff)
    }
}

impl SubSpecImpl<Number> for Number {
    open spec fn obeys_sub_spec() -> bool {
        true
    }

    open spec fn sub_req(self, rhs: Number) -> bool {
        self@ >= rhs@
    }

    open spec fn sub_spec(self, rhs: Number) -> Number {
        self.spec_sub(rhs)
    }
}

impl SubAssign<Number> for Number {
    /// Subtracts `rhs`, which is at most `self`.
    fn sub_assign(&mut self, rhs: Number)
        requires
            old(self)@ >= rhs@,
        ensures
            final(self)@ == old(self)@ - rhs@,
    {
        self.0 = self.0.checked_sub(rhs.0).unwrap();
    }
}

impl Mul<Number> for Number {
    type Output = Number;

    /// The product of the quantities: the product of the raw values, which
    /// has to fit in 192 bits, divided by `2^50`.
    fn mul(self, rhs: Number) -> (r: Number)
        ensures
            r@ == (self@ * rhs@) / scale(),
    {
        proof {
            lemma2_to64_rest();
        }
        let product = self.0.checked_mul(rhs.0).unwrap().shr(PRECISION as u32);
        proof {
            product.lemma_view_bounds();
        }
        Number(product)
    }
}

impl MulSpecImpl<Number> for Number {
    open spec fn obeys_mul_spec() -> bool {
        true
    }

    open spec fn mul_req(self, rhs: Number) -> bool {
        self@ * rhs@ < modulus()
    }

    open spec fn mul_spec(self, rhs: Number) -> Number {
        self.spec_mul(rhs)
    }
}

impl MulAssign<Number> for Number {
    /// Multiplies by `rhs`, as `*` does.
    fn mul_assign(&mut self, rhs: Number)
        requires
            old(self)@ * rhs@ < modulus(),
        ensures
            final(self)@ == (old(self)@ * rhs@) / scale(),
    {
        proof {
            lemma2_to64_rest();
        }
        self.0 = self.0.checked_mul(rhs.0).unwrap().shr(PRECISION as u32);
    }
}

impl Div<Number> for Number {
    type Output = Number;

    /// The quotient of the quantities: the raw value times `2^50`, reduced
    /// to 192 bits, divided by the raw value of `rhs`, which is not zero.
    fn div(self, rhs: Number) -> (r: Number)
        ensures
            r@ == ((self@ * scale()) % modulus()) / rhs@,
    {
        proof {
            lemma2_to64_rest();
        }
        let quotient = self.0.shl(PRECISION as u32).div_mod(rhs.0).0;
        proof {
            quotient.lemma_view_bounds();
        }
        Number(quotient)
    }
}

impl DivSpecImpl<Number> for Number {
    open spec fn obeys_div_spec() -> bool {
        true
    }

    open spec fn div_req(self, rhs: Number) -> bool {
        rhs@ != 0
    }

    open spec fn div_spec(self, rhs: Number) -> Number {
        self.spec_div(rhs)
    }
}

impl<T: Widen<U192>> Mul<T> for Number {
    type Output = Number;

    /// The number times the integer `rhs`; the product has to fit in 192
    /// bits.
    fn mul(self, rhs: T) -> (r: Number)
        ensures
            r@ == self@ * rhs.widen_spec()@,
    {
        let factor: U192 = rhs.widen();
        let product = self.0.checked_mul(factor).unwrap();
        proof {
            product.lemma_view_bounds();
        }
        Number(product)
    }
}

impl<T: Widen<U192>> MulSpecImpl<T> for Number {
    open spec fn obeys_mul_spec() -> bool {
        true
    }

    open spec fn mul_req(self, rhs: T) -> bool {
        self@ * rhs.widen_spec()@ < modulus()
    }

    open spec fn mul_spec(self, rhs: T) -> Number {
        Number::of_raw(self@ * rhs.widen_spec()@)
    }
}

impl<T: Widen<U192>> Div<T> for Number {
    type Output = Number;

    /// The number divided by the integer `rhs`, which is not zero, rounded
    /// down.
    fn div(self, rhs: T) -> (r: Number)
        ensures
            r@ == self@ / rhs.widen_spec()@,
    {
        let divisor: U192 = rhs.widen();
        let quotient = self.0.div_mod(divisor).0;
        proof {
            quotient.lemma_view_bounds();
        }
        Number(quotient)
    }
}

impl<T: Widen<U192>> DivSpecImpl<T> for Number {
    open spec fn obeys_div_spec() -> bool {
        true
    }

    open spec fn div_req(self, rhs: T) -> bool {
        rhs.widen_spec()@ != 0
    }

    open spec fn div_spec(self, rhs: T) -> Number {
        Number::of_raw(self@ / rhs.widen_spec()@)
    }
}

/// The number of decimal digits that the text of a number shows after the
/// point. It is the largest count of decimal digits that 50 bits tell apart:
/// `10^15 < 2^50 < 10^16`.
pub const DECIMAL_DIGITS: u32 = 15;

/// `10^15`: the number of units of the last decimal digit in one.
pub open spec fn decimal_unit() -> nat {
    1_000_000_000_000_000
}

impl Number {
    /// The quantity in units of `10^-15`, rounded up.
    ///
    /// Rounding up undoes the rounding down of `from_decimal`: see
    /// `lemma_decimal_read_back`.
    pub open spec fn spec_decimal_scaled(raw: nat) -> nat {
        div_ceil(raw * decimal_unit(), scale())
    }

    /// The text of the number with the raw value `raw`: the integer part, a
    /// point, and up to 15 decimal digits without trailing zeros.
    pub open spec fn spec_to_string(raw: nat) -> Seq<char> {
        let scaled = Self::spec_decimal_scaled(raw);
        digits(scaled / decimal_unit()) + seq!['.'] + fraction_digits(
            scaled % decimal_unit(),
            DECIMAL_DIGITS as nat,
        )
    }

    /// The number as decimal text, rounded up to 15 decimal digits.
    pub fn to_string(&self) -> (r: String)
        ensures
            r@ == Self::spec_to_string(self@),
    {
        let whole = self.0.shr(PRECISION as u32);
        let rem: u64 = self.0.lo % 0x4_0000_0000_0000;
        proof {
            lemma2_to64_rest();
            self.0.lemma_limbs_of_view();
            vstd::arithmetic::div_mod::lemma_mod_mod(self@ as int, 0x4_0000_0000_0000, 0x4000);
            lemma_fundamental_div_mod(self@ as int, scale() as int);
        }
        let lifted: u128 = rem as u128 * 1_000_000_000_000_000 + 0x3_ffff_ffff_ffff;
        let up: u128 = lifted / 0x4_0000_0000_0000;
        proof {
            lemma_fundamental_div_mod(lifted as int, scale() as int);
            assert(self@ * decimal_unit() + scale() - 1 == (whole@ * decimal_unit() + up) * scale()
                + lifted % 0x4_0000_0000_0000) by (nonlinear_arith)
                requires
                    self@ == scale() * whole@ + rem,
                    lifted == rem * decimal_unit() + scale() - 1,
                    lifted == scale() * up + lifted % 0x4_0000_0000_0000,
            ;
            lemma_fundamental_div_mod_converse(
                self@ * decimal_unit() + scale() - 1,
                scale() as int,
                whole@ * decimal_unit() + up,
                (lifted % 0x4_0000_0000_0000) as int,
            );
            assert(Self::spec_decimal_scaled(self@) == whole@ * decimal_unit() + up);
            whole.lemma_limbs_of_view();
        }
        let (int_part, frac) = if up == 1_000_000_000_000_000 {
            (whole.checked_add(U192::one()).unwrap(), 0u64)
        } else {
            (whole, up as u64)
        };
        proof {
            assert(int_part@ * decimal_unit() + frac == Self::spec_decimal_scaled(self@))
                by (nonlinear_arith)
                requires
                    Self::spec_decimal_scaled(self@) == whole@ * decimal_unit() + up,
                    up == decimal_unit() ==> int_part@ == whole@ + 1 && frac == 0,
                    up != decimal_unit() ==> int_part@ == whole@ && frac == up,
            ;
            lemma_fundamental_div_mod_converse(
                Self::spec_decimal_scaled(self@) as int,
                decimal_unit() as int,
                int_part@ as int,
                frac as int,
            );
        }
        let mut s = String::new();
        int_part.push_digits(&mut s);
        s.push('.');
        push_fraction_digits(&mut s, frac, DECIMAL_DIGITS);
        assert(s@ =~= Self::spec_to_string(self@));
        s
    }
}

impl Number {
    /// The 24 bytes of the number in memory on a machine of the given byte
    /// order: the three limbs from the least significant on, each in that
    /// order.
    pub open spec fn spec_to_bytes(self, little_endian: bool) -> Seq<u8> {
        limb_bytes(self.0.lo, little_endian) + limb_bytes(self.0.mid, little_endian) + limb_bytes(
            self.0.hi,
            little_endian,
        )
    }

    /// The number that 24 bytes stand for on a machine of the given byte
    /// order.
    pub open spec fn spec_from_bytes(bytes: Seq<u8>, little_endian: bool) -> Number {
        Number(
            U192 {
                hi: limb_value(bytes.subrange(16, 24), little_endian) as u64,
                mid: limb_value(bytes.subrange(8, 16), little_endian) as u64,
                lo: limb_value(bytes.subrange(0, 8), little_endian) as u64,
            },
        )
    }

    /// The bytes of the number for the given byte order.
    pub fn to_bytes(self, little_endian: bool) -> (r: [u8; 24])
        ensures
            r@ == self.spec_to_bytes(little_endian),
    {
        limbs_to_bytes(self.0.lo, self.0.mid, self.0.hi, little_endian)
    }

    /// The number that the bytes stand for in the given byte order.
    pub fn from_bytes(bits: [u8; 24], little_endian: bool) -> (r: Number)
        ensures
            r == Self::spec_from_bytes(bits@, little_endian),
    {
        let lo = read_limb(&bits, 0, little_endian);
        let mid = read_limb(&bits, 8, little_endian);
        let hi = read_limb(&bits, 16, little_endian);
        Number(U192 { hi, mid, lo })
    }

    /// The bytes of the number as it lies in memory: the limbs from the
    /// least significant on, each in the byte order of the machine.
    pub fn into_bits(self) -> (r: [u8; 24])
        ensures
            r@ == self.spec_to_bytes(true) || r@ == self.spec_to_bytes(false),
    {
        self.to_bytes(native_is_little_endian())
    }

    /// The number whose bytes in memory are `bits`, as `into_bits` gave them.
    pub fn from_bits(bits: [u8; 24]) -> (r: Number)
        ensures
            r == Self::spec_from_bytes(bits@, true) || r == Self::spec_from_bytes(bits@, false),
    {
        Self::from_bytes(bits, native_is_little_endian())
    }

    /// A number survives the trip through its bytes, in either byte order.
    pub proof fn lemma_bytes_round_trip(self, little_endian: bool)
        ensures
            self.spec_to_bytes(little_endian).len() == 24,
            Self::spec_from_bytes(self.spec_to_bytes(little_endian), little_endian) == self,
    {
        let bytes = self.spec_to_bytes(little_endian);
        lemma_limb_round_trip(self.0.lo, little_endian);
        lemma_limb_round_trip(self.0.mid, little_endian);
        lemma_limb_round_trip(self.0.hi, little_endian);
        assert(bytes.subrange(0, 8) =~= limb_bytes(self.0.lo, little_endian));
        assert(bytes.subrange(8, 16) =~= limb_bytes(self.0.mid, little_endian));
        assert(bytes.subrange(16, 24) =~= limb_bytes(self.0.hi, little_endian));
    }

    /// Twenty-four bytes survive the trip through the number that they stand
    /// for, in either byte order.
    pub proof fn lemma_number_round_trip(bytes: Seq<u8>, little_endian: bool)
        requires
            bytes.len() == 24,
        ensures
            Self::spec_from_bytes(bytes, little_endian).spec_to_bytes(little_endian) == bytes,
    {
        lemma_bytes_round_trip(bytes.subrange(0, 8), little_endian);
        lemma_bytes_round_trip(bytes.subrange(8, 16), little_endian);
        lemma_bytes_round_trip(bytes.subrange(16, 24), little_endian);
        assert(Self::spec_from_bytes(bytes, little_endian).spec_to_bytes(little_endian) =~= bytes);
    }

    /// The sum of the raw values of `values`.
    pub open spec fn spec_sum(values: Seq<Number>) -> nat
        decreases values.len(),
    {
        if values.len() == 0 {
            0
        } else {
            Self::spec_sum(values.drop_last()) + values.last()@
        }
    }

    /// The sum of a prefix is at most the sum of the whole.
    pub proof fn lemma_sum_prefix(values: Seq<Number>, len: int)
        requires
            0 <= len <= values.len(),
        ensures
            Self::spec_sum(values.take(len)) <= Self::spec_sum(values),
        decreases values.len(),
    {
        if len == values.len() {
            assert(values.take(len) =~= values);
        } else {
            Self::lemma_sum_prefix(values.drop_last(), len);
            assert(values.drop_last().take(len) =~= values.take(len));
        }
    }

    /// The sum of `values`, which has to fit in 192 bits.
    pub fn sum(values: &[Number]) -> (r: Number)
        requires
            Self::spec_sum(values@) < modulus(),
        ensures
            r@ == Self::spec_sum(values@),
    {
        let mut total = U192::zero();
        let mut i: usize = 0;
        assert(values@.take(0) =~= Seq::<Number>::empty());
        while i < values.len()
            invariant
                i <= values@.len(),
                total@ == Self::spec_sum(values@.take(i as int)),
                Self::spec_sum(values@) < modulus(),
            decreases values@.len() - i,
        {
            proof {
                Self::lemma_sum_prefix(values@, i + 1);
                assert(values@.take(i + 1).drop_last() =~= values@.take(i as int));
            }
            total = total.checked_add(values[i].0).unwrap();
            i = i + 1;
        }
        assert(values@.take(i as int) =~= values@);
        Number(total)
    }
}

impl Number {
    /// The 24 bytes of the raw value, most significant first.
    pub open spec fn spec_be_bytes(self) -> Seq<u8> {
        limb_bytes(self.0.hi, false) + limb_bytes(self.0.mid, false) + limb_bytes(self.0.lo, false)
    }
}

impl From<Number> for [u8; 24] {
    /// The 24 bytes of the raw value, most significant first.
    fn from(n: Number) -> (r: [u8; 24])
        ensures
            r@ == n.spec_be_bytes(),
    {
        let out = limbs_to_bytes(n.0.hi, n.0.mid, n.0.lo, false);
        proof {
            let chosen = choose|a: [u8; 24]| a@ == n.spec_be_bytes();
            assert(chosen@ == out@);
            assert(chosen =~= out);
        }
        out
    }
}

impl FromSpecImpl<Number> for [u8; 24] {
    open spec fn obeys_from_spec() -> bool {
        true
    }

    /// The array that holds the bytes of the raw value, most significant
    /// first.
    open spec fn from_spec(n: Number) -> [u8; 24] {
        choose|a: [u8; 24]| a@ == n.spec_be_bytes()
    }
}

/// What can go wrong in a calculation.
#[derive(Debug, Clone, PartialEq, Eq)]
pub enum Error {
    /// A value does not fit where it was to go; it carries that value.
    Overflow(Number),
    /// The divisor was zero.
    DivideByZero,
}

impl Error {
    /// The message of the error.
    pub fn to_string(&self) -> (r: String)
        ensures
            self is Overflow ==> r@ == "An integer value overflowed"@,
            self is DivideByZero ==> r@ == "Attempting to divide by zero"@,
    {
        match self {
            Error::Overflow(_) => String::from_str("An integer value overflowed"),
            Error::DivideByZero => String::from_str("Attempting to divide by zero"),
        }
    }
}

impl Number {
    /// Converting an integer with `from_decimal` and back with `as_decimal`,
    /// at the same exponent, gives the integer again.
    ///
    /// This holds where `from_decimal` loses nothing: `n * 2^50` fits in 192
    /// bits, and for a negative exponent the power of ten divides `n * 2^50`.
    pub proof fn lemma_decimal_round_trip(n: nat, exponent: int)
        requires
            -16 <= exponent <= 16,
            n * scale() < modulus(),
            exponent >= 0 ==> n * scale() * pow10(exponent as nat) < modulus(),
            exponent < 0 ==> (n * scale()) % pow10((-exponent) as nat) == 0,
        ensures
            Self::spec_as_decimal(Self::spec_from_decimal(n, exponent), exponent) == n,
    {
        let expanded: nat = n * scale();
        lemma_small_mod(expanded, modulus());
        if exponent < 0 {
            let t: nat = pow10((-exponent) as nat);
            lemma_pow10_positive((-exponent) as nat);
            lemma_fundamental_div_mod(expanded as int, t as int);
            assert((expanded / t) * t == expanded) by (nonlinear_arith)
                requires
                    expanded == t * (expanded / t) + expanded % t,
                    expanded % t == 0,
            ;
            lemma_fundamental_div_mod_converse(expanded as int, scale() as int, n as int, 0);
        } else {
            let t: nat = pow10(exponent as nat);
            lemma_pow10_positive(exponent as nat);
            assert(expanded * t == n * (t * scale()) && t * scale() > 0) by (nonlinear_arith)
                requires
                    expanded == n * scale(),
                    t > 0,
                    scale() > 0,
            ;
            lemma_fundamental_div_mod_converse(
                (expanded * t) as int,
                (t * scale()) as int,
                n as int,
                0,
            );
        }
    }

    /// With a negative exponent the trip through `from_decimal` and
    /// `as_decimal` never gives more than the integer, and gives less where
    /// the power of ten does not divide `n * 2^50`.
    pub proof fn lemma_decimal_round_trip_loss(n: nat, exponent: int)
        requires
            -16 <= exponent < 0,
            n * scale() < modulus(),
        ensures
            Self::spec_as_decimal(Self::spec_from_decimal(n, exponent), exponent) <= n,
            (n * scale()) % pow10((-exponent) as nat) != 0 ==> Self::spec_as_decimal(
                Self::spec_from_decimal(n, exponent),
                exponent,
            ) < n,
    {
        let expanded: nat = n * scale();
        let t: nat = pow10((-exponent) as nat);
        lemma_small_mod(expanded, modulus());
        lemma_pow10_positive((-exponent) as nat);
        lemma_fundamental_div_mod(expanded as int, t as int);
        let q: nat = expanded / t;
        let r: nat = expanded % t;
        let back: nat = q * t;
        assert(back == expanded - r) by (nonlinear_arith)
            requires
                expanded == t * q + r,
                back == q * t,
        ;
        lemma_fundamental_div_mod(back as int, scale() as int);
        assert(back / scale() <= n && (back < expanded ==> back / scale() < n))
            by (nonlinear_arith)
            requires
                back == scale() * (back / scale()) + back % scale(),
                0 <= back % scale() < scale(),
                back <= expanded,
                expanded == n * scale(),
        ;
    }

    /// The text of a number that `from_decimal` made of a decimal with up
    /// to 15 digits after the point shows that decimal: the number in units
    /// of `10^-15` is `n * 10^(15 - digits)`.
    pub proof fn lemma_decimal_read_back(n: nat, digits: nat)
        requires
            digits <= 15,
            n * scale() < modulus(),
        ensures
            Self::spec_decimal_scaled(Self::spec_from_decimal(n, -(digits as int))) == n * pow10(
                (15 - digits) as nat,
            ),
    {
        let t: nat = pow10(digits);
        let u: nat = pow10((15 - digits) as nat);
        let shown: nat = n * u;
        let expanded: nat = n * scale();
        lemma_pow10_positive(digits);
        lemma_pow10_positive((15 - digits) as nat);
        lemma_pow10_adds(digits, (15 - digits) as nat);
        lemma_pow10_values();
        assert(t * u == decimal_unit());
        lemma_small_mod(expanded, modulus());
        let raw: nat = expanded / t;
        lemma_fundamental_div_mod(expanded as int, t as int);
        if digits == 0 {
            assert(expanded * t == expanded && expanded / t == expanded) by (nonlinear_arith)
                requires
                    t == 1,
            ;
        }
        assert(Self::spec_from_decimal(n, -(digits as int)) == raw);
        // raw * 10^15 lies in (shown * 2^50 - 2^50, shown * 2^50]
        let lifted: nat = raw * decimal_unit();
        assert(lifted <= shown * scale() && shown * scale() - lifted < scale()) by (nonlinear_arith)
            requires
                expanded == t * raw + expanded % t,
                0 <= expanded % t < t,
                expanded == n * scale(),
                lifted == raw * decimal_unit(),
                t * u == decimal_unit(),
                shown == n * u,
                decimal_unit() < scale(),
                u > 0,
                t > 0,
        ;
        let rest: int = lifted + scale() - 1 - scale() * shown;
        assert(scale() * shown == shown * scale()) by (nonlinear_arith);
        lemma_fundamental_div_mod_converse(
            lifted + scale() - 1,
            scale() as int,
            shown as int,
            lifted + scale() - 1 - shown * scale(),
        );
    }

    /// Adding zero changes nothing, and neither does multiplying by one
    /// where the product of the raw values fits in 192 bits.
    pub proof fn lemma_identities(a: Number)
        ensures
            a.spec_add(Number::of_raw(0)) == a,
            a@ * scale() < modulus() ==> a.spec_mul(Number::of_raw(scale())) == a,
    {
        a.0.lemma_view_bounds();
        U192::lemma_from_nat_view(0);
        U192::lemma_from_nat_view(scale());
        if a@ * scale() < modulus() {
            lemma_fundamental_div_mod_converse((a@ * scale()) as int, scale() as int, a@ as int, 0);
        }
    }

    /// Dividing by `b` and multiplying by `b` again gives `a` less the
    /// rounding of the division: the remainder of the division, in raw
    /// units, rounded up.
    pub proof fn lemma_div_then_mul(a: Number, b: Number)
        requires
            b@ != 0,
            a@ * scale() < modulus(),
        ensures
            a.spec_div(b)@ * b@ < modulus(),
            a.spec_div(b).spec_mul(b)@ == a@ - div_ceil((a@ * scale()) % b@, scale()),
    {
        let lifted: nat = a@ * scale();
        let q: nat = lifted / b@;
        let r: nat = lifted % b@;
        lemma_small_mod(lifted, modulus());
        lemma_fundamental_div_mod(lifted as int, b@ as int);
        assert(q * b@ == lifted - r) by (nonlinear_arith)
            requires
                lifted == b@ * q + r,
        ;
        U192::lemma_from_nat_view(q);
        assert(q <= lifted) by (nonlinear_arith)
            requires
                q * b@ == lifted - r,
                b@ >= 1,
                r >= 0,
        ;
        let back: nat = (q * b@) / scale();
        lemma_div_ceil(r, scale());
        let lost: nat = div_ceil(r, scale());
        // lifted - r == (a - lost) * scale + (lost * scale - r)
        lemma_fundamental_div_mod(r as int, scale() as int);
        assert(lost * scale() >= r && lost * scale() - r < scale()) by (nonlinear_arith)
            requires
                lost == r / scale() + if r % scale() == 0 { 0nat } else { 1nat },
                r == scale() * (r / scale()) + r % scale(),
                0 <= r % scale() < scale(),
        ;
        assert(lost <= a@) by (nonlinear_arith)
            requires
                lost * scale() - r < scale(),
                r <= a@ * scale(),
                lost >= 0,
        ;
        assert(lifted - r == (a@ - lost) * scale() + (lost * scale() - r)) by (nonlinear_arith)
            requires
                lifted == a@ * scale(),
        ;
        lemma_fundamental_div_mod_converse(
            (q * b@) as int,
            scale() as int,
            a@ - lost,
            lost * scale() - r,
        );
        U192::lemma_from_nat_view(back);
        a.0.lemma_view_bounds();
    }

    /// Dividing by `b` and multiplying by `b` again gives `a` or one raw unit
    /// less, where the remainder of the division is at most `2^50`; every
    /// divisor up to one has such a remainder.
    pub proof fn lemma_div_then_mul_within_one(a: Number, b: Number)
        requires
            b@ != 0,
            a@ * scale() < modulus(),
            (a@ * scale()) % b@ <= scale(),
        ensures
            a@ - 1 <= a.spec_div(b).spec_mul(b)@ <= a@,
    {
        Self::lemma_div_then_mul(a, b);
        lemma_div_ceil((a@ * scale()) % b@, scale());
        let r: nat = (a@ * scale()) % b@;
        if r == scale() {
            lemma_fundamental_div_mod_converse(r as int, scale() as int, 1, 0);
        } else {
            lemma_basic_div(r as int, scale() as int);
        }
    }
}

} // verus!
