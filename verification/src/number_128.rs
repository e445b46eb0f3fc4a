//! A signed decimal number with ten fractional digits, held in 128 bits.

use crate::arith::{
    div_ceil, div_toward_zero, lemma_div_ceil, lemma_div_toward_zero_positive,
    lemma_pow10_positive, lemma_pow10_values, magnitude, pow10,
};
use crate::bytes::{
    lemma_bytes_round_trip, lemma_limb_round_trip, limb_bytes, limb_value,
    native_is_little_endian, read_limb, write_limb,
};
use crate::guard::demand;
use crate::number::BPS_EXPONENT;
use crate::text::{digits, fraction_digits, push_digits, push_fraction_digits};
use crate::widen::Widen;
use std::cmp::Ordering;
use std::ops::{Add, AddAssign, Div, DivAssign, Mul, MulAssign, Neg, Sub, SubAssign};
use vstd::arithmetic::div_mod::{
    lemma_basic_div, lemma_fundamental_div_mod, lemma_fundamental_div_mod_converse,
};
use vstd::prelude::*;
use vstd::std_specs::cmp::PartialOrdSpecImpl;
use vstd::std_specs::convert::FromSpecImpl;
use vstd::std_specs::ops::{AddSpecImpl, DivSpecImpl, MulSpecImpl, NegSpecImpl, SubSpecImpl};
use vstd::string::StringExecFns;

verus! {

/// The number of fractional decimal digits.
pub const PRECISION: i32 = 10;

/// The raw value that stands for the quantity one: `10^10`.
pub const ONE: i128 = 10_000_000_000;

/// A signed fixed-point decimal number, 128 bits wide.
///
/// The raw value `r` stands for the quantity `r / 10^10`.
#[derive(Debug, Copy, Clone, PartialEq, Eq, Ord, Structural)]
pub struct Number128(pub i128);

impl View for Number128 {
    type V = int;

    /// The raw backing integer.
    open spec fn view(&self) -> int {
        self.0 as int
    }
}

/// Why a number has no value in 64 bits without a sign.
#[derive(Debug, Copy, Clone, PartialEq, Eq, Structural)]
pub enum NarrowingError {
    /// The number is larger than 64 bits hold.
    Overflow,
    /// The number is negative.
    Negative,
}

impl NarrowingError {
    /// The message of the error.
    pub fn to_string(&self) -> (r: String)
        ensures
            r@ == match self {
                NarrowingError::Overflow => "cannot convert to u64 due to overflow"@,
                NarrowingError::Negative => "cannot convert to u64 because value < 0"@,
            },
    {
        match self {
            NarrowingError::Overflow => String::from_str("cannot convert to u64 due to overflow"),
            NarrowingError::Negative => String::from_str("cannot convert to u64 because value < 0"),
        }
    }
}

/// Ten to the power `index`, for the indices up to 12.
pub fn power_of_ten(index: u32) -> (r: i128)
    requires
        index <= 12,
    ensures
        r == pow10(index as nat),
{
    proof {
        lemma_pow10_values();
    }
    demand(index <= 12, "no support for exponent");
    match index {
        12 => 1_000_000_000_000,
        11 => 100_000_000_000,
        10 => 10_000_000_000,
        9 => 1_000_000_000,
        8 => 100_000_000,
        7 => 10_000_000,
        6 => 1_000_000,
        5 => 100_000,
        4 => 10_000,
        3 => 1_000,
        2 => 100,
        1 => 10,
        _ => 1,
    }
}

/// `a / b` as the machine divides: rounded toward zero.
pub fn divide(a: i128, b: i128) -> (r: i128)
    requires
        b != 0,
        !(a == i128::MIN && b == -1),
    ensures
        r == div_toward_zero(a as int, b as int),
{
    proof {
        let x: int = magnitude(a as int) as int;
        let m: int = magnitude(b as int) as int;
        if b < 0 {
            lemma_div_by_negative(x, b as int);
        }
        assert(0 <= x / m <= x && (m >= 2 ==> 2 * (x / m) <= x)) by (nonlinear_arith)
            requires
                x >= 0,
                m >= 1,
        ;
    }
    a / b
}

/// Dividing a number that is not negative by a negative one gives the
/// negated quotient of the magnitudes.
proof fn lemma_div_by_negative(x: int, d: int)
    requires
        x >= 0,
        d < 0,
    ensures
        x / d == -(x / (-d)),
{
    let q: int = x / (-d);
    let r: int = x % (-d);
    vstd::arithmetic::div_mod::lemma_fundamental_div_mod(x, -d);
    assert(x == (-q) * d + r) by (nonlinear_arith)
        requires
            x == (-d) * q + r,
    ;
    lemma_euclid_unique(x, d, -q, r);
}

/// The quotient of the division with a remainder from zero up to the
/// magnitude of the divisor is the one that `/` gives.
proof fn lemma_euclid_unique(x: int, d: int, q: int, r: int)
    requires
        d < 0,
        0 <= r < -d,
        x == q * d + r,
    ensures
        x / d == q,
{
    let q0: int = x / d;
    let r0: int = x % d;
    assert(x == d * q0 + r0 && 0 <= r0 < -d) by (nonlinear_arith)
        requires
            d < 0,
            q0 == x / d,
            r0 == x % d,
    ;
    assert(q0 == q) by (nonlinear_arith)
        requires
            x == d * q0 + r0,
            x == q * d + r,
            0 <= r0 < -d,
            0 <= r < -d,
            d < 0,
    ;
}

impl Number128 {
    /// The number of bits of the backing integer.
    pub const BITS: u32 = 128;

    /// What the decimal conversions make of a raw value `value` and an
    /// exponent: `value * 10^shift`, rounded toward zero.
    pub open spec fn rescale(value: int, shift: int) -> int {
        if shift < 0 {
            div_toward_zero(value, pow10((-shift) as nat) as int)
        } else {
            value * pow10(shift as nat)
        }
    }

    /// The sum: the sum of the raw values.
    pub open spec fn spec_add(self, rhs: Number128) -> Number128 {
        Number128((self@ + rhs@) as i128)
    }

    /// The difference: the difference of the raw values.
    pub open spec fn spec_sub(self, rhs: Number128) -> Number128 {
        Number128((self@ - rhs@) as i128)
    }

    /// The product of the quantities: the product of the raw values divided
    /// by `10^10` and rounded toward zero.
    pub open spec fn spec_mul(self, rhs: Number128) -> Number128 {
        Number128(div_toward_zero(self@ * rhs@, ONE as int) as i128)
    }

    /// The quotient of the quantities: the raw value times `10^10`, divided
    /// by the raw value of `rhs` and rounded toward zero.
    pub open spec fn spec_div(self, rhs: Number128) -> Number128 {
        Number128(div_toward_zero(self@ * ONE, rhs@) as i128)
    }

    /// The quantity one.
    pub fn one() -> (r: Number128)
        ensures
            r@ == ONE,
    {
        Number128(ONE)
    }

    /// The quantity zero.
    pub fn zero() -> (r: Number128)
        ensures
            r@ == 0,
    {
        Number128(0)
    }

    /// The largest number.
    pub fn max_value() -> (r: Number128)
        ensures
            r@ == i128::MAX,
    {
        Number128(i128::MAX)
    }

    /// The smallest number.
    pub fn min_value() -> (r: Number128)
        ensures
            r@ == i128::MIN,
    {
        Number128(i128::MIN)
    }

    /// The underlying raw value.
    pub fn to_i128(self) -> (r: i128)
        ensures
            r == self@,
    {
        self.0
    }

    /// The number with the raw value `value`.
    pub fn from_i128(value: i128) -> (r: Number128)
        ensures
            r@ == value,
    {
        Number128(value)
    }
}

impl Number128 {
    /// The number in units of `10^exponent`, rounded toward zero, for the
    /// exponents from -22 to 2. The result is not negative and fits in 64
    /// bits.
    pub fn as_u64(&self, exponent: i32) -> (r: u64)
        requires
            -12 <= PRECISION + exponent <= 12,
            0 <= Self::rescale(self@, -(PRECISION + exponent)) <= u64::MAX,
        ensures
            r == Self::rescale(self@, -(PRECISION + exponent)),
    {
        let converted = self.try_as_u64(exponent);
        let message = match converted {
            Err(NarrowingError::Negative) => "cannot convert to u64 because value < 0",
            _ => "cannot convert to u64 due to overflow",
        };
        converted.expect(message)
    }

    /// The number in units of `10^exponent`, rounded toward zero, for the
    /// exponents from -22 to 2, or why it has no value in 64 bits.
    pub fn try_as_u64(&self, exponent: i32) -> (r: Result<u64, NarrowingError>)
        requires
            -12 <= PRECISION + exponent <= 12,
        ensures
            r == Self::spec_try_as_u64(self@, exponent as int),
    {
        let extra_precision: i32 = PRECISION + exponent;
        let ghost target: int = Self::rescale(self@, -(PRECISION + exponent));
        let target_value: i128 = if extra_precision < 0 {
            let prec_value = power_of_ten((-extra_precision) as u32);
            proof {
                lemma_pow10_positive((-extra_precision) as nat);
                assert(target == self.0 * prec_value);
                let m: int = prec_value as int;
                assert(m >= 1);
                assert((self@ > 0 ==> self@ * m >= self@) && (self@ < 0 ==> self@ * m <= self@) && (
                self@ == 0 ==> self@ * m == 0)) by (nonlinear_arith)
                    requires
                        m >= 1,
                ;
            }
            match self.0.checked_mul(prec_value) {
                Some(product) => product,
                None => {
                    return if self.0 < 0 {
                        Err(NarrowingError::Negative)
                    } else {
                        Err(NarrowingError::Overflow)
                    };
                },
            }
        } else {
            let prec_value = power_of_ten(extra_precision as u32);
            proof {
                lemma_pow10_positive(extra_precision as nat);
                lemma_div_toward_zero_positive(self@, prec_value as int);
                if extra_precision == 0 {
                    lemma_pow10_values();
                    assert(target == self@ * 1);
                }
            }
            divide(self.0, prec_value)
        };
        assert(target_value == target);
        if target_value > u64::MAX as i128 {
            Err(NarrowingError::Overflow)
        } else if target_value < 0 {
            Err(NarrowingError::Negative)
        } else {
            Ok(target_value as u64)
        }
    }

    /// What `try_as_u64` returns: the number in units of `10^exponent`,
    /// rounded toward zero, where that fits in 64 bits without a sign.
    pub open spec fn spec_try_as_u64(raw: int, exponent: int) -> Result<u64, NarrowingError> {
        let target = Self::rescale(raw, -(PRECISION + exponent));
        if target > u64::MAX {
            Err(NarrowingError::Overflow)
        } else if target < 0 {
            Err(NarrowingError::Negative)
        } else {
            Ok(target as u64)
        }
    }

    /// The number `value * 10^exponent`, for the exponents from -22 to 2.
    ///
    /// A division by a power of ten rounds toward zero; the raw value has to
    /// fit in 128 bits.
    pub fn from_decimal<T: Widen<i128>>(value: T, exponent: i32) -> (r: Number128)
        requires
            -12 <= PRECISION + exponent <= 12,
            fits(Self::rescale(value.widen_spec() as int, PRECISION + exponent)),
        ensures
            r@ == Self::rescale(value.widen_spec() as int, PRECISION + exponent),
    {
        let extra_precision: i32 = PRECISION + exponent;
        if extra_precision < 0 {
            let prec_value = power_of_ten((-extra_precision) as u32);
            proof {
                lemma_pow10_positive((-extra_precision) as nat);
            }
            Number128(divide(value.widen(), prec_value))
        } else {
            let prec_value = power_of_ten(extra_precision as u32);
            Number128(value.widen() * prec_value)
        }
    }

    /// The number of `basis_points` basis points: `basis_points / 10^4`.
    pub fn from_bps(basis_points: u16) -> (r: Number128)
        ensures
            r@ == basis_points * 1_000_000,
    {
        proof {
            lemma_pow10_values();
        }
        Self::from_decimal(basis_points, BPS_EXPONENT)
    }
}

/// `2^128`.
pub open spec fn range() -> int {
    0x1_0000_0000_0000_0000_0000_0000_0000_0000int
}

/// The 128 bits of `x` read as an unsigned number.
pub open spec fn unsigned_bits(x: int) -> nat {
    if x >= 0 {
        x as nat
    } else {
        (x + range()) as nat
    }
}

/// The signed number whose 128 bits, read as an unsigned number, are `u`.
pub open spec fn signed_bits(u: nat) -> int {
    if u <= i128::MAX {
        u as int
    } else {
        u - range()
    }
}

impl Number128 {
    /// The 16 bytes of the number in memory on a machine of the given byte
    /// order.
    pub open spec fn spec_to_bytes(self, little_endian: bool) -> Seq<u8> {
        let bits = unsigned_bits(self@);
        let low = (bits % 0x1_0000_0000_0000_0000) as u64;
        let high = (bits / 0x1_0000_0000_0000_0000) as u64;
        if little_endian {
            limb_bytes(low, true) + limb_bytes(high, true)
        } else {
            limb_bytes(high, false) + limb_bytes(low, false)
        }
    }

    /// The number that 16 bytes stand for on a machine of the given byte
    /// order.
    pub open spec fn spec_from_bytes(bytes: Seq<u8>, little_endian: bool) -> Number128 {
        let low = if little_endian {
            limb_value(bytes.subrange(0, 8), true)
        } else {
            limb_value(bytes.subrange(8, 16), false)
        };
        let high = if little_endian {
            limb_value(bytes.subrange(8, 16), true)
        } else {
            limb_value(bytes.subrange(0, 8), false)
        };
        Number128(signed_bits(low + high * 0x1_0000_0000_0000_0000) as i128)
    }

    /// The bytes of the number for the given byte order.
    pub fn to_bytes(self, little_endian: bool) -> (r: [u8; 16])
        ensures
            r@ == self.spec_to_bytes(little_endian),
    {
        let bits: u128 = if self.0 >= 0 {
            self.0 as u128
        } else {
            u128::MAX - ((-(self.0 + 1)) as u128)
        };
        let low: u64 = (bits % 0x1_0000_0000_0000_0000) as u64;
        let high: u64 = (bits / 0x1_0000_0000_0000_0000) as u64;
        let mut out: [u8; 16] = [0u8; 16];
        if little_endian {
            write_limb(&mut out, 0, low, true);
            write_limb(&mut out, 8, high, true);
        } else {
            write_limb(&mut out, 0, high, false);
            write_limb(&mut out, 8, low, false);
        }
        proof {
            let want = self.spec_to_bytes(little_endian);
            lemma_limb_round_trip(low, little_endian);
            lemma_limb_round_trip(high, little_endian);
            assert forall|j: int| 0 <= j < 16 implies out@[j] == want[j] by {
                if j < 8 {
                    assert(out@[j] == out@.subrange(0, 8)[j]);
                } else {
                    assert(out@[j] == out@.subrange(8, 16)[j - 8]);
                }
            }
            assert(out@ =~= want);
        }
        out
    }

    /// The number that the bytes stand for in the given byte order.
    pub fn from_bytes(bits: [u8; 16], little_endian: bool) -> (r: Number128)
        ensures
            r == Self::spec_from_bytes(bits@, little_endian),
    {
        let first = read_limb(&bits, 0, little_endian);
        let second = read_limb(&bits, 8, little_endian);
        let (low, high) = if little_endian {
            (first, second)
        } else {
            (second, first)
        };
        let wide: u128 = low as u128 + high as u128 * 0x1_0000_0000_0000_0000;
        if wide <= i128::MAX as u128 {
            Number128(wide as i128)
        } else {
            Number128(-((u128::MAX - wide) as i128) - 1)
        }
    }

    /// The bytes of the number as it lies in memory, in the byte order of
    /// the machine.
    pub fn into_bits(self) -> (r: [u8; 16])
        ensures
            r@ == self.spec_to_bytes(true) || r@ == self.spec_to_bytes(false),
    {
        self.to_bytes(native_is_little_endian())
    }

    /// The number whose bytes in memory are `bits`, as `into_bits` gave them.
    pub fn from_bits(bits: [u8; 16]) -> (r: Number128)
        ensures
            r == Self::spec_from_bytes(bits@, true) || r == Self::spec_from_bytes(bits@, false),
    {
        Self::from_bytes(bits, native_is_little_endian())
    }

    /// A number survives the trip through its bytes, in either byte order.
    pub proof fn lemma_bytes_round_trip(self, little_endian: bool)
        ensures
            self.spec_to_bytes(little_endian).len() == 16,
            Self::spec_from_bytes(self.spec_to_bytes(little_endian), little_endian) == self,
    {
        let bytes = self.spec_to_bytes(little_endian);
        let bits = unsigned_bits(self@);
        let low = (bits % 0x1_0000_0000_0000_0000) as u64;
        let high = (bits / 0x1_0000_0000_0000_0000) as u64;
        lemma_limb_round_trip(low, little_endian);
        lemma_limb_round_trip(high, little_endian);
        if little_endian {
            assert(bytes.subrange(0, 8) =~= limb_bytes(low, true));
            assert(bytes.subrange(8, 16) =~= limb_bytes(high, true));
        } else {
            assert(bytes.subrange(0, 8) =~= limb_bytes(high, false));
            assert(bytes.subrange(8, 16) =~= limb_bytes(low, false));
        }
    }

    /// Sixteen bytes survive the trip through the number that they stand
    /// for, in either byte order.
    pub proof fn lemma_number_round_trip(bytes: Seq<u8>, little_endian: bool)
        requires
            bytes.len() == 16,
        ensures
            Self::spec_from_bytes(bytes, little_endian).spec_to_bytes(little_endian) == bytes,
    {
        lemma_bytes_round_trip(bytes.subrange(0, 8), little_endian);
        lemma_bytes_round_trip(bytes.subrange(8, 16), little_endian);
        let low: nat = if little_endian {
            limb_value(bytes.subrange(0, 8), true)
        } else {
            limb_value(bytes.subrange(8, 16), false)
        };
        let high: nat = if little_endian {
            limb_value(bytes.subrange(8, 16), true)
        } else {
            limb_value(bytes.subrange(0, 8), false)
        };
        let wide: nat = low + high * 0x1_0000_0000_0000_0000;
        assert(unsigned_bits(signed_bits(wide)) == wide);
        assert(wide % 0x1_0000_0000_0000_0000 == low && wide / 0x1_0000_0000_0000_0000 == high)
            by {
            lemma_fundamental_div_mod_converse(
                wide as int,
                0x1_0000_0000_0000_0000,
                high as int,
                low as int,
            );
        }
        assert(Self::spec_from_bytes(bytes, little_endian).spec_to_bytes(little_endian) =~= bytes);
    }

    /// The text of the number with the raw value `raw`: a minus sign for a
    /// negative number, the integer part of the magnitude, a point, and up to
    /// ten decimal digits without trailing zeros.
    pub open spec fn spec_to_string(raw: int) -> Seq<char> {
        let sign = if raw < 0 {
            seq!['-']
        } else {
            Seq::<char>::empty()
        };
        sign + digits(magnitude(raw) / (ONE as nat)) + seq!['.'] + fraction_digits(
            magnitude(raw) % (ONE as nat),
            PRECISION as nat,
        )
    }

    /// The number as decimal text.
    pub fn to_string(&self) -> (r: String)
        ensures
            r@ == Self::spec_to_string(self@),
    {
        let mut s = String::new();
        let size: u128 = if self.0 >= 0 {
            self.0 as u128
        } else {
            s.push('-');
            (-(self.0 + 1)) as u128 + 1
        };
        push_digits(&mut s, size / 10_000_000_000);
        s.push('.');
        push_fraction_digits(&mut s, (size % 10_000_000_000) as u64, PRECISION as u32);
        assert(s@ =~= Self::spec_to_string(self@));
        s
    }
}

/// The product with the scale, written with the number.
proof fn lemma_times_one(x: int)
    ensures
        x * ONE == x * 10_000_000_000,
        x * (ONE as nat) == x * 10_000_000_000,
{
    assert(x * ONE == x * 10_000_000_000) by (nonlinear_arith)
        requires
            ONE == 10_000_000_000,
    ;
}

/// Whether `x` is a raw value: whether it fits in 128 bits with a sign.
pub open spec fn fits(x: int) -> bool {
    i128::MIN <= x <= i128::MAX
}

impl PartialOrd for Number128 {
    /// The order of the raw values.
    fn partial_cmp(&self, other: &Number128) -> (r: Option<Ordering>) {
        if self.0 < other.0 {
            Some(Ordering::Less)
        } else if self.0 == other.0 {
            Some(Ordering::Equal)
        } else {
            Some(Ordering::Greater)
        }
    }
}

impl PartialOrdSpecImpl for Number128 {
    open spec fn obeys_partial_cmp_spec() -> bool {
        true
    }

    open spec fn partial_cmp_spec(&self, other: &Number128) -> Option<Ordering> {
        if self@ < other@ {
            Some(Ordering::Less)
        } else if self@ == other@ {
            Some(Ordering::Equal)
        } else {
            Some(Ordering::Greater)
        }
    }
}

impl<T: Widen<i128>> From<T> for Number128 {
    /// The number whose raw value is `n`.
    fn from(n: T) -> (r: Number128) {
        Number128(n.widen())
    }
}

impl<T: Widen<i128>> FromSpecImpl<T> for Number128 {
    open spec fn obeys_from_spec() -> bool {
        true
    }

    open spec fn from_spec(n: T) -> Number128 {
        Number128(n.widen_spec())
    }
}

impl Add<Number128> for Number128 {
    type Output = Number128;

    /// The sum, which has to fit in 128 bits.
    fn add(self, rhs: Number128) -> (r: Number128)
        ensures
            r@ == self@ + rhs@,
    {
        Number128(self.0.checked_add(rhs.0).unwrap())
    }
}

impl AddSpecImpl<Number128> for Number128 {
    open spec fn obeys_add_spec() -> bool {
        true
    }

    open spec fn add_req(self, rhs: Number128) -> bool {
        fits(self@ + rhs@)
    }

    open spec fn add_spec(self, rhs: Number128) -> Number128 {
        self.spec_add(rhs)
    }
}

impl AddAssign<Number128> for Number128 {
    /// Adds `rhs`; the sum has to fit in 128 bits.
    fn add_assign(&mut self, rhs: Number128)
        requires
            fits(old(self)@ + rhs@),
        ensures
            final(self)@ == old(self)@ + rhs@,
    {
        self.0 = self.0.checked_add(rhs.0).unwrap();
    }
}

impl Sub<Number128> for Number128 {
    type Output = Number128;

    /// The difference, which has to fit in 128 bits.
    fn sub(self, rhs: Number128) -> (r: Number128)
        ensures
            r@ == self@ - rhs@,
    {
        Number128(self.0.checked_sub(rhs.0).unwrap())
    }
}

impl SubSpecImpl<Number128> for Number128 {
    open spec fn obeys_sub_spec() -> bool {
        true
    }

    open spec fn sub_req(self, rhs: Number128) -> bool {
        fits(self@ - rhs@)
    }

    open spec fn sub_spec(self, rhs: Number128) -> Number128 {
        self.spec_sub(rhs)
    }
}

impl SubAssign<Number128> for Number128 {
    /// Subtracts `rhs`; the difference has to fit in 128 bits.
    fn sub_assign(&mut self, rhs: Number128)
        requires
            fits(old(self)@ - rhs@),
        ensures
            final(self)@ == old(self)@ - rhs@,
    {
        self.0 = self.0.checked_sub(rhs.0).unwrap();
    }
}

impl Mul<Number128> for Number128 {
    type Output = Number128;

    /// The product of the quantities: the product of the raw values, which
    /// has to fit in 128 bits, divided by `10^10` and rounded toward zero.
    fn mul(self, rhs: Number128) -> (r: Number128)
        ensures
            r@ == div_toward_zero(self@ * rhs@, ONE as int),
    {
        Number128(divide(self.0.checked_mul(rhs.0).unwrap(), ONE))
    }
}

impl MulSpecImpl<Number128> for Number128 {
    open spec fn obeys_mul_spec() -> bool {
        true
    }

    open spec fn mul_req(self, rhs: Number128) -> bool {
        fits(self@ * rhs@)
    }

    open spec fn mul_spec(self, rhs: Number128) -> Number128 {
        self.spec_mul(rhs)
    }
}

impl MulAssign<Number128> for Number128 {
    /// Multiplies by `rhs`, as `*` does.
    fn mul_assign(&mut self, rhs: Number128)
        requires
            fits(old(self)@ * rhs@),
        ensures
            final(self)@ == div_toward_zero(old(self)@ * rhs@, ONE as int),
    {
        self.0 = divide(self.0 * rhs.0, ONE);
    }
}

impl Div<Number128> for Number128 {
    type Output = Number128;

    /// The quotient of the quantities: the raw value times `10^10`, which
    /// has to fit in 128 bits, divided by the raw value of `rhs`, which is
    /// not zero, and rounded toward zero.
    fn div(self, rhs: Number128) -> (r: Number128)
        ensures
            r@ == div_toward_zero(self@ * ONE, rhs@),
    {
        Number128(divide(self.0 * ONE, rhs.0))
    }
}

impl DivSpecImpl<Number128> for Number128 {
    open spec fn obeys_div_spec() -> bool {
        true
    }

    open spec fn div_req(self, rhs: Number128) -> bool {
        &&& fits(self@ * ONE)
        &&& rhs@ != 0
    }

    open spec fn div_spec(self, rhs: Number128) -> Number128 {
        self.spec_div(rhs)
    }
}

impl DivAssign<Number128> for Number128 {
    /// Divides by `rhs`, as `/` does.
    fn div_assign(&mut self, rhs: Number128)
        requires
            fits(old(self)@ * ONE),
            rhs@ != 0,
        ensures
            final(self)@ == div_toward_zero(old(self)@ * ONE, rhs@),
    {
        self.0 = divide(self.0 * ONE, rhs.0);
    }
}

impl<T: Widen<i128>> Mul<T> for Number128 {
    type Output = Number128;

    /// The number times the integer `rhs`; the product has to fit in 128
    /// bits.
    fn mul(self, rhs: T) -> (r: Number128)
        ensures
            r@ == self@ * rhs.widen_spec(),
    {
        let factor: i128 = rhs.widen();
        Number128(self.0 * factor)
    }
}

impl<T: Widen<i128>> MulSpecImpl<T> for Number128 {
    open spec fn obeys_mul_spec() -> bool {
        true
    }

    open spec fn mul_req(self, rhs: T) -> bool {
        fits(self@ * rhs.widen_spec())
    }

    open spec fn mul_spec(self, rhs: T) -> Number128 {
        Number128((self@ * rhs.widen_spec()) as i128)
    }
}

impl<T: Widen<i128>> Div<T> for Number128 {
    type Output = Number128;

    /// The number divided by the integer `rhs`, which is not zero, rounded
    /// toward zero; the quotient has to fit in 128 bits.
    fn div(self, rhs: T) -> (r: Number128)
        ensures
            r@ == div_toward_zero(self@, rhs.widen_spec() as int),
    {
        let divisor: i128 = rhs.widen();
        Number128(divide(self.0, divisor))
    }
}

impl<T: Widen<i128>> DivSpecImpl<T> for Number128 {
    open spec fn obeys_div_spec() -> bool {
        true
    }

    open spec fn div_req(self, rhs: T) -> bool {
        &&& rhs.widen_spec() != 0
        &&& !(self@ == i128::MIN && rhs.widen_spec() == -1)
    }

    open spec fn div_spec(self, rhs: T) -> Number128 {
        Number128(div_toward_zero(self@, rhs.widen_spec() as int) as i128)
    }
}

impl Neg for Number128 {
    type Output = Number128;

    /// The negated number, for every number but the smallest.
    fn neg(self) -> (r: Number128)
        ensures
            r@ == -self@,
    {
        Number128(-self.0)
    }
}

impl NegSpecImpl for Number128 {
    open spec fn obeys_neg_spec() -> bool {
        true
    }

    open spec fn neg_req(self) -> bool {
        self@ != i128::MIN
    }

    open spec fn neg_spec(self) -> Number128 {
        Number128((-self@) as i128)
    }
}

impl Number128 {
    /// Converting an integer that is not negative with `from_decimal` and
    /// back with `as_u64`, at the same exponent, gives the integer again.
    ///
    /// This holds where `from_decimal` loses nothing: where it divides by a
    /// power of ten, that power divides the integer.
    pub proof fn lemma_decimal_round_trip(n: int, exponent: int)
        requires
            0 <= n,
            -12 <= PRECISION + exponent <= 12,
            PRECISION + exponent < 0 ==> n % (pow10((-(PRECISION + exponent)) as nat) as int)
                == 0,
        ensures
            Self::rescale(Self::rescale(n, PRECISION + exponent), -(PRECISION + exponent)) == n,
    {
        let shift: int = PRECISION + exponent;
        if shift < 0 {
            let t: int = pow10((-shift) as nat) as int;
            lemma_pow10_positive((-shift) as nat);
            lemma_div_toward_zero_positive(n, t);
            lemma_fundamental_div_mod(n, t);
            assert((n / t) * t == n) by (nonlinear_arith)
                requires
                    n == t * (n / t) + n % t,
                    n % t == 0,
            ;
        } else {
            let t: int = pow10(shift as nat) as int;
            lemma_pow10_positive(shift as nat);
            if shift == 0 {
                assert(n * t == n) by (nonlinear_arith)
                    requires
                        t == 1,
                ;
            } else {
                assert(n * t >= 0) by (nonlinear_arith)
                    requires
                        n >= 0,
                        t > 0,
                ;
                lemma_div_toward_zero_positive(n * t, t);
                lemma_fundamental_div_mod_converse(n * t, t, n, 0);
            }
        }
    }

    /// Adding zero changes nothing, and neither does multiplying by one
    /// where the product of the raw values fits in 128 bits.
    pub proof fn lemma_identities(a: Number128)
        ensures
            a.spec_add(Number128(0)) == a,
            fits(a@ * ONE) ==> a.spec_mul(Number128(ONE)) == a,
    {
        if fits(a@ * ONE) {
            let m: nat = magnitude(a@);
            lemma_times_one(a@);
            lemma_times_one(m as int);
            assert(magnitude(a@ * ONE) == m * (ONE as nat));
            assert(magnitude(ONE as int) == ONE as nat);
            lemma_fundamental_div_mod_converse((m * (ONE as nat)) as int, ONE as int, m as int, 0);
        }
    }

    /// Dividing by `b` and multiplying by `b` again gives a number of the
    /// sign of `a` whose magnitude is that of `a` less the rounding of the
    /// division: the remainder of the division of the magnitudes, in raw
    /// units, rounded up.
    pub proof fn lemma_div_then_mul(a: Number128, b: Number128)
        requires
            b@ != 0,
            fits(a@ * ONE),
        ensures
            fits(a.spec_div(b)@ * b@),
            magnitude(a.spec_div(b).spec_mul(b)@) == magnitude(a@) - div_ceil(
                (magnitude(a@) * (ONE as nat)) % magnitude(b@),
                ONE as nat,
            ),
            a@ >= 0 ==> a.spec_div(b).spec_mul(b)@ >= 0,
            a@ <= 0 ==> a.spec_div(b).spec_mul(b)@ <= 0,
    {
        let one: nat = ONE as nat;
        let x: nat = magnitude(a@);
        let y: nat = magnitude(b@);
        let lifted: nat = x * one;
        lemma_times_one(a@);
        lemma_times_one(x as int);
        assert(magnitude(a@ * ONE) == lifted);
        let q: nat = lifted / y;
        let r: nat = lifted % y;
        lemma_fundamental_div_mod(lifted as int, y as int);
        assert(q * y == lifted - r) by (nonlinear_arith)
            requires
                lifted == y * q + r,
        ;
        assert(q <= lifted) by (nonlinear_arith)
            requires
                q * y == lifted - r,
                y >= 1,
                r >= 0,
        ;
        let quotient: int = div_toward_zero(a@ * ONE, b@);
        assert(magnitude(quotient) == q);
        assert(a.spec_div(b)@ == quotient);
        let product: int = quotient * b@;
        if a@ == 0 {
            lemma_basic_div(0, y as int);
        }
        assert(magnitude(product) == q * y && (a@ >= 0 ==> product >= 0) && (a@ <= 0 ==> product
            <= 0)) by (nonlinear_arith)
            requires
                product == quotient * b@,
                magnitude(quotient) == q,
                magnitude(b@) == y,
                quotient == if (a@ * ONE >= 0) == (b@ > 0) {
                    q as int
                } else {
                    -(q as int)
                },
                ONE > 0,
                b@ != 0,
                a@ < 0 ==> a@ * ONE < 0,
                a@ >= 0 ==> a@ * ONE >= 0,
                a@ == 0 ==> q == 0,
        ;
        lemma_div_ceil(r, one);
        let lost: nat = div_ceil(r, one);
        lemma_fundamental_div_mod(r as int, one as int);
        assert(lost * one >= r && lost * one - r < one) by (nonlinear_arith)
            requires
                lost == r / one + if r % one == 0 { 0nat } else { 1nat },
                r == one * (r / one) + r % one,
                0 <= r % one < one,
        ;
        assert(lost <= x) by (nonlinear_arith)
            requires
                lost * one - r < one,
                r <= x * one,
                lost >= 0,
                one > 0,
        ;
        assert(lifted - r == (x - lost) * one + (lost * one - r)) by (nonlinear_arith)
            requires
                lifted == x * one,
        ;
        lemma_fundamental_div_mod_converse((q * y) as int, one as int, x - lost, lost * one - r);
        assert(magnitude(ONE as int) == one);
    }

    /// Dividing by `b` and multiplying by `b` again gives `a` or a number
    /// one raw unit nearer to zero, where the remainder of the division of
    /// the magnitudes is at most `10^10`; every divisor of a magnitude up to
    /// one has such a remainder.
    pub proof fn lemma_div_then_mul_within_one(a: Number128, b: Number128)
        requires
            b@ != 0,
            fits(a@ * ONE),
            (magnitude(a@) * (ONE as nat)) % magnitude(b@) <= ONE,
        ensures
            magnitude(a@ - a.spec_div(b).spec_mul(b)@) <= 1,
    {
        Self::lemma_div_then_mul(a, b);
        lemma_div_ceil((magnitude(a@) * (ONE as nat)) % magnitude(b@), ONE as nat);
    }
}

} // verus!
