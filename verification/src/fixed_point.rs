//! A 32.32 unsigned fixed-point number held in 128 bits.
//!
//! Arithmetic on the raw values wraps around at `2^128` without notice; only
//! the conversions down to 64 bits report a value that does not fit.

use crate::arith::{div_ceil, lemma_div_ceil};
use crate::widen::Widen;
use std::cmp::Ordering;
use std::ops::{Add, AddAssign, Div, Mul, MulAssign, Sub, SubAssign};
use vstd::arithmetic::div_mod::{
    lemma_fundamental_div_mod, lemma_fundamental_div_mod_converse, lemma_small_mod,
};
use vstd::prelude::*;
use vstd::std_specs::cmp::PartialOrdSpecImpl;
use vstd::std_specs::convert::FromSpecImpl;
use vstd::std_specs::ops::{AddSpecImpl, DivSpecImpl, MulSpecImpl, SubSpecImpl};

verus! {

/// The raw value that stands for the quantity one: `2^32`.
pub const FP32_ONE: u128 = 0x1_0000_0000;

/// `2^128`: the raw values wrap around at this bound.
pub open spec fn range() -> nat {
    0x1_0000_0000_0000_0000_0000_0000_0000_0000nat
}

/// An unsigned fixed-point number with 32 fractional bits.
///
/// The raw value `r` stands for the quantity `r / 2^32`.
#[derive(Debug, Copy, Clone, PartialEq, Eq, Ord, Structural)]
pub struct Fp32(pub u128);

impl View for Fp32 {
    type V = nat;

    /// The raw backing integer.
    open spec fn view(&self) -> nat {
        self.0 as nat
    }
}

impl Fp32 {
    /// The number whose raw value is `raw` reduced modulo `2^128`.
    pub open spec fn of_raw(raw: int) -> Fp32 {
        Fp32((raw % (range() as int)) as u128)
    }

    /// The sum: the sum of the raw values, modulo `2^128`.
    pub open spec fn spec_add(self, rhs: Fp32) -> Fp32 {
        Fp32::of_raw((self@ + rhs@) as int)
    }

    /// The difference: the difference of the raw values, modulo `2^128`.
    pub open spec fn spec_sub(self, rhs: Fp32) -> Fp32 {
        Fp32::of_raw(self@ - rhs@)
    }

    /// The product of the quantities: the product of the raw values, modulo
    /// `2^128`, divided by `2^32`.
    pub open spec fn spec_mul(self, rhs: Fp32) -> Fp32 {
        Fp32::of_raw((((self@ * rhs@) % range()) / (FP32_ONE as nat)) as int)
    }

    /// The quotient of the quantities: the raw value times `2^32`, modulo
    /// `2^128`, divided by the raw value of `rhs`.
    pub open spec fn spec_div(self, rhs: Fp32) -> Fp32 {
        Fp32::of_raw((((self@ * (FP32_ONE as nat)) % range()) / rhs@) as int)
    }

    /// What `as_decimal_u64_ceil` returns.
    pub open spec fn as_decimal_u64_ceil_spec(self) -> Option<u64> {
        if div_ceil(self@, FP32_ONE as nat) <= u64::MAX {
            Some(div_ceil(self@, FP32_ONE as nat) as u64)
        } else {
            None
        }
    }

    /// The quantity one.
    pub fn one() -> (r: Fp32)
        ensures
            r@ == FP32_ONE,
    {
        Fp32(FP32_ONE)
    }

    /// The quantity zero.
    pub fn zero() -> (r: Fp32)
        ensures
            r@ == 0,
    {
        Fp32(0)
    }

    /// The largest number.
    pub fn max_value() -> (r: Fp32)
        ensures
            r@ == range() - 1,
    {
        Fp32(u128::MAX)
    }

    /// The smallest number, which is zero.
    pub fn min_value() -> (r: Fp32)
        ensures
            r@ == 0,
    {
        Fp32(u128::MIN)
    }

    /// Wraps a raw value without any conversion.
    pub fn wrap_u128(n: u128) -> (r: Fp32)
        ensures
            r@ == n,
    {
        Fp32(n)
    }

    /// The integer part, or `None` when it does not fit in 64 bits.
    pub fn as_decimal_u64(self) -> (r: Option<u64>)
        ensures
            r == self.as_decimal_u64_spec(),
    {
        let res: u128 = self.0 / FP32_ONE;
        if res > u64::MAX as u128 {
            None
        } else {
            Some(res as u64)
        }
    }

    /// The quantity rounded up to an integer, or `None` when that does not
    /// fit in 64 bits.
    pub fn as_decimal_u64_ceil(self) -> (r: Option<u64>)
        ensures
            r == self.as_decimal_u64_ceil_spec(),
    {
        let low: u128 = self.0 % FP32_ONE;
        let add_one: u128 = if low == 0 {
            0
        } else {
            FP32_ONE - low
        };
        proof {
            lemma_div_ceil(self@, FP32_ONE as nat);
        }
        match self.0.checked_add(add_one) {
            Some(n) => Fp32(n).as_decimal_u64(),
            None => None,
        }
    }

    /// The raw value in 64 bits, still with 32 fractional bits, or `None`
    /// when it does not fit.
    pub fn downcast_u64(self) -> (r: Option<u64>)
        ensures
            r == if self@ <= u64::MAX {
                Some(self@ as u64)
            } else {
                None
            },
    {
        if self.0 > u64::MAX as u128 {
            None
        } else {
            Some(self.0 as u64)
        }
    }

    /// The integer part of `self` times `rhs`, or `None` when it does not fit
    /// in 64 bits. The product of the raw values wraps around at `2^128`.
    pub fn decimal_u64_mul(&self, rhs: u64) -> (r: Option<u64>)
        ensures
            r == Self::of_raw(self@ * rhs).as_decimal_u64_spec(),
    {
        (*self * rhs).as_decimal_u64()
    }

    /// The integer part of `self` divided by `rhs`, which is not zero, or
    /// `None` when it does not fit in 64 bits.
    pub fn u64_div(&self, rhs: u64) -> (r: Option<u64>)
        requires
            rhs != 0,
        ensures
            r == Self::of_raw(self@ as int / rhs as int).as_decimal_u64_spec(),
    {
        (*self / rhs).as_decimal_u64()
    }

    /// What `as_decimal_u64` returns: the raw value divided by `2^32`, where
    /// that fits in 64 bits.
    pub open spec fn as_decimal_u64_spec(self) -> Option<u64> {
        if self@ / (FP32_ONE as nat) <= u64::MAX {
            Some((self@ / (FP32_ONE as nat)) as u64)
        } else {
            None
        }
    }

    /// Wraps a raw value of 64 bits, which keeps its 32 fractional bits.
    pub fn upcast_fp32(fp: u64) -> (r: Fp32)
        ensures
            r@ == fp,
    {
        Fp32(fp as u128)
    }
}

impl PartialOrd for Fp32 {
    /// The order of the raw values.
    fn partial_cmp(&self, other: &Fp32) -> (r: Option<Ordering>) {
        if self.0 < other.0 {
            Some(Ordering::Less)
        } else if self.0 == other.0 {
            Some(Ordering::Equal)
        } else {
            Some(Ordering::Greater)
        }
    }
}

impl PartialOrdSpecImpl for Fp32 {
    open spec fn obeys_partial_cmp_spec() -> bool {
        true
    }

    open spec fn partial_cmp_spec(&self, other: &Fp32) -> Option<Ordering> {
        if self@ < other@ {
            Some(Ordering::Less)
        } else if self@ == other@ {
            Some(Ordering::Equal)
        } else {
            Some(Ordering::Greater)
        }
    }
}

impl<T: Widen<u128>> From<T> for Fp32 {
    /// The integer `n` as a fixed-point number: the raw value is `n * 2^32`.
    fn from(n: T) -> (r: Fp32) {
        let wide: u128 = n.widen();
        Fp32(wide.wrapping_mul(FP32_ONE))
    }
}

impl<T: Widen<u128>> FromSpecImpl<T> for Fp32 {
    open spec fn obeys_from_spec() -> bool {
        true
    }

    open spec fn from_spec(n: T) -> Fp32 {
        Fp32::of_raw(n.widen_spec() * FP32_ONE)
    }
}

impl Add<Fp32> for Fp32 {
    type Output = Fp32;

    /// The sum of the raw values, modulo `2^128`.
    fn add(self, rhs: Fp32) -> (r: Fp32)
        ensures
            r@ == (self@ + rhs@) % range(),
    {
        proof {
            lemma_wrap((self@ + rhs@) as int);
        }
        Fp32(self.0.wrapping_add(rhs.0))
    }
}

impl AddSpecImpl<Fp32> for Fp32 {
    open spec fn obeys_add_spec() -> bool {
        true
    }

    open spec fn add_req(self, rhs: Fp32) -> bool {
        true
    }

    open spec fn add_spec(self, rhs: Fp32) -> Fp32 {
        self.spec_add(rhs)
    }
}

impl Sub<Fp32> for Fp32 {
    type Output = Fp32;

    /// The difference of the raw values, modulo `2^128`.
    fn sub(self, rhs: Fp32) -> (r: Fp32)
        ensures
            r@ == (self@ - rhs@) % (range() as int),
    {
        proof {
            lemma_wrap(self@ - rhs@);
        }
        Fp32(self.0.wrapping_sub(rhs.0))
    }
}

impl SubSpecImpl<Fp32> for Fp32 {
    open spec fn obeys_sub_spec() -> bool {
        true
    }

    open spec fn sub_req(self, rhs: Fp32) -> bool {
        true
    }

    open spec fn sub_spec(self, rhs: Fp32) -> Fp32 {
        self.spec_sub(rhs)
    }
}

impl AddAssign<Fp32> for Fp32 {
    /// Adds `rhs`, as `+` does.
    fn add_assign(&mut self, rhs: Fp32)
        ensures
            final(self)@ == (old(self)@ + rhs@) % range(),
    {
        proof {
            lemma_wrap((self@ + rhs@) as int);
        }
        self.0 = self.0.wrapping_add(rhs.0);
    }
}

impl SubAssign<Fp32> for Fp32 {
    /// Subtracts `rhs`, as `-` does.
    fn sub_assign(&mut self, rhs: Fp32)
        ensures
            final(self)@ == (old(self)@ - rhs@) % (range() as int),
    {
        proof {
            lemma_wrap(self@ - rhs@);
        }
        self.0 = self.0.wrapping_sub(rhs.0);
    }
}

impl Mul<Fp32> for Fp32 {
    type Output = Fp32;

    /// The product of the quantities: the product of the raw values, modulo
    /// `2^128`, divided by `2^32`.
    fn mul(self, rhs: Fp32) -> (r: Fp32)
        ensures
            r@ == ((self@ * rhs@) % range()) / (FP32_ONE as nat),
    {
        let product = self.0.wrapping_mul(rhs.0) / FP32_ONE;
        proof {
            lemma_small_mod(product as nat, range());
        }
        Fp32(product)
    }
}

impl MulSpecImpl<Fp32> for Fp32 {
    open spec fn obeys_mul_spec() -> bool {
        true
    }

    open spec fn mul_req(self, rhs: Fp32) -> bool {
        true
    }

    open spec fn mul_spec(self, rhs: Fp32) -> Fp32 {
        self.spec_mul(rhs)
    }
}

impl MulAssign<Fp32> for Fp32 {
    /// Multiplies by `rhs`, as `*` does: the product is divided by `2^32`.
    fn mul_assign(&mut self, rhs: Fp32)
        ensures
            final(self)@ == ((old(self)@ * rhs@) % range()) / (FP32_ONE as nat),
    {
        self.0 = self.0.wrapping_mul(rhs.0) / FP32_ONE;
    }
}

impl Div<Fp32> for Fp32 {
    type Output = Fp32;

    /// The quotient of the quantities: the raw value times `2^32`, modulo
    /// `2^128`, divided by the raw value of `rhs`, which is not zero.
    fn div(self, rhs: Fp32) -> (r: Fp32)
        ensures
            r@ == ((self@ * (FP32_ONE as nat)) % range()) / rhs@,
    {
        let quotient = self.0.wrapping_mul(FP32_ONE) / rhs.0;
        proof {
            lemma_small_mod(quotient as nat, range());
        }
        Fp32(quotient)
    }
}

impl DivSpecImpl<Fp32> for Fp32 {
    open spec fn obeys_div_spec() -> bool {
        true
    }

    open spec fn div_req(self, rhs: Fp32) -> bool {
        rhs@ != 0
    }

    open spec fn div_spec(self, rhs: Fp32) -> Fp32 {
        self.spec_div(rhs)
    }
}

impl<T: Widen<u128>> Mul<T> for Fp32 {
    type Output = Fp32;

    /// The number times the integer `rhs`, modulo `2^128`.
    fn mul(self, rhs: T) -> (r: Fp32)
        ensures
            r@ == (self@ * rhs.widen_spec() as nat) % range(),
    {
        let factor: u128 = rhs.widen();
        Fp32(self.0.wrapping_mul(factor))
    }
}

impl<T: Widen<u128>> MulSpecImpl<T> for Fp32 {
    open spec fn obeys_mul_spec() -> bool {
        true
    }

    open spec fn mul_req(self, rhs: T) -> bool {
        true
    }

    open spec fn mul_spec(self, rhs: T) -> Fp32 {
        Fp32::of_raw(self@ * rhs.widen_spec())
    }
}

impl<T: Widen<u128>> Div<T> for Fp32 {
    type Output = Fp32;

    /// The number divided by the integer `rhs`, which is not zero, rounded
    /// down.
    fn div(self, rhs: T) -> (r: Fp32)
        ensures
            r@ == self@ / rhs.widen_spec() as nat,
    {
        let divisor: u128 = rhs.widen();
        let quotient = self.0 / divisor;
        proof {
            lemma_small_mod(quotient as nat, range());
        }
        Fp32(quotient)
    }
}

impl<T: Widen<u128>> DivSpecImpl<T> for Fp32 {
    open spec fn obeys_div_spec() -> bool {
        true
    }

    open spec fn div_req(self, rhs: T) -> bool {
        rhs.widen_spec() != 0
    }

    open spec fn div_spec(self, rhs: T) -> Fp32 {
        Fp32::of_raw(self@ as int / rhs.widen_spec() as int)
    }
}

/// Reducing modulo `2^128` subtracts or adds `2^128` at most once for a sum
/// or a difference of two raw values.
proof fn lemma_wrap(x: int)
    requires
        -range() < x < 2 * range(),
    ensures
        x % (range() as int) == if x < 0 {
            x + range()
        } else if x >= range() {
            x - range()
        } else {
            x
        },
{
}

impl Fp32 {
    /// An integer of up to 64 bits that is made a fixed-point number comes
    /// back as its integer part.
    pub proof fn lemma_integer_round_trip(n: u64)
        ensures
            Fp32::of_raw(n as int * FP32_ONE as int).as_decimal_u64_spec() == Some(n),
            Fp32::of_raw(n as int * FP32_ONE as int).as_decimal_u64_ceil_spec() == Some(n),
    {
        let raw: nat = n as nat * (FP32_ONE as nat);
        lemma_small_mod(raw, range());
        lemma_fundamental_div_mod_converse(raw as int, FP32_ONE as int, n as int, 0);
        lemma_div_ceil(raw, FP32_ONE as nat);
    }

    /// Adding zero changes nothing. Multiplying by one changes nothing
    /// exactly where the raw value is below `2^96`: from there on the product
    /// of the raw values wraps around.
    pub proof fn lemma_identities(a: Fp32)
        ensures
            a.spec_add(Fp32(0)) == a,
            a@ < 0x1_0000_0000_0000_0000_0000_0000 <==> a.spec_mul(Fp32(FP32_ONE)) == a,
    {
        lemma_small_mod(a@, range());
        let product: nat = a@ * (FP32_ONE as nat);
        let high: nat = a@ / 0x1_0000_0000_0000_0000_0000_0000;
        let low: nat = a@ % 0x1_0000_0000_0000_0000_0000_0000;
        // product == high * 2^128 + low * 2^32
        lemma_fundamental_div_mod_converse(
            product as int,
            range() as int,
            high as int,
            (low * (FP32_ONE as nat)) as int,
        );
        lemma_fundamental_div_mod_converse(
            (low * (FP32_ONE as nat)) as int,
            FP32_ONE as int,
            low as int,
            0,
        );
        lemma_small_mod(low, range());
    }

    /// Dividing by `b` and multiplying by `b` again gives `a` less the
    /// rounding of the division: the remainder of the division, in raw
    /// units, rounded up. This holds where `a * 2^32` does not wrap around.
    pub proof fn lemma_div_then_mul(a: Fp32, b: Fp32)
        requires
            b@ != 0,
            a@ * (FP32_ONE as nat) < range(),
        ensures
            a.spec_div(b).spec_mul(b)@ == a@ - div_ceil(
                (a@ * (FP32_ONE as nat)) % b@,
                FP32_ONE as nat,
            ),
    {
        let one: nat = FP32_ONE as nat;
        let lifted: nat = a@ * one;
        let q: nat = lifted / b@;
        let r: nat = lifted % b@;
        lemma_small_mod(lifted, range());
        lemma_fundamental_div_mod(lifted as int, b@ as int);
        assert(q * b@ == lifted - r) by (nonlinear_arith)
            requires
                lifted == b@ * q + r,
        ;
        assert(q <= lifted) by (nonlinear_arith)
            requires
                q * b@ == lifted - r,
                b@ >= 1,
                r >= 0,
        ;
        lemma_small_mod(q, range());
        lemma_small_mod(q * b@, range());
        lemma_div_ceil(r, one);
        let lost: nat = div_ceil(r, one);
        lemma_fundamental_div_mod(r as int, one as int);
        assert(lost * one >= r && lost * one - r < one) by (nonlinear_arith)
            requires
                lost == r / one + if r % one == 0 { 0nat } else { 1nat },
                r == one * (r / one) + r % one,
                0 <= r % one < one,
        ;
        assert(lost <= a@) by (nonlinear_arith)
            requires
                lost * one - r < one,
                r <= a@ * one,
                lost >= 0,
                one > 0,
        ;
        assert(lifted - r == (a@ - lost) * one + (lost * one - r)) by (nonlinear_arith)
            requires
                lifted == a@ * one,
        ;
        lemma_fundamental_div_mod_converse(
            (q * b@) as int,
            one as int,
            a@ - lost,
            lost * one - r,
        );
        lemma_small_mod((a@ - lost) as nat, range());
    }

    /// Dividing by `b` and multiplying by `b` again gives `a` or one raw unit
    /// less, where the remainder of the division is at most `2^32`; every
    /// divisor up to one has such a remainder.
    pub proof fn lemma_div_then_mul_within_one(a: Fp32, b: Fp32)
        requires
            b@ != 0,
            a@ * (FP32_ONE as nat) < range(),
            (a@ * (FP32_ONE as nat)) % b@ <= FP32_ONE,
        ensures
            a@ - 1 <= a.spec_div(b).spec_mul(b)@ <= a@,
    {
        Self::lemma_div_then_mul(a, b);
        lemma_div_ceil((a@ * (FP32_ONE as nat)) % b@, FP32_ONE as nat);
    }

    /// Rounding up never gives less than rounding down, and at most one
    /// more. Where both conversions give a value, so do the two bounds hold
    /// of the values.
    pub proof fn lemma_rounding_order(a: Fp32)
        ensures
            a@ / (FP32_ONE as nat) <= div_ceil(a@, FP32_ONE as nat) <= a@ / (FP32_ONE as nat) + 1,
            a.as_decimal_u64_ceil_spec().is_some() ==> a.as_decimal_u64_spec().is_some()
                && a.as_decimal_u64_spec().unwrap() <= a.as_decimal_u64_ceil_spec().unwrap()
                <= a.as_decimal_u64_spec().unwrap() + 1,
    {
        lemma_div_ceil(a@, FP32_ONE as nat);
    }
}

} // verus!
