//! Checked arithmetic as a capability: operations that report an overflow
//! or a zero divisor in their result.

use crate::arith::{div_toward_zero, lemma_div_toward_zero_negates};
use crate::bytes::native_is_little_endian;
use crate::fixed_point::Fp32;
use crate::number::{scale, Number};
use crate::number_128::{divide, fits, Number128};
use crate::u192::{modulus, U192};
use crate::widen::Widen;
use vstd::prelude::*;
use vstd::string::StringExecFns;

verus! {

/// Why a checked operation gave no value.
#[derive(Debug, Copy, Clone, PartialEq, Eq, Structural)]
pub enum NumericalError {
    /// A sum left the range of the type.
    AdditionOverflow,
    /// A product left the range of the type.
    MultiplicationOverflow,
    /// A difference left the range of the type.
    SubtractionUnderflow,
    /// The divisor was zero, or the quotient left the range of the type.
    ZeroDivision,
}

impl NumericalError {
    /// The message of the error.
    pub fn to_string(&self) -> (r: String)
        ensures
            r@ == match self {
                NumericalError::AdditionOverflow => "overflow on checked add"@,
                NumericalError::MultiplicationOverflow => "overflow on checked add"@,
                NumericalError::SubtractionUnderflow => "underflow on checked sub"@,
                NumericalError::ZeroDivision => "division by zero"@,
            },
    {
        match self {
            NumericalError::AdditionOverflow => String::from_str("overflow on checked add"),
            NumericalError::MultiplicationOverflow => String::from_str("overflow on checked add"),
            NumericalError::SubtractionUnderflow => String::from_str("underflow on checked sub"),
            NumericalError::ZeroDivision => String::from_str("division by zero"),
        }
    }
}

/// Addition that gives `None` where the sum leaves the range of the type.
pub trait CheckedAdd: Sized {
    /// The sum, where the type can hold it.
    spec fn checked_add_spec(&self, v: &Self) -> Option<Self>;

    fn checked_add(&self, v: &Self) -> (r: Option<Self>)
        ensures
            r == self.checked_add_spec(v),
    ;
}

/// Subtraction that gives `None` where the difference leaves the range of
/// the type.
pub trait CheckedSub: Sized {
    /// The difference, where the type can hold it.
    spec fn checked_sub_spec(&self, v: &Self) -> Option<Self>;

    fn checked_sub(&self, v: &Self) -> (r: Option<Self>)
        ensures
            r == self.checked_sub_spec(v),
    ;
}

/// Multiplication that gives `None` where the product leaves the range of
/// the type.
pub trait CheckedMul: Sized {
    /// The product, where the type can hold it.
    spec fn checked_mul_spec(&self, v: &Self) -> Option<Self>;

    fn checked_mul(&self, v: &Self) -> (r: Option<Self>)
        ensures
            r == self.checked_mul_spec(v),
    ;
}

/// Division that gives `None` for a zero divisor, and where the quotient
/// leaves the range of the type.
pub trait CheckedDiv: Sized {
    /// The quotient, where there is one that the type can hold.
    spec fn checked_div_spec(&self, v: &Self) -> Option<Self>;

    fn checked_div(&self, v: &Self) -> (r: Option<Self>)
        ensures
            r == self.checked_div_spec(v),
    ;
}

/// Addition in place that leaves the value alone where the sum does not fit.
pub trait TryAddAssign: CheckedAdd {
    fn try_add_assign(&mut self, amount: Self) -> (r: Result<(), NumericalError>)
        ensures
            match r {
                Ok(_) => old(self).checked_add_spec(&amount) == Some(*final(self)),
                Err(e) => old(self).checked_add_spec(&amount).is_none() && *final(self) == *old(
                    self,
                ) && e == NumericalError::AdditionOverflow,
            },
    {
        match self.checked_add(&amount) {
            Some(sum) => {
                *self = sum;
                Ok(())
            },
            None => Err(NumericalError::AdditionOverflow),
        }
    }
}

/// Subtraction in place that leaves the value alone where the difference
/// does not fit.
pub trait TrySubAssign: CheckedSub {
    fn try_sub_assign(&mut self, amount: Self) -> (r: Result<(), NumericalError>)
        ensures
            match r {
                Ok(_) => old(self).checked_sub_spec(&amount) == Some(*final(self)),
                Err(e) => old(self).checked_sub_spec(&amount).is_none() && *final(self) == *old(
                    self,
                ) && e == NumericalError::SubtractionUnderflow,
            },
    {
        match self.checked_sub(&amount) {
            Some(difference) => {
                *self = difference;
                Ok(())
            },
            None => Err(NumericalError::SubtractionUnderflow),
        }
    }
}

impl<T: CheckedAdd> TryAddAssign for T {

}

impl<T: CheckedSub> TrySubAssign for T {

}

/// Addition that names the overflow.
pub trait SafeAdd: CheckedAdd {
    fn safe_add(&self, amount: Self) -> (r: Result<Self, NumericalError>)
        ensures
            match r {
                Ok(sum) => self.checked_add_spec(&amount) == Some(sum),
                Err(e) => self.checked_add_spec(&amount).is_none() && e
                    == NumericalError::AdditionOverflow,
            },
    {
        match self.checked_add(&amount) {
            Some(sum) => Ok(sum),
            None => Err(NumericalError::AdditionOverflow),
        }
    }
}

/// Division that names the zero divisor.
pub trait SafeDiv: CheckedDiv {
    fn safe_div(&self, amount: Self) -> (r: Result<Self, NumericalError>)
        ensures
            match r {
                Ok(quotient) => self.checked_div_spec(&amount) == Some(quotient),
                Err(e) => self.checked_div_spec(&amount).is_none() && e
                    == NumericalError::ZeroDivision,
            },
    {
        match self.checked_div(&amount) {
            Some(quotient) => Ok(quotient),
            None => Err(NumericalError::ZeroDivision),
        }
    }
}

/// Multiplication that names the overflow.
pub trait SafeMul: CheckedMul {
    fn safe_mul(&self, amount: Self) -> (r: Result<Self, NumericalError>)
        ensures
            match r {
                Ok(product) => self.checked_mul_spec(&amount) == Some(product),
                Err(e) => self.checked_mul_spec(&amount).is_none() && e
                    == NumericalError::MultiplicationOverflow,
            },
    {
        match self.checked_mul(&amount) {
            Some(product) => Ok(product),
            None => Err(NumericalError::MultiplicationOverflow),
        }
    }
}

/// Subtraction that names the underflow.
pub trait SafeSub: CheckedSub {
    fn safe_sub(&self, amount: Self) -> (r: Result<Self, NumericalError>)
        ensures
            match r {
                Ok(difference) => self.checked_sub_spec(&amount) == Some(difference),
                Err(e) => self.checked_sub_spec(&amount).is_none() && e
                    == NumericalError::SubtractionUnderflow,
            },
    {
        match self.checked_sub(&amount) {
            Some(difference) => Ok(difference),
            None => Err(NumericalError::SubtractionUnderflow),
        }
    }
}

impl<T: CheckedAdd> SafeAdd for T {

}

impl<T: CheckedDiv> SafeDiv for T {

}

impl<T: CheckedMul> SafeMul for T {

}

impl<T: CheckedSub> SafeSub for T {

}

impl CheckedAdd for u64 {
    open spec fn checked_add_spec(&self, v: &Self) -> Option<Self> {
        if *self + *v <= u64::MAX {
            Some((*self + *v) as u64)
        } else {
            None
        }
    }

    fn checked_add(&self, v: &Self) -> (r: Option<Self>) {
        u64::checked_add(*self, *v)
    }
}

impl CheckedSub for u64 {
    open spec fn checked_sub_spec(&self, v: &Self) -> Option<Self> {
        if *self >= *v {
            Some((*self - *v) as u64)
        } else {
            None
        }
    }

    fn checked_sub(&self, v: &Self) -> (r: Option<Self>) {
        u64::checked_sub(*self, *v)
    }
}

impl CheckedMul for u64 {
    open spec fn checked_mul_spec(&self, v: &Self) -> Option<Self> {
        if *self * *v <= u64::MAX {
            Some((*self * *v) as u64)
        } else {
            None
        }
    }

    fn checked_mul(&self, v: &Self) -> (r: Option<Self>) {
        u64::checked_mul(*self, *v)
    }
}

impl CheckedDiv for u64 {
    open spec fn checked_div_spec(&self, v: &Self) -> Option<Self> {
        if *v != 0 {
            Some(*self / *v)
        } else {
            None
        }
    }

    fn checked_div(&self, v: &Self) -> (r: Option<Self>) {
        if *v == 0 {
            None
        } else {
            Some(*self / *v)
        }
    }
}

impl CheckedAdd for u128 {
    open spec fn checked_add_spec(&self, v: &Self) -> Option<Self> {
        if *self + *v <= u128::MAX {
            Some((*self + *v) as u128)
        } else {
            None
        }
    }

    fn checked_add(&self, v: &Self) -> (r: Option<Self>) {
        u128::checked_add(*self, *v)
    }
}

impl CheckedSub for u128 {
    open spec fn checked_sub_spec(&self, v: &Self) -> Option<Self> {
        if *self >= *v {
            Some((*self - *v) as u128)
        } else {
            None
        }
    }

    fn checked_sub(&self, v: &Self) -> (r: Option<Self>) {
        u128::checked_sub(*self, *v)
    }
}

impl CheckedMul for u128 {
    open spec fn checked_mul_spec(&self, v: &Self) -> Option<Self> {
        if *self * *v <= u128::MAX {
            Some((*self * *v) as u128)
        } else {
            None
        }
    }

    fn checked_mul(&self, v: &Self) -> (r: Option<Self>) {
        u128::checked_mul(*self, *v)
    }
}

impl CheckedDiv for u128 {
    open spec fn checked_div_spec(&self, v: &Self) -> Option<Self> {
        if *v != 0 {
            Some(*self / *v)
        } else {
            None
        }
    }

    fn checked_div(&self, v: &Self) -> (r: Option<Self>) {
        if *v == 0 {
            None
        } else {
            Some(*self / *v)
        }
    }
}

impl CheckedAdd for i128 {
    open spec fn checked_add_spec(&self, v: &Self) -> Option<Self> {
        if fits(*self + *v) {
            Some((*self + *v) as i128)
        } else {
            None
        }
    }

    fn checked_add(&self, v: &Self) -> (r: Option<Self>) {
        i128::checked_add(*self, *v)
    }
}

impl CheckedSub for i128 {
    open spec fn checked_sub_spec(&self, v: &Self) -> Option<Self> {
        if fits(*self - *v) {
            Some((*self - *v) as i128)
        } else {
            None
        }
    }

    fn checked_sub(&self, v: &Self) -> (r: Option<Self>) {
        i128::checked_sub(*self, *v)
    }
}

impl CheckedMul for i128 {
    open spec fn checked_mul_spec(&self, v: &Self) -> Option<Self> {
        if fits(*self * *v) {
            Some((*self * *v) as i128)
        } else {
            None
        }
    }

    fn checked_mul(&self, v: &Self) -> (r: Option<Self>) {
        i128::checked_mul(*self, *v)
    }
}

impl CheckedDiv for i128 {
    open spec fn checked_div_spec(&self, v: &Self) -> Option<Self> {
        if *v != 0 && fits(div_toward_zero(*self as int, *v as int)) {
            Some(div_toward_zero(*self as int, *v as int) as i128)
        } else {
            None
        }
    }

    fn checked_div(&self, v: &Self) -> (r: Option<Self>) {
        if *v == 0 || (*self == i128::MIN && *v == -1) {
            proof {
                lemma_div_toward_zero_negates(*self as int);
            }
            None
        } else {
            Some(divide(*self, *v))
        }
    }
}

impl CheckedAdd for Number128 {
    /// The sum of the raw values, where it fits in 128 bits.
    open spec fn checked_add_spec(&self, v: &Self) -> Option<Self> {
        if fits(self@ + v@) {
            Some(Number128((self@ + v@) as i128))
        } else {
            None
        }
    }

    fn checked_add(&self, v: &Self) -> (r: Option<Self>) {
        match i128::checked_add(self.0, v.0) {
            Some(raw) => Some(Number128(raw)),
            None => None,
        }
    }
}

impl CheckedSub for Number128 {
    /// The difference of the raw values, where it fits in 128 bits.
    open spec fn checked_sub_spec(&self, v: &Self) -> Option<Self> {
        if fits(self@ - v@) {
            Some(Number128((self@ - v@) as i128))
        } else {
            None
        }
    }

    fn checked_sub(&self, v: &Self) -> (r: Option<Self>) {
        match i128::checked_sub(self.0, v.0) {
            Some(raw) => Some(Number128(raw)),
            None => None,
        }
    }
}

impl CheckedMul for Number128 {
    /// The product of the raw values, where it fits in 128 bits. It is not
    /// divided by the scale.
    open spec fn checked_mul_spec(&self, v: &Self) -> Option<Self> {
        if fits(self@ * v@) {
            Some(Number128((self@ * v@) as i128))
        } else {
            None
        }
    }

    fn checked_mul(&self, v: &Self) -> (r: Option<Self>) {
        match i128::checked_mul(self.0, v.0) {
            Some(raw) => Some(Number128(raw)),
            None => None,
        }
    }
}

impl CheckedDiv for Number128 {
    /// The quotient of the raw values, rounded toward zero, where the
    /// divisor is not zero and the quotient fits in 128 bits. The dividend
    /// is not multiplied by the scale.
    open spec fn checked_div_spec(&self, v: &Self) -> Option<Self> {
        if v@ != 0 && fits(div_toward_zero(self@, v@)) {
            Some(Number128(div_toward_zero(self@, v@) as i128))
        } else {
            None
        }
    }

    fn checked_div(&self, v: &Self) -> (r: Option<Self>) {
        if v.0 == 0 || (self.0 == i128::MIN && v.0 == -1) {
            proof {
                lemma_div_toward_zero_negates(self@);
            }
            None
        } else {
            Some(Number128(divide(self.0, v.0)))
        }
    }
}

impl CheckedAdd for Number {
    /// The sum of the raw values, where it fits in 192 bits.
    open spec fn checked_add_spec(&self, v: &Self) -> Option<Self> {
        if self@ + v@ < modulus() {
            Some(Number::of_raw(self@ + v@))
        } else {
            None
        }
    }

    fn checked_add(&self, v: &Self) -> (r: Option<Self>) {
        match self.0.checked_add(v.0) {
            Some(raw) => {
                proof {
                    raw.lemma_view_bounds();
                }
                Some(Number(raw))
            },
            None => None,
        }
    }
}

impl CheckedSub for Number {
    /// The difference of the raw values, where it is not negative.
    open spec fn checked_sub_spec(&self, v: &Self) -> Option<Self> {
        if self@ >= v@ {
            Some(Number::of_raw((self@ - v@) as nat))
        } else {
            None
        }
    }

    fn checked_sub(&self, v: &Self) -> (r: Option<Self>) {
        match self.0.checked_sub(v.0) {
            Some(raw) => {
                proof {
                    raw.lemma_view_bounds();
                }
                Some(Number(raw))
            },
            None => None,
        }
    }
}

impl CheckedMul for Number {
    /// The product of the raw values, where it fits in 192 bits. It is not
    /// divided by the scale.
    open spec fn checked_mul_spec(&self, v: &Self) -> Option<Self> {
        if self@ * v@ < modulus() {
            Some(Number::of_raw(self@ * v@))
        } else {
            None
        }
    }

    fn checked_mul(&self, v: &Self) -> (r: Option<Self>) {
        match self.0.checked_mul(v.0) {
            Some(raw) => {
                proof {
                    raw.lemma_view_bounds();
                }
                Some(Number(raw))
            },
            None => None,
        }
    }
}

impl CheckedDiv for Number {
    /// The quotient of the raw values, rounded down, where the divisor is
    /// not zero. The dividend is not multiplied by the scale.
    open spec fn checked_div_spec(&self, v: &Self) -> Option<Self> {
        if v@ != 0 {
            Some(Number::of_raw(self@ / v@))
        } else {
            None
        }
    }

    fn checked_div(&self, v: &Self) -> (r: Option<Self>) {
        match self.0.checked_div(v.0) {
            Some(raw) => {
                proof {
                    raw.lemma_view_bounds();
                }
                Some(Number(raw))
            },
            None => None,
        }
    }
}

impl CheckedAdd for Fp32 {
    /// The sum of the raw values, where it fits in 128 bits.
    open spec fn checked_add_spec(&self, v: &Self) -> Option<Self> {
        if self@ + v@ <= u128::MAX {
            Some(Fp32((self@ + v@) as u128))
        } else {
            None
        }
    }

    fn checked_add(&self, v: &Self) -> (r: Option<Self>) {
        match u128::checked_add(self.0, v.0) {
            Some(raw) => Some(Fp32(raw)),
            None => None,
        }
    }
}

impl CheckedSub for Fp32 {
    /// The difference of the raw values, where it is not negative.
    open spec fn checked_sub_spec(&self, v: &Self) -> Option<Self> {
        if self@ >= v@ {
            Some(Fp32((self@ - v@) as u128))
        } else {
            None
        }
    }

    fn checked_sub(&self, v: &Self) -> (r: Option<Self>) {
        match u128::checked_sub(self.0, v.0) {
            Some(raw) => Some(Fp32(raw)),
            None => None,
        }
    }
}

impl CheckedMul for Fp32 {
    /// The product of the raw values, where it fits in 128 bits. It is not
    /// divided by the scale.
    open spec fn checked_mul_spec(&self, v: &Self) -> Option<Self> {
        if self@ * v@ <= u128::MAX {
            Some(Fp32((self@ * v@) as u128))
        } else {
            None
        }
    }

    fn checked_mul(&self, v: &Self) -> (r: Option<Self>) {
        match u128::checked_mul(self.0, v.0) {
            Some(raw) => Some(Fp32(raw)),
            None => None,
        }
    }
}

impl CheckedDiv for Fp32 {
    /// The quotient of the raw values, rounded down, where the divisor is
    /// not zero. The dividend is not multiplied by the scale.
    open spec fn checked_div_spec(&self, v: &Self) -> Option<Self> {
        if v@ != 0 {
            Some(Fp32((self@ / v@) as u128))
        } else {
            None
        }
    }

    fn checked_div(&self, v: &Self) -> (r: Option<Self>) {
        if v.0 == 0 {
            None
        } else {
            Some(Fp32(self.0 / v.0))
        }
    }
}

/// Integers that convert to a `Number` of the same quantity.
pub trait ToNumber: Sized {
    /// The number that stands for the integer.
    spec fn to_number_spec(self) -> Number;

    fn to_number(self) -> (r: Number)
        ensures
            r == self.to_number_spec(),
    ;
}

impl<T: Widen<U192>> ToNumber for T {
    /// The raw value is the integer times `2^50`, reduced to 192 bits.
    open spec fn to_number_spec(self) -> Number {
        Number::of_raw((self.widen_spec()@ * scale()) % modulus())
    }

    fn to_number(self) -> (r: Number) {
        Number::from(self)
    }
}

/// What `add_to_bytes` leaves in the bytes and returns: the sum where it
/// fits, else the bytes as they were and the overflow.
pub open spec fn bytes_after_add(
    before: Seq<u8>,
    amount: Number,
    little_endian: bool,
    after: Seq<u8>,
    r: Result<(), NumericalError>,
) -> bool {
    let held = Number::spec_from_bytes(before, little_endian);
    if held@ + amount@ < modulus() {
        r.is_ok() && after == Number::of_raw(held@ + amount@).spec_to_bytes(little_endian)
    } else {
        r == Err::<(), NumericalError>(NumericalError::AdditionOverflow) && after == before
    }
}

/// What `sub_from_bytes` leaves in the bytes and returns: the difference
/// where it is not negative, else the bytes as they were and the underflow.
pub open spec fn bytes_after_sub(
    before: Seq<u8>,
    amount: Number,
    little_endian: bool,
    after: Seq<u8>,
    r: Result<(), NumericalError>,
) -> bool {
    let held = Number::spec_from_bytes(before, little_endian);
    if held@ >= amount@ {
        r.is_ok() && after == Number::of_raw((held@ - amount@) as nat).spec_to_bytes(little_endian)
    } else {
        r == Err::<(), NumericalError>(NumericalError::SubtractionUnderflow) && after == before
    }
}

/// Adds `amount` to the number that `bytes` hold in the given byte order.
pub fn add_to_bytes(bytes: &mut [u8; 24], amount: Number, little_endian: bool) -> (r: Result<
    (),
    NumericalError,
>)
    ensures
        bytes_after_add(old(bytes)@, amount, little_endian, final(bytes)@, r),
{
    let held = Number::from_bytes(*bytes, little_endian);
    match held.checked_add(&amount) {
        Some(sum) => {
            *bytes = sum.to_bytes(little_endian);
            Ok(())
        },
        None => Err(NumericalError::AdditionOverflow),
    }
}

/// Subtracts `amount` from the number that `bytes` hold in the given byte
/// order.
pub fn sub_from_bytes(bytes: &mut [u8; 24], amount: Number, little_endian: bool) -> (r: Result<
    (),
    NumericalError,
>)
    ensures
        bytes_after_sub(old(bytes)@, amount, little_endian, final(bytes)@, r),
{
    let held = Number::from_bytes(*bytes, little_endian);
    match held.checked_sub(&amount) {
        Some(difference) => {
            *bytes = difference.to_bytes(little_endian);
            Ok(())
        },
        None => Err(NumericalError::SubtractionUnderflow),
    }
}

/// Addition to a `Number` that is held as its bytes in memory.
pub trait NumberAddAssign {
    fn try_number_add_assign(&mut self, amount: Number) -> Result<(), NumericalError>;
}

impl NumberAddAssign for [u8; 24] {
    /// Adds `amount` to the number that the bytes hold, in the byte order of
    /// the machine.
    fn try_number_add_assign(&mut self, amount: Number) -> (r: Result<(), NumericalError>)
        ensures
            bytes_after_add(old(self)@, amount, true, final(self)@, r) || bytes_after_add(
                old(self)@,
                amount,
                false,
                final(self)@,
                r,
            ),
    {
        add_to_bytes(self, amount, native_is_little_endian())
    }
}

/// Subtraction from a `Number` that is held as its bytes in memory.
pub trait NumberSubAssign {
    fn try_number_sub_assign(&mut self, amount: Number) -> Result<(), NumericalError>;
}

impl NumberSubAssign for [u8; 24] {
    /// Subtracts `amount` from the number that the bytes hold, in the byte
    /// order of the machine.
    fn try_number_sub_assign(&mut self, amount: Number) -> (r: Result<(), NumericalError>)
        ensures
            bytes_after_sub(old(self)@, amount, true, final(self)@, r) || bytes_after_sub(
                old(self)@,
                amount,
                false,
                final(self)@,
                r,
            ),
    {
        sub_from_bytes(self, amount, native_is_little_endian())
    }
}

} // verus!
