//! Conversions of integers to a wider integer that holds every value of
//! the narrower one.

use crate::u192::{U192, LIMB};
use vstd::prelude::*;

verus! {

/// An integer type all of whose values the integer type `W` holds.
pub trait Widen<W>: Sized {
    /// The same number as a `W`.
    spec fn widen_spec(self) -> W;

    /// The same number as a `W`.
    fn widen(self) -> (r: W)
        ensures
            r == self.widen_spec(),
    ;
}

impl Widen<u128> for u8 {
    open spec fn widen_spec(self) -> u128 {
        self as u128
    }

    fn widen(self) -> (r: u128) {
        self as u128
    }
}

impl Widen<u128> for u16 {
    open spec fn widen_spec(self) -> u128 {
        self as u128
    }

    fn widen(self) -> (r: u128) {
        self as u128
    }
}

impl Widen<u128> for u32 {
    open spec fn widen_spec(self) -> u128 {
        self as u128
    }

    fn widen(self) -> (r: u128) {
        self as u128
    }
}

impl Widen<u128> for u64 {
    open spec fn widen_spec(self) -> u128 {
        self as u128
    }

    fn widen(self) -> (r: u128) {
        self as u128
    }
}

impl Widen<u128> for u128 {
    open spec fn widen_spec(self) -> u128 {
        self
    }

    fn widen(self) -> (r: u128) {
        self
    }
}

impl Widen<i128> for i8 {
    open spec fn widen_spec(self) -> i128 {
        self as i128
    }

    fn widen(self) -> (r: i128) {
        self as i128
    }
}

impl Widen<i128> for i16 {
    open spec fn widen_spec(self) -> i128 {
        self as i128
    }

    fn widen(self) -> (r: i128) {
        self as i128
    }
}

impl Widen<i128> for i32 {
    open spec fn widen_spec(self) -> i128 {
        self as i128
    }

    fn widen(self) -> (r: i128) {
        self as i128
    }
}

impl Widen<i128> for i64 {
    open spec fn widen_spec(self) -> i128 {
        self as i128
    }

    fn widen(self) -> (r: i128) {
        self as i128
    }
}

impl Widen<i128> for u8 {
    open spec fn widen_spec(self) -> i128 {
        self as i128
    }

    fn widen(self) -> (r: i128) {
        self as i128
    }
}

impl Widen<i128> for u16 {
    open spec fn widen_spec(self) -> i128 {
        self as i128
    }

    fn widen(self) -> (r: i128) {
        self as i128
    }
}

impl Widen<i128> for u32 {
    open spec fn widen_spec(self) -> i128 {
        self as i128
    }

    fn widen(self) -> (r: i128) {
        self as i128
    }
}

impl Widen<i128> for u64 {
    open spec fn widen_spec(self) -> i128 {
        self as i128
    }

    fn widen(self) -> (r: i128) {
        self as i128
    }
}

impl Widen<i128> for i128 {
    open spec fn widen_spec(self) -> i128 {
        self
    }

    fn widen(self) -> (r: i128) {
        self
    }
}

impl Widen<U192> for u8 {
    open spec fn widen_spec(self) -> U192 {
        U192 { hi: 0, mid: 0, lo: self as u64 }
    }

    fn widen(self) -> (r: U192) {
        U192 { hi: 0, mid: 0, lo: self as u64 }
    }
}

impl Widen<U192> for u16 {
    open spec fn widen_spec(self) -> U192 {
        U192 { hi: 0, mid: 0, lo: self as u64 }
    }

    fn widen(self) -> (r: U192) {
        U192 { hi: 0, mid: 0, lo: self as u64 }
    }
}

impl Widen<U192> for u32 {
    open spec fn widen_spec(self) -> U192 {
        U192 { hi: 0, mid: 0, lo: self as u64 }
    }

    fn widen(self) -> (r: U192) {
        U192 { hi: 0, mid: 0, lo: self as u64 }
    }
}

impl Widen<U192> for u64 {
    open spec fn widen_spec(self) -> U192 {
        U192 { hi: 0, mid: 0, lo: self }
    }

    fn widen(self) -> (r: U192) {
        U192 { hi: 0, mid: 0, lo: self }
    }
}

impl Widen<U192> for u128 {
    open spec fn widen_spec(self) -> U192 {
        U192 { hi: 0, mid: (self / LIMB) as u64, lo: (self % LIMB) as u64 }
    }

    fn widen(self) -> (r: U192) {
        U192 { hi: 0, mid: (self / LIMB) as u64, lo: (self % LIMB) as u64 }
    }
}

impl Widen<U192> for U192 {
    open spec fn widen_spec(self) -> U192 {
        self
    }

    fn widen(self) -> (r: U192) {
        self
    }
}

} // verus!
