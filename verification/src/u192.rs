//! A 192-bit unsigned integer made of three 64-bit limbs.

use crate::guard::demand;
use crate::text::{digit_to_char, digits};
use std::cmp::Ordering;
use vstd::arithmetic::div_mod::{
    lemma_basic_div, lemma_div_denominator, lemma_fundamental_div_mod,
    lemma_fundamental_div_mod_converse, lemma_mod_mod, lemma_mod_multiples_vanish,
};
use vstd::arithmetic::power::{lemma0_pow, lemma1_pow, lemma_pow0, lemma_pow_increases, pow};
use vstd::arithmetic::power2::{
    lemma2_to64, lemma_pow2, lemma_pow2_adds, lemma_pow2_pos, lemma_pow2_strictly_increases, pow2,
};
use vstd::bits::{lemma_u64_pow2_no_overflow, lemma_u64_shl_is_mul};
use vstd::prelude::*;
use vstd::std_specs::cmp::PartialOrdSpecImpl;
use vstd::std_specs::convert::FromSpecImpl;

verus! {

/// The weight of the second limb: `2^64`.
pub const LIMB: u128 = 0x1_0000_0000_0000_0000;

/// `2^128`, the weight of the third limb.
pub open spec fn limb_sq() -> nat {
    0x1_0000_0000_0000_0000_0000_0000_0000_0000nat
}

/// `2^192`: every `U192` is below this bound.
pub open spec fn modulus() -> nat {
    0x1_0000_0000_0000_0000_0000_0000_0000_0000_0000_0000_0000_0000nat
}

/// A 192-bit unsigned integer.
///
/// The fields are listed from the most significant limb down, so that the
/// derived ordering is the ordering of the numbers.
#[derive(Debug, Copy, Clone, PartialEq, Eq, Ord, Hash, Structural)]
pub struct U192 {
    pub hi: u64,
    pub mid: u64,
    pub lo: u64,
}

impl View for U192 {
    type V = nat;

    /// The number that the three limbs stand for.
    open spec fn view(&self) -> nat {
        self.lo as nat + self.mid as nat * (LIMB as nat) + self.hi as nat * limb_sq()
    }
}

impl U192 {
    /// The number of bits.
    pub const BITS: u32 = 192;

    /// The value whose view is `n`, for `n` below `2^192`; larger `n` are
    /// reduced modulo `2^192`.
    pub open spec fn from_nat(n: nat) -> U192 {
        U192 {
            hi: ((n / limb_sq()) % (LIMB as nat)) as u64,
            mid: ((n / (LIMB as nat)) % (LIMB as nat)) as u64,
            lo: (n % (LIMB as nat)) as u64,
        }
    }

    /// How the limbs are read off the view.
    pub proof fn lemma_limbs_of_view(self)
        ensures
            self@ < modulus(),
            self@ % (LIMB as nat) == self.lo,
            self@ / (LIMB as nat) == self.mid as nat + self.hi as nat * (LIMB as nat),
            self@ / limb_sq() == self.hi,
    {
        let upper: nat = self.mid as nat + self.hi as nat * (LIMB as nat);
        lemma_fundamental_div_mod_converse(
            self@ as int,
            LIMB as int,
            upper as int,
            self.lo as int,
        );
        let lower: nat = self.lo as nat + self.mid as nat * (LIMB as nat);
        lemma_fundamental_div_mod_converse(
            self@ as int,
            limb_sq() as int,
            self.hi as int,
            lower as int,
        );
    }

    /// Every value lies below `2^192`, and `from_nat` inverts the view.
    pub proof fn lemma_view_bounds(self)
        ensures
            self@ < modulus(),
            Self::from_nat(self@) == self,
    {
        self.lemma_limbs_of_view();
        lemma_fundamental_div_mod_converse(
            (self@ / (LIMB as nat)) as int,
            LIMB as int,
            self.hi as int,
            self.mid as int,
        );
        lemma_fundamental_div_mod_converse(
            self@ as int / limb_sq() as int,
            LIMB as int,
            0,
            self.hi as int,
        );
    }

    /// The view of `from_nat(n)` is `n` reduced modulo `2^192`.
    pub proof fn lemma_from_nat_view(n: nat)
        ensures
            Self::from_nat(n)@ == n % modulus(),
            n < modulus() ==> Self::from_nat(n)@ == n,
    {
        let b: int = LIMB as int;
        let upper: int = n as int / b;
        let top: int = upper / b;
        lemma_fundamental_div_mod(n as int, b);
        lemma_fundamental_div_mod(upper, b);
        lemma_fundamental_div_mod(top, b);
        lemma_div_denominator(n as int, b, b);
        assert(top == n as int / limb_sq() as int);
        let v: int = n as int % b + (upper % b) * b + (top % b) * limb_sq();
        assert(n == modulus() * (top / b) + v);
        lemma_fundamental_div_mod_converse(n as int, modulus() as int, top / b, v);
        if n < modulus() {
            lemma_basic_div(n as int, modulus() as int);
            lemma_fundamental_div_mod(n as int, modulus() as int);
        }
    }

    /// Two values that stand for the same number are equal: `==` is the
    /// equality of the numbers.
    pub proof fn lemma_view_injective(self, other: U192)
        requires
            self@ == other@,
        ensures
            self == other,
    {
        self.lemma_view_bounds();
        other.lemma_view_bounds();
    }

    /// Zero.
    pub fn zero() -> (r: U192)
        ensures
            r@ == 0,
    {
        U192 { hi: 0, mid: 0, lo: 0 }
    }

    /// One.
    pub fn one() -> (r: U192)
        ensures
            r@ == 1,
    {
        U192 { hi: 0, mid: 0, lo: 1 }
    }

    /// The largest value, `2^192 - 1`.
    pub fn max_value() -> (r: U192)
        ensures
            r@ == modulus() - 1,
    {
        U192 { hi: u64::MAX, mid: u64::MAX, lo: u64::MAX }
    }

    /// Builds a value from its limbs, least significant first.
    pub fn from_limbs(limbs: [u64; 3]) -> (r: U192)
        ensures
            r == (U192 { hi: limbs@[2], mid: limbs@[1], lo: limbs@[0] }),
    {
        U192 { hi: limbs[2], mid: limbs[1], lo: limbs[0] }
    }

    /// The limbs, least significant first.
    pub fn limbs(self) -> (r: [u64; 3])
        ensures
            r@ == seq![self.lo, self.mid, self.hi],
    {
        let r: [u64; 3] = [self.lo, self.mid, self.hi];
        assert(r@ =~= seq![self.lo, self.mid, self.hi]);
        r
    }

    /// Whether the value is zero.
    pub fn is_zero(&self) -> (r: bool)
        ensures
            r == (self@ == 0),
    {
        self.hi == 0 && self.mid == 0 && self.lo == 0
    }

    /// Whether the value fits in 64 bits.
    pub fn fits_u64(&self) -> (r: bool)
        ensures
            r == (self@ <= u64::MAX),
    {
        self.hi == 0 && self.mid == 0
    }

    /// The value as a `u64`.
    pub fn as_u64(&self) -> (r: u64)
        requires
            self@ <= u64::MAX,
        ensures
            r == self@,
    {
        demand(self.fits_u64(), "Integer overflow when casting to u64");
        self.lo
    }
}

impl PartialOrd for U192 {
    /// The order of the numbers.
    fn partial_cmp(&self, other: &U192) -> (r: Option<Ordering>) {
        if self.hi != other.hi {
            if self.hi < other.hi {
                Some(Ordering::Less)
            } else {
                Some(Ordering::Greater)
            }
        } else if self.mid != other.mid {
            if self.mid < other.mid {
                Some(Ordering::Less)
            } else {
                Some(Ordering::Greater)
            }
        } else if self.lo < other.lo {
            Some(Ordering::Less)
        } else if self.lo == other.lo {
            Some(Ordering::Equal)
        } else {
            Some(Ordering::Greater)
        }
    }
}

impl PartialOrdSpecImpl for U192 {
    open spec fn obeys_partial_cmp_spec() -> bool {
        true
    }

    open spec fn partial_cmp_spec(&self, other: &U192) -> Option<Ordering> {
        if self@ < other@ {
            Some(Ordering::Less)
        } else if self@ == other@ {
            Some(Ordering::Equal)
        } else {
            Some(Ordering::Greater)
        }
    }
}

impl U192 {
    /// The sum modulo `2^192`, and whether the true sum reached `2^192`.
    pub fn overflowing_add(self, other: U192) -> (r: (U192, bool))
        ensures
            r.0@ == (self@ + other@) % modulus(),
            r.1 == (self@ + other@ >= modulus()),
    {
        let s0: u128 = self.lo as u128 + other.lo as u128;
        let s1: u128 = self.mid as u128 + other.mid as u128 + s0 / LIMB;
        let s2: u128 = self.hi as u128 + other.hi as u128 + s1 / LIMB;
        let sum = U192 { hi: (s2 % LIMB) as u64, mid: (s1 % LIMB) as u64, lo: (s0 % LIMB) as u64 };
        assert(self@ + other@ == sum@ + (s2 / LIMB) as nat * modulus());
        (sum, s2 / LIMB != 0)
    }

    /// The sum, or `None` when it does not fit.
    pub fn checked_add(self, other: U192) -> (r: Option<U192>)
        ensures
            self@ + other@ < modulus() ==> r.is_some() && r.unwrap()@ == self@ + other@,
            self@ + other@ >= modulus() ==> r.is_none(),
    {
        let (sum, overflow) = self.overflowing_add(other);
        if overflow {
            None
        } else {
            Some(sum)
        }
    }

    /// The sum, or the largest value when the sum does not fit.
    pub fn saturating_add(self, other: U192) -> (r: U192)
        ensures
            r@ == if self@ + other@ < modulus() { self@ + other@ } else { (modulus() - 1) as nat },
    {
        let (sum, overflow) = self.overflowing_add(other);
        if overflow {
            Self::max_value()
        } else {
            sum
        }
    }

    /// The difference modulo `2^192`, and whether `other` exceeds `self`.
    pub fn overflowing_sub(self, other: U192) -> (r: (U192, bool))
        ensures
            r.0@ == (self@ - other@) % (modulus() as int),
            r.1 == (self@ < other@),
    {
        let d0: u128 = LIMB + self.lo as u128 - other.lo as u128;
        let d1: u128 = LIMB + self.mid as u128 - other.mid as u128 - (1 - d0 / LIMB);
        let d2: u128 = LIMB + self.hi as u128 - other.hi as u128 - (1 - d1 / LIMB);
        let diff = U192 { hi: (d2 % LIMB) as u64, mid: (d1 % LIMB) as u64, lo: (d0 % LIMB) as u64 };
        assert(self@ - other@ == diff@ - (1 - d2 / LIMB) * modulus());
        (diff, d2 / LIMB == 0)
    }

    /// The difference, or `None` when `other` exceeds `self`.
    pub fn checked_sub(self, other: U192) -> (r: Option<U192>)
        ensures
            self@ >= other@ ==> r.is_some() && r.unwrap()@ == self@ - other@,
            self@ < other@ ==> r.is_none(),
    {
        let (diff, underflow) = self.overflowing_sub(other);
        if underflow {
            None
        } else {
            Some(diff)
        }
    }

    /// The difference, or zero when `other` exceeds `self`.
    pub fn saturating_sub(self, other: U192) -> (r: U192)
        ensures
            r@ == if self@ >= other@ { (self@ - other@) as nat } else { 0 },
    {
        let (diff, underflow) = self.overflowing_sub(other);
        if underflow {
            Self::zero()
        } else {
            diff
        }
    }
}

/// `a * b + c`, split into a low and a high limb.
fn mul_add_limb(a: u64, b: u64, c: u64) -> (r: (u64, u64))
    ensures
        a as nat * b as nat + c as nat == r.0 as nat + r.1 as nat * (LIMB as nat),
{
    assert(a as nat * b as nat <= 0xffff_ffff_ffff_ffff * 0xffff_ffff_ffff_ffff)
        by (nonlinear_arith)
        requires
            a <= 0xffff_ffff_ffff_ffff,
            b <= 0xffff_ffff_ffff_ffff,
    ;
    let wide: u128 = a as u128 * b as u128 + c as u128;
    ((wide % LIMB) as u64, (wide / LIMB) as u64)
}

impl U192 {
    /// The product with a single limb: the low 192 bits and the limb that
    /// runs over.
    pub fn mul_limb(self, m: u64) -> (r: (U192, u64))
        ensures
            self@ * m as nat == r.0@ + r.1 as nat * modulus(),
    {
        let (lo, c0) = mul_add_limb(self.lo, m, 0);
        let (mid, c1) = mul_add_limb(self.mid, m, c0);
        let (hi, c2) = mul_add_limb(self.hi, m, c1);
        let low = U192 { hi, mid, lo };
        assert(self@ * m as nat == self.lo as nat * m as nat + (self.mid as nat * m as nat) * (
        LIMB as nat) + (self.hi as nat * m as nat) * limb_sq()) by (nonlinear_arith)
            requires
                self@ == self.lo as nat + self.mid as nat * (LIMB as nat) + self.hi as nat
                    * limb_sq(),
        ;
        (low, c2)
    }

    /// The product, or `None` when it does not fit.
    pub fn checked_mul(self, other: U192) -> (r: Option<U192>)
        ensures
            self@ * other@ < modulus() ==> r.is_some() && r.unwrap()@ == self@ * other@,
            self@ * other@ >= modulus() ==> r.is_none(),
    {
        let (p0, c0) = self.mul_limb(other.lo);
        let (p1, c1) = self.mul_limb(other.mid);
        let (p2, c2) = self.mul_limb(other.hi);
        let ghost total: nat = p0@ + c0 as nat * modulus() + (p1@ + c1 as nat * modulus()) * (
        LIMB as nat) + (p2@ + c2 as nat * modulus()) * limb_sq();
        assert(self@ * other@ == total) by (nonlinear_arith)
            requires
                other@ == other.lo as nat + other.mid as nat * (LIMB as nat) + other.hi as nat
                    * limb_sq(),
                self@ * other.lo as nat == p0@ + c0 as nat * modulus(),
                self@ * other.mid as nat == p1@ + c1 as nat * modulus(),
                self@ * other.hi as nat == p2@ + c2 as nat * modulus(),
                total == p0@ + c0 as nat * modulus() + (p1@ + c1 as nat * modulus()) * (
                LIMB as nat) + (p2@ + c2 as nat * modulus()) * limb_sq(),
        ;
        if c0 != 0 || c1 != 0 || c2 != 0 || p1.hi != 0 || p2.hi != 0 || p2.mid != 0 {
            return None;
        }
        let s1 = U192 { hi: p1.mid, mid: p1.lo, lo: 0 };
        let s2 = U192 { hi: p2.lo, mid: 0, lo: 0 };
        assert(total == p0@ + s1@ + s2@);
        match p0.checked_add(s1) {
            None => None,
            Some(partial) => partial.checked_add(s2),
        }
    }

    /// The whole product in 384 bits: its low and its high 192 bits.
    pub fn full_mul(self, other: U192) -> (r: (U192, U192))
        ensures
            self@ * other@ == r.0@ + r.1@ * modulus(),
    {
        let (p0, c0) = self.mul_limb(other.lo);
        let (p1, c1) = self.mul_limb(other.mid);
        let (p2, c2) = self.mul_limb(other.hi);
        let ghost total: nat = p0@ + c0 as nat * modulus() + (p1@ + c1 as nat * modulus()) * (
        LIMB as nat) + (p2@ + c2 as nat * modulus()) * limb_sq();
        proof {
            assert(self@ * other@ == total) by (nonlinear_arith)
                requires
                    other@ == other.lo as nat + other.mid as nat * (LIMB as nat) + other.hi as nat
                        * limb_sq(),
                    self@ * other.lo as nat == p0@ + c0 as nat * modulus(),
                    self@ * other.mid as nat == p1@ + c1 as nat * modulus(),
                    self@ * other.hi as nat == p2@ + c2 as nat * modulus(),
                    total == p0@ + c0 as nat * modulus() + (p1@ + c1 as nat * modulus()) * (
                    LIMB as nat) + (p2@ + c2 as nat * modulus()) * limb_sq(),
            ;
            self.lemma_limbs_of_view();
            other.lemma_limbs_of_view();
            assert(self@ * other@ < modulus() * modulus()) by (nonlinear_arith)
                requires
                    self@ < modulus(),
                    other@ < modulus(),
            ;
        }
        // the six columns of the sum of the three rows, with their carries
        let t1: u128 = p0.mid as u128 + p1.lo as u128;
        let t2: u128 = p0.hi as u128 + p1.mid as u128 + p2.lo as u128 + t1 / LIMB;
        let t3: u128 = c0 as u128 + p1.hi as u128 + p2.mid as u128 + t2 / LIMB;
        let t4: u128 = c1 as u128 + p2.hi as u128 + t3 / LIMB;
        let t5: u128 = c2 as u128 + t4 / LIMB;
        let low = U192 { hi: (t2 % LIMB) as u64, mid: (t1 % LIMB) as u64, lo: p0.lo };
        let high = U192 { hi: (t5 % LIMB) as u64, mid: (t4 % LIMB) as u64, lo: (t3 % LIMB) as u64 };
        proof {
            assert(total == low@ + high@ * modulus() + (t5 / LIMB) as nat * modulus() * modulus());
            assert(t5 / LIMB == 0);
        }
        (low, high)
    }
}

/// Divides the two-limb number `hi * 2^64 + lo` by `d`, for `hi < d`.
fn div_wide_limb(hi: u64, lo: u64, d: u64) -> (r: (u64, u64))
    requires
        hi < d,
    ensures
        hi as nat * (LIMB as nat) + lo as nat == r.0 as nat * d as nat + r.1 as nat,
        r.1 < d,
{
    let wide: u128 = hi as u128 * LIMB + lo as u128;
    let q: u128 = wide / (d as u128);
    let rem: u128 = wide % (d as u128);
    proof {
        lemma_fundamental_div_mod(wide as int, d as int);
        assert(q < LIMB) by (nonlinear_arith)
            requires
                wide == d * q + rem,
                wide < d * LIMB,
                0 <= rem,
                d > 0,
        ;
        assert(d as nat * q as nat == q as nat * d as nat) by (nonlinear_arith);
    }
    (q as u64, rem as u64)
}

impl U192 {
    /// Quotient and remainder of the division by a single nonzero limb.
    pub fn div_rem_limb(self, d: u64) -> (r: (U192, u64))
        requires
            d != 0,
        ensures
            r.0@ == self@ / (d as nat),
            r.1 == self@ % (d as nat),
    {
        let (hi, r2) = div_wide_limb(0, self.hi, d);
        let (mid, r1) = div_wide_limb(r2, self.mid, d);
        let (lo, r0) = div_wide_limb(r1, self.lo, d);
        let q = U192 { hi, mid, lo };
        proof {
            assert(q@ * d as nat == lo as nat * d as nat + (mid as nat * d as nat) * (LIMB as nat)
                + (hi as nat * d as nat) * limb_sq()) by (nonlinear_arith)
                requires
                    q@ == lo as nat + mid as nat * (LIMB as nat) + hi as nat * limb_sq(),
            ;
            assert(self@ == q@ * d as nat + r0 as nat);
            assert(d as int * q@ as int == q@ * d as nat) by (nonlinear_arith);
            lemma_fundamental_div_mod_converse(self@ as int, d as int, q@ as int, r0 as int);
        }
        (q, r0)
    }
}

/// The limb weights and the modulus as powers of two.
pub proof fn lemma_pow2_limbs()
    ensures
        pow2(0) == 1,
        pow2(64) == LIMB,
        pow2(128) == limb_sq(),
        pow2(192) == modulus(),
{
    lemma2_to64();
    lemma_pow2_adds(64, 64);
    lemma_pow2_adds(128, 64);
}

/// `2^bits` as a limb, for `bits < 64`.
fn pow2_limb(bits: u32) -> (p: u64)
    requires
        bits < 64,
    ensures
        p == pow2(bits as nat),
        p > 0,
{
    proof {
        lemma_u64_pow2_no_overflow(bits as nat);
        lemma_u64_shl_is_mul(1, bits as u64);
    }
    1u64 << (bits as u64)
}

impl U192 {
    /// Shifts left by `n` bits; the bits that leave the 192 are dropped.
    pub fn shl(self, n: u32) -> (r: U192)
        ensures
            r@ == (self@ * pow2(n as nat)) % modulus(),
    {
        proof {
            lemma_pow2_limbs();
        }
        if n >= 192 {
            proof {
                lemma_pow2_adds(192, (n - 192) as nat);
                assert(self@ * (modulus() * pow2((n - 192) as nat)) == modulus() * (self@ * pow2(
                    (n - 192) as nat,
                ))) by (nonlinear_arith);
                lemma_mod_multiples_vanish(
                    (self@ * pow2((n - 192) as nat)) as int,
                    0,
                    modulus() as int,
                );
            }
            return Self::zero();
        }
        let words: u32 = n / 64;
        let bits: u32 = n % 64;
        let p: u64 = pow2_limb(bits);
        let (t, carry) = self.mul_limb(p);
        let r = if words == 0 {
            t
        } else if words == 1 {
            U192 { hi: t.mid, mid: t.lo, lo: 0 }
        } else {
            U192 { hi: t.lo, mid: 0, lo: 0 }
        };
        proof {
            let w: nat = pow2((64 * words) as nat);
            assert(w == if words == 0 { 1 } else if words == 1 { LIMB as nat } else { limb_sq() });
            lemma_pow2_adds(bits as nat, (64 * words) as nat);
            assert(r@ == (t@ * w) % modulus()) by {
                t.lemma_limbs_of_view();
                let dropped: nat = if words == 0 {
                    0
                } else if words == 1 {
                    t.hi as nat
                } else {
                    t.mid as nat + t.hi as nat * (LIMB as nat)
                };
                if words == 0 {
                    assert(t@ * w == t@) by (nonlinear_arith)
                        requires
                            w == 1,
                    ;
                } else if words == 1 {
                    assert(t@ * w == t@ * (LIMB as nat)) by (nonlinear_arith)
                        requires
                            w == LIMB as nat,
                    ;
                } else {
                    assert(t@ * w == t@ * limb_sq()) by (nonlinear_arith)
                        requires
                            w == limb_sq(),
                    ;
                }
                assert(t@ * w == modulus() * dropped + r@);
                r.lemma_limbs_of_view();
                lemma_fundamental_div_mod_converse(
                    (t@ * w) as int,
                    modulus() as int,
                    dropped as int,
                    r@ as int,
                );
            }
            assert(self@ * (p as nat * w) == modulus() * (carry as nat * w) + t@ * w)
                by (nonlinear_arith)
                requires
                    self@ * p as nat == t@ + carry as nat * modulus(),
            ;
            lemma_mod_multiples_vanish(
                (carry as nat * w) as int,
                (t@ * w) as int,
                modulus() as int,
            );
        }
        r
    }

    /// Shifts right by `n` bits.
    pub fn shr(self, n: u32) -> (r: U192)
        ensures
            r@ == self@ / pow2(n as nat),
    {
        proof {
            lemma_pow2_limbs();
        }
        if n >= 192 {
            proof {
                if n > 192 {
                    lemma_pow2_strictly_increases(192, n as nat);
                }
                lemma_basic_div(self@ as int, pow2(n as nat) as int);
            }
            return Self::zero();
        }
        let words: u32 = n / 64;
        let bits: u32 = n % 64;
        let t = if words == 0 {
            self
        } else if words == 1 {
            U192 { hi: 0, mid: self.hi, lo: self.mid }
        } else {
            U192 { hi: 0, mid: 0, lo: self.hi }
        };
        let p: u64 = pow2_limb(bits);
        let (q, _) = t.div_rem_limb(p);
        proof {
            let w: nat = pow2((64 * words) as nat);
            assert(w == if words == 0 { 1 } else if words == 1 { LIMB as nat } else { limb_sq() });
            assert(t@ == self@ / w) by {
                self.lemma_limbs_of_view();
            }
            lemma_pow2_adds((64 * words) as nat, bits as nat);
            lemma_div_denominator(self@ as int, w as int, p as int);
        }
        q
    }
}

/// A power does not shrink when its base grows.
pub proof fn lemma_pow_base_increases(a: nat, b: nat, e: nat)
    requires
        a <= b,
    ensures
        0 <= pow(a as int, e) <= pow(b as int, e),
    decreases e,
{
    reveal(pow);
    if e > 0 {
        lemma_pow_base_increases(a, b, (e - 1) as nat);
        let pa: int = pow(a as int, (e - 1) as nat);
        let pb: int = pow(b as int, (e - 1) as nat);
        assert(0 <= a * pa <= b * pb) by (nonlinear_arith)
            requires
                0 <= a <= b,
                0 <= pa <= pb,
        ;
    }
}

impl U192 {
    /// The sum, for operands whose sum fits.
    fn exact_add(self, other: U192) -> (r: U192)
        requires
            self@ + other@ < modulus(),
        ensures
            r@ == self@ + other@,
    {
        self.checked_add(other).unwrap()
    }

    /// The difference, for `other` at most `self`.
    fn exact_sub(self, other: U192) -> (r: U192)
        requires
            other@ <= self@,
        ensures
            r@ == self@ - other@,
    {
        self.checked_sub(other).unwrap()
    }

    /// Quotient and remainder of the division by a nonzero value.
    pub fn div_mod(self, d: U192) -> (r: (U192, U192))
        requires
            d@ != 0,
        ensures
            r.0@ == self@ / d@,
            r.1@ == self@ % d@,
    {
        if d.fits_u64() {
            let (q, rem) = self.div_rem_limb(d.lo);
            return (q, U192 { hi: 0, mid: 0, lo: rem });
        }
        let mut q = Self::zero();
        let mut rem = Self::zero();
        let mut i: u32 = 192;
        proof {
            lemma_pow2_limbs();
            self.lemma_limbs_of_view();
            lemma_basic_div(self@ as int, modulus() as int);
            assert(q@ * d@ == 0) by (nonlinear_arith)
                requires
                    q@ == 0,
            ;
        }
        while i > 0
            invariant
                i <= 192,
                d@ != 0,
                rem@ < d@,
                self@ / pow2(i as nat) == q@ * d@ + rem@,
            decreases i,
        {
            i = i - 1;
            let cur = self.shr(i);
            let bit: u64 = cur.lo % 2;
            let gap = d.exact_sub(rem).exact_sub(U192 { hi: 0, mid: 0, lo: bit });
            let ghost q0: nat = q@;
            let ghost qd: nat = q@ * d@;
            proof {
                lemma2_to64();
                lemma_pow2_pos(i as nat);
                lemma_pow2_adds(i as nat, 1);
                lemma_div_denominator(self@ as int, pow2(i as nat) as int, 2);
                cur.lemma_limbs_of_view();
                lemma_mod_mod(cur@ as int, 2, 0x8000_0000_0000_0000);
                lemma_fundamental_div_mod(cur@ as int, 2);
                assert(cur@ == 2 * qd + 2 * rem@ + bit as nat);
                assert(q0 <= qd) by (nonlinear_arith)
                    requires
                        qd == q0 * d@,
                        d@ >= 1,
                ;
                assert((2 * q0 + 1) * d@ == 2 * qd + d@ && (2 * q0) * d@ == 2 * qd)
                    by (nonlinear_arith)
                    requires
                        qd == q0 * d@,
                ;
            }
            if gap <= rem {
                rem = rem.exact_sub(gap);
                q = q.exact_add(q).exact_add(Self::one());
            } else {
                rem = rem.exact_add(rem).exact_add(U192 { hi: 0, mid: 0, lo: bit });
                q = q.exact_add(q);
            }
        }
        proof {
            lemma2_to64();
            assert(self@ / pow2(i as nat) == self@) by (nonlinear_arith)
                requires
                    pow2(i as nat) == 1,
            ;
            lemma_fundamental_div_mod_converse(self@ as int, d@ as int, q@ as int, rem@ as int);
        }
        (q, rem)
    }

    /// The quotient, or `None` for a zero divisor.
    pub fn checked_div(self, d: U192) -> (r: Option<U192>)
        ensures
            d@ != 0 ==> r.is_some() && r.unwrap()@ == self@ / d@,
            d@ == 0 ==> r.is_none(),
    {
        if d.is_zero() {
            None
        } else {
            Some(self.div_mod(d).0)
        }
    }

    /// `self` raised to the power `exp`, for a result that fits.
    pub fn pow(self, exp: U192) -> (r: U192)
        requires
            pow(self@ as int, exp@) < modulus(),
        ensures
            r@ == pow(self@ as int, exp@),
    {
        if exp.is_zero() {
            proof {
                lemma_pow0(self@ as int);
            }
            return Self::one();
        }
        if self.is_zero() {
            proof {
                lemma0_pow(exp@);
            }
            return Self::zero();
        }
        if self.hi == 0 && self.mid == 0 && self.lo == 1 {
            proof {
                lemma1_pow(exp@);
            }
            return Self::one();
        }
        proof {
            if exp@ >= 192 {
                lemma_pow2_limbs();
                lemma_pow2(192);
                lemma_pow_increases(2, 192, exp@);
                lemma_pow_base_increases(2, self@, exp@);
            }
            lemma_pow0(self@ as int);
        }
        let n: u64 = exp.as_u64();
        let mut acc = Self::one();
        let mut i: u64 = 0;
        while i < n
            invariant
                i <= n,
                n == exp@,
                self@ >= 2,
                acc@ == pow(self@ as int, i as nat),
                pow(self@ as int, exp@) < modulus(),
            decreases n - i,
        {
            proof {
                lemma_pow_increases(self@, (i + 1) as nat, n as nat);
                assert(pow(self@ as int, (i + 1) as nat) == self@ * pow(self@ as int, i as nat))
                    by {
                    reveal(pow);
                }
                assert(acc@ * self@ == self@ * acc@) by (nonlinear_arith);
            }
            acc = acc.checked_mul(self).unwrap();
            i = i + 1;
        }
        acc
    }
}

impl Default for U192 {
    fn default() -> (r: U192)
        ensures
            r@ == 0,
    {
        U192 { hi: 0, mid: 0, lo: 0 }
    }
}

impl From<u8> for U192 {
    fn from(v: u8) -> (r: U192)
        ensures
            r@ == v,
    {
        U192 { hi: 0, mid: 0, lo: v as u64 }
    }
}

impl FromSpecImpl<u8> for U192 {
    open spec fn obeys_from_spec() -> bool {
        true
    }

    open spec fn from_spec(v: u8) -> U192 {
        U192 { hi: 0, mid: 0, lo: v as u64 }
    }
}

impl From<u16> for U192 {
    fn from(v: u16) -> (r: U192)
        ensures
            r@ == v,
    {
        U192 { hi: 0, mid: 0, lo: v as u64 }
    }
}

impl FromSpecImpl<u16> for U192 {
    open spec fn obeys_from_spec() -> bool {
        true
    }

    open spec fn from_spec(v: u16) -> U192 {
        U192 { hi: 0, mid: 0, lo: v as u64 }
    }
}

impl From<u32> for U192 {
    fn from(v: u32) -> (r: U192)
        ensures
            r@ == v,
    {
        U192 { hi: 0, mid: 0, lo: v as u64 }
    }
}

impl FromSpecImpl<u32> for U192 {
    open spec fn obeys_from_spec() -> bool {
        true
    }

    open spec fn from_spec(v: u32) -> U192 {
        U192 { hi: 0, mid: 0, lo: v as u64 }
    }
}

impl From<u64> for U192 {
    fn from(v: u64) -> (r: U192)
        ensures
            r@ == v,
    {
        U192 { hi: 0, mid: 0, lo: v }
    }
}

impl FromSpecImpl<u64> for U192 {
    open spec fn obeys_from_spec() -> bool {
        true
    }

    open spec fn from_spec(v: u64) -> U192 {
        U192 { hi: 0, mid: 0, lo: v }
    }
}

impl From<u128> for U192 {
    fn from(v: u128) -> (r: U192)
        ensures
            r@ == v,
    {
        U192 { hi: 0, mid: (v / LIMB) as u64, lo: (v % LIMB) as u64 }
    }
}

impl FromSpecImpl<u128> for U192 {
    open spec fn obeys_from_spec() -> bool {
        true
    }

    open spec fn from_spec(v: u128) -> U192 {
        U192 { hi: 0, mid: (v / LIMB) as u64, lo: (v % LIMB) as u64 }
    }
}

impl U192 {
    /// Appends the decimal digits of the value to `s`.
    pub fn push_digits(self, s: &mut String)
        ensures
            final(s)@ == old(s)@ + digits(self@),
        decreases self@,
    {
        if self.fits_u64() && self.lo < 10 {
            s.push(digit_to_char(self.lo as u8));
        } else {
            let (q, d) = self.div_rem_limb(10);
            q.push_digits(s);
            s.push(digit_to_char(d as u8));
        }
        assert(final(s)@ =~= old(s)@ + digits(self@));
    }

    /// The value in decimal digits, without leading zeros.
    pub fn to_string(&self) -> (r: String)
        ensures
            r@ == digits(self@),
    {
        let mut s = String::new();
        self.push_digits(&mut s);
        assert(s@ =~= digits(self@));
        s
    }
}

} // verus!
