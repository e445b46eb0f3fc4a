//! Powers of ten and rounding division.

use vstd::prelude::*;

verus! {

/// Ten to the power `e`.
pub open spec fn pow10(e: nat) -> nat
    decreases e,
{
    if e == 0 {
        1
    } else {
        10 * pow10((e - 1) as nat)
    }
}

/// `a / b` rounded up, for positive `b`.
pub open spec fn div_ceil(a: nat, b: nat) -> nat {
    ((a + b - 1) / (b as int)) as nat
}

/// `a / b` rounded to the nearest integer, a half rounded up, for positive
/// even `b`: half of `b` is added before the division.
pub open spec fn div_nearest(a: nat, b: nat) -> nat {
    (a + b / 2) / b
}

/// The magnitude of `a`.
pub open spec fn magnitude(a: int) -> nat {
    if a >= 0 {
        a as nat
    } else {
        (-a) as nat
    }
}

/// `a / b` rounded toward zero, for `b` other than zero: the quotient of
/// the magnitudes, negative when the signs differ.
pub open spec fn div_toward_zero(a: int, b: int) -> int {
    if (a >= 0) == (b > 0) {
        (magnitude(a) / magnitude(b)) as int
    } else {
        -((magnitude(a) / magnitude(b)) as int)
    }
}

/// Rounding toward zero for a positive divisor, and division by one.
pub proof fn lemma_div_toward_zero_positive(a: int, b: int)
    requires
        b > 0,
    ensures
        div_toward_zero(a, b) == if a >= 0 {
            a / b
        } else {
            -((-a) / b)
        },
        b == 1 ==> div_toward_zero(a, b) == a,
{
    assert(magnitude(b) == b);
    if b == 1 {
        assert(magnitude(a) / 1 == magnitude(a));
    }
}

/// Division by minus one negates.
pub proof fn lemma_div_toward_zero_negates(a: int)
    ensures
        div_toward_zero(a, -1) == -a,
{
    assert(magnitude(-1) == 1);
    assert(magnitude(a) / 1 == magnitude(a));
}

/// The powers of ten up to `10^16`.
pub proof fn lemma_pow10_values()
    ensures
        pow10(0) == 1,
        pow10(1) == 10,
        pow10(2) == 100,
        pow10(3) == 1_000,
        pow10(4) == 10_000,
        pow10(5) == 100_000,
        pow10(6) == 1_000_000,
        pow10(7) == 10_000_000,
        pow10(8) == 100_000_000,
        pow10(9) == 1_000_000_000,
        pow10(10) == 10_000_000_000,
        pow10(11) == 100_000_000_000,
        pow10(12) == 1_000_000_000_000,
        pow10(13) == 10_000_000_000_000,
        pow10(14) == 100_000_000_000_000,
        pow10(15) == 1_000_000_000_000_000,
        pow10(16) == 10_000_000_000_000_000,
{
    reveal_with_fuel(pow10, 18);
}

/// A power of ten is positive.
pub proof fn lemma_pow10_positive(e: nat)
    ensures
        pow10(e) > 0,
    decreases e,
{
    if e > 0 {
        lemma_pow10_positive((e - 1) as nat);
    }
}

/// A power of ten does not shrink as its exponent grows.
pub proof fn lemma_pow10_increases(a: nat, b: nat)
    requires
        a <= b,
    ensures
        pow10(a) <= pow10(b),
    decreases b,
{
    if a < b {
        lemma_pow10_increases(a, (b - 1) as nat);
    }
}

/// The power of ten of a sum of exponents is the product of the powers.
pub proof fn lemma_pow10_adds(a: nat, b: nat)
    ensures
        pow10(a + b) == pow10(a) * pow10(b),
    decreases a,
{
    if a == 0 {
        assert(pow10(0) * pow10(b) == pow10(b)) by (nonlinear_arith)
            requires
                pow10(0) == 1,
        ;
    } else {
        lemma_pow10_adds((a - 1) as nat, b);
        assert(10 * (pow10((a - 1) as nat) * pow10(b)) == (10 * pow10((a - 1) as nat)) * pow10(b))
            by (nonlinear_arith);
    }
}

/// Rounding up adds one to the quotient exactly when there is a remainder.
pub proof fn lemma_div_ceil(a: nat, b: nat)
    requires
        b > 0,
    ensures
        div_ceil(a, b) == a / b + if a % b == 0 { 0nat } else { 1nat },
        div_ceil(a, b) * b >= a,
        a / b <= div_ceil(a, b) <= a / b + 1,
{
    let q: int = a as int / b as int;
    let r: int = a as int % b as int;
    vstd::arithmetic::div_mod::lemma_fundamental_div_mod(a as int, b as int);
    assert(b * q == q * b) by (nonlinear_arith);
    if r == 0 {
        vstd::arithmetic::div_mod::lemma_fundamental_div_mod_converse(
            a + b - 1,
            b as int,
            q,
            b - 1,
        );
    } else {
        assert((q + 1) * b == q * b + b) by (nonlinear_arith);
        vstd::arithmetic::div_mod::lemma_fundamental_div_mod_converse(
            a + b - 1,
            b as int,
            q + 1,
            r - 1,
        );
    }
    assert(div_ceil(a, b) * b >= a) by (nonlinear_arith)
        requires
            a == q * b + r,
            0 <= r < b,
            div_ceil(a, b) == q + if r == 0 { 0nat } else { 1nat },
    ;
}

/// Rounding to the nearest adds one to the quotient exactly when the
/// remainder is at least half of the divisor; it lies between rounding down
/// and rounding up.
pub proof fn lemma_div_nearest(a: nat, b: nat)
    requires
        b > 0,
        b % 2 == 0,
    ensures
        div_nearest(a, b) == a / b + if 2 * (a % b) >= b { 1nat } else { 0nat },
        a / b <= div_nearest(a, b) <= div_ceil(a, b) <= a / b + 1,
{
    let q: int = a as int / b as int;
    let r: int = a as int % b as int;
    let h: int = b as int / 2;
    vstd::arithmetic::div_mod::lemma_fundamental_div_mod(a as int, b as int);
    assert(b * q == q * b) by (nonlinear_arith);
    if 2 * r >= b {
        assert((q + 1) * b == q * b + b) by (nonlinear_arith);
        vstd::arithmetic::div_mod::lemma_fundamental_div_mod_converse(
            a + h,
            b as int,
            q + 1,
            r + h - b,
        );
    } else {
        vstd::arithmetic::div_mod::lemma_fundamental_div_mod_converse(a + h, b as int, q, r + h);
    }
    lemma_div_ceil(a, b);
}

} // verus!
