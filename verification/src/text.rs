//! Decimal digits as text.

use vstd::prelude::*;

verus! {

/// `String::push`: the string afterwards is the string before with the
/// character `c` at its end.
pub assume_specification[ String::push ](s: &mut String, c: char)
    ensures
        final(s)@ == old(s)@.push(c),
;

/// The character of the digit `d`, for `d` below ten.
pub open spec fn digit_char(d: nat) -> char {
    (48 + d) as char
}

/// The decimal digits of `n`, most significant first, without leading zeros.
pub open spec fn digits(n: nat) -> Seq<char>
    decreases n,
{
    if n < 10 {
        seq![digit_char(n)]
    } else {
        digits(n / 10).push(digit_char(n % 10))
    }
}

/// The lowest `width` decimal digits of `n`, most significant first.
pub open spec fn padded_digits(n: nat, width: nat) -> Seq<char>
    decreases width,
{
    if width == 0 {
        Seq::empty()
    } else {
        padded_digits(n / 10, (width - 1) as nat).push(digit_char(n % 10))
    }
}

/// `s` without its trailing zero digits.
pub open spec fn trim_zeros(s: Seq<char>) -> Seq<char>
    decreases s.len(),
{
    if s.len() > 0 && s.last() == '0' {
        trim_zeros(s.drop_last())
    } else {
        s
    }
}

/// The digits after the decimal point for the fraction `frac / 10^width`:
/// `width` digits without the trailing zeros, and a single `0` when nothing
/// is left.
pub open spec fn fraction_digits(frac: nat, width: nat) -> Seq<char> {
    let kept = trim_zeros(padded_digits(frac, width));
    if kept.len() == 0 {
        seq!['0']
    } else {
        kept
    }
}

/// The character of a digit.
pub fn digit_to_char(d: u8) -> (c: char)
    requires
        d < 10,
    ensures
        c == digit_char(d as nat),
{
    (48u8 + d) as char
}

/// Appends the decimal digits of `n`.
pub fn push_digits(s: &mut String, n: u128)
    ensures
        final(s)@ == old(s)@ + digits(n as nat),
    decreases n,
{
    if n >= 10 {
        push_digits(s, n / 10);
    }
    s.push(digit_to_char((n % 10) as u8));
    assert(final(s)@ =~= old(s)@ + digits(n as nat));
}

/// Appends the lowest `width` decimal digits of `n`.
pub fn push_padded_digits(s: &mut String, n: u64, width: u32)
    ensures
        final(s)@ == old(s)@ + padded_digits(n as nat, width as nat),
    decreases width,
{
    if width > 0 {
        push_padded_digits(s, n / 10, width - 1);
        s.push(digit_to_char((n % 10) as u8));
    }
    assert(final(s)@ =~= old(s)@ + padded_digits(n as nat, width as nat));
}

/// Appends the digits after the decimal point for `frac / 10^width`.
pub fn push_fraction_digits(s: &mut String, frac: u64, width: u32)
    ensures
        final(s)@ == old(s)@ + fraction_digits(frac as nat, width as nat),
{
    let mut rest: u64 = frac;
    let mut left: u32 = width;
    while left > 0 && rest % 10 == 0
        invariant
            trim_zeros(padded_digits(rest as nat, left as nat)) == trim_zeros(
                padded_digits(frac as nat, width as nat),
            ),
        decreases left,
    {
        proof {
            let full = padded_digits(rest as nat, left as nat);
            assert(full.drop_last() =~= padded_digits((rest / 10) as nat, (left - 1) as nat));
        }
        rest = rest / 10;
        left = left - 1;
    }
    if left == 0 {
        s.push('0');
        assert(final(s)@ =~= old(s)@ + fraction_digits(frac as nat, width as nat));
    } else {
        push_padded_digits(s, rest, left);
        proof {
            let full = padded_digits(rest as nat, left as nat);
            assert(full.last() == digit_char((rest % 10) as nat));
            assert(trim_zeros(full) == full);
        }
    }
}

} // verus!
