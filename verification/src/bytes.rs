//! Integers as bytes, in either byte order.

use vstd::prelude::*;

verus! {

/// `u16::to_ne_bytes`: the two bytes of `x` in the order of the machine, which
/// is either the low byte first or the high byte first.
#[verifier::external_body]
fn native_bytes_u16(x: u16) -> (r: [u8; 2])
    ensures
        r@ == seq![(x % 256) as u8, (x / 256) as u8] || r@ == seq![
            (x / 256) as u8,
            (x % 256) as u8,
        ],
{
    x.to_ne_bytes()
}

/// Whether `probe`, the two bytes of the number one in some byte order, has
/// the low byte first.
pub fn low_byte_first(probe: [u8; 2]) -> (r: bool)
    ensures
        r == (probe@[0] == 1),
{
    probe[0] == 1
}

/// Whether this machine stores the low byte of an integer first.
///
/// The answer is the machine's: nothing is known of it before the program
/// runs, and every caller is verified for both answers.
pub(crate) fn native_is_little_endian() -> bool {
    low_byte_first(native_bytes_u16(1))
}

/// The `len` low bytes of `x`, least significant first.
pub open spec fn le_bytes(x: nat, len: nat) -> Seq<u8>
    decreases len,
{
    if len == 0 {
        Seq::empty()
    } else {
        seq![(x % 256) as u8] + le_bytes(x / 256, (len - 1) as nat)
    }
}

/// The number whose bytes, least significant first, are `s`.
pub open spec fn le_value(s: Seq<u8>) -> nat
    decreases s.len(),
{
    if s.len() == 0 {
        0
    } else {
        s[0] as nat + 256 * le_value(s.drop_first())
    }
}

/// `256^len`.
pub open spec fn byte_range(len: nat) -> nat
    decreases len,
{
    if len == 0 {
        1
    } else {
        256 * byte_range((len - 1) as nat)
    }
}

/// The bytes of a limb in the given order.
pub open spec fn limb_bytes(x: u64, little: bool) -> Seq<u8> {
    if little {
        le_bytes(x as nat, 8)
    } else {
        le_bytes(x as nat, 8).reverse()
    }
}

/// The limb that eight bytes in the given order stand for.
pub open spec fn limb_value(s: Seq<u8>, little: bool) -> nat {
    if little {
        le_value(s)
    } else {
        le_value(s.reverse())
    }
}

/// `le_bytes` has the length it was asked for.
pub proof fn lemma_le_bytes_len(x: nat, len: nat)
    ensures
        le_bytes(x, len).len() == len,
    decreases len,
{
    if len > 0 {
        lemma_le_bytes_len(x / 256, (len - 1) as nat);
    }
}

/// Reading back the bytes of `x` gives `x` reduced to `len` bytes.
pub proof fn lemma_le_value_of_bytes(x: nat, len: nat)
    ensures
        le_value(le_bytes(x, len)) == x % byte_range(len),
        x < byte_range(len) ==> le_value(le_bytes(x, len)) == x,
    decreases len,
{
    if len == 0 {
        assert(le_bytes(x, len) =~= Seq::<u8>::empty());
    } else {
        let rest = le_bytes(x / 256, (len - 1) as nat);
        let all = le_bytes(x, len);
        lemma_le_value_of_bytes(x / 256, (len - 1) as nat);
        lemma_le_bytes_len(x / 256, (len - 1) as nat);
        assert(all.drop_first() =~= rest);
        let m: nat = byte_range((len - 1) as nat);
        lemma_byte_range_positive((len - 1) as nat);
        // x % (256 * m) == x % 256 + 256 * ((x / 256) % m)
        vstd::arithmetic::div_mod::lemma_fundamental_div_mod(x as int, 256);
        vstd::arithmetic::div_mod::lemma_fundamental_div_mod((x / 256) as int, m as int);
        let q: int = (x / 256) as int / m as int;
        let v: int = (x % 256) as int + 256 * (((x / 256) % m) as int);
        assert(x == (256 * m) * q + v) by (nonlinear_arith)
            requires
                x == 256 * (x / 256) + x % 256,
                (x / 256) as int == m * q + ((x / 256) % m) as int,
                v == (x % 256) as int + 256 * (((x / 256) % m) as int),
        ;
        assert((256 * m) * q == q * (256 * m)) by (nonlinear_arith);
        vstd::arithmetic::div_mod::lemma_fundamental_div_mod_converse(
            x as int,
            (256 * m) as int,
            q,
            v,
        );
        if x < byte_range(len) {
            vstd::arithmetic::div_mod::lemma_small_mod(x, byte_range(len));
        }
    }
}

/// `256^len` is positive.
pub proof fn lemma_byte_range_positive(len: nat)
    ensures
        byte_range(len) > 0,
    decreases len,
{
    if len > 0 {
        lemma_byte_range_positive((len - 1) as nat);
    }
}

/// The value of a byte sequence lies below `256^len`.
pub proof fn lemma_le_value_bound(s: Seq<u8>)
    ensures
        le_value(s) < byte_range(s.len()),
    decreases s.len(),
{
    if s.len() > 0 {
        lemma_le_value_bound(s.drop_first());
    }
}

/// Writing out the value of a byte sequence gives the sequence back.
pub proof fn lemma_le_bytes_of_value(s: Seq<u8>)
    ensures
        le_bytes(le_value(s), s.len()) == s,
    decreases s.len(),
{
    if s.len() == 0 {
        assert(le_bytes(le_value(s), s.len()) =~= s);
    } else {
        let rest = s.drop_first();
        lemma_le_bytes_of_value(rest);
        let v: nat = le_value(s);
        assert(v % 256 == s[0] as nat && v / 256 == le_value(rest)) by {
            vstd::arithmetic::div_mod::lemma_fundamental_div_mod_converse(
                v as int,
                256,
                le_value(rest) as int,
                s[0] as int,
            );
        }
        assert(le_bytes(v, s.len()) =~= s);
    }
}

/// `256^8` is `2^64`.
pub proof fn lemma_byte_range_8()
    ensures
        byte_range(8) == 0x1_0000_0000_0000_0000,
{
    reveal_with_fuel(byte_range, 9);
}

/// A limb survives the trip through its bytes, in either order.
pub proof fn lemma_limb_round_trip(x: u64, little: bool)
    ensures
        limb_bytes(x, little).len() == 8,
        limb_value(limb_bytes(x, little), little) == x,
{
    lemma_le_bytes_len(x as nat, 8);
    lemma_byte_range_8();
    lemma_le_value_of_bytes(x as nat, 8);
    let b = le_bytes(x as nat, 8);
    assert(b.reverse().reverse() =~= b);
}

/// Eight bytes survive the trip through the limb they stand for.
pub proof fn lemma_bytes_round_trip(s: Seq<u8>, little: bool)
    requires
        s.len() == 8,
    ensures
        limb_value(s, little) <= u64::MAX,
        limb_bytes(limb_value(s, little) as u64, little) == s,
{
    lemma_byte_range_8();
    if little {
        lemma_le_value_bound(s);
        lemma_le_bytes_of_value(s);
    } else {
        lemma_le_value_bound(s.reverse());
        lemma_le_bytes_of_value(s.reverse());
        assert(s.reverse().reverse() =~= s);
    }
}

/// Writes the eight bytes of `limb` into `out`, starting at `offset`.
pub fn write_limb<const N: usize>(out: &mut [u8; N], offset: usize, limb: u64, little: bool)
    requires
        offset + 8 <= N,
    ensures
        final(out)@.len() == N,
        final(out)@.subrange(offset as int, offset + 8) == limb_bytes(limb, little),
        forall|j: int| 0 <= j < N && !(offset <= j < offset + 8) ==> final(out)@[j] == old(out)@[j],
{
    let mut rest: u64 = limb;
    let mut i: usize = 0;
    proof {
        lemma_le_bytes_len(limb as nat, 8);
    }
    while i < 8
        invariant
            i <= 8,
            offset + 8 <= N,
            out@.len() == N,
            le_bytes(limb as nat, 8) =~= le_bytes(limb as nat, i as nat) + le_bytes(
                rest as nat,
                (8 - i) as nat,
            ),
            forall|j: int| 0 <= j < N && !(offset <= j < offset + 8) ==> out@[j] == old(out)@[j],
            forall|k: int|
                0 <= k < i ==> out@[if little {
                    offset + k
                } else {
                    offset + 7 - k
                }] == le_bytes(limb as nat, 8)[k],
        decreases 8 - i,
    {
        let b: u8 = (rest % 256) as u8;
        let at: usize = if little {
            offset + i
        } else {
            offset + 7 - i
        };
        out[at] = b;
        proof {
            lemma_le_bytes_len(limb as nat, i as nat);
            lemma_le_bytes_len(rest as nat, (8 - i) as nat);
            lemma_le_bytes_len((rest / 256) as nat, (8 - i - 1) as nat);
            lemma_le_bytes_push(limb as nat, rest as nat, i as nat, 8);
            assert(le_bytes(limb as nat, 8)[i as int] == b);
        }
        rest = rest / 256;
        i = i + 1;
    }
    proof {
        let got = out@.subrange(offset as int, offset + 8);
        let want = limb_bytes(limb, little);
        assert(got.len() == 8);
        assert forall|k: int| 0 <= k < 8 implies got[k] == want[k] by {
            if little {
                assert(got[k] == out@[offset + k]);
            } else {
                assert(got[k] == out@[offset + 7 - (7 - k)]);
                assert(want[k] == le_bytes(limb as nat, 8)[7 - k]);
            }
        }
        assert(got =~= want);
    }
}

/// One more byte of a partly written number.
proof fn lemma_le_bytes_push(x: nat, rest: nat, i: nat, len: nat)
    requires
        i < len,
        le_bytes(x, len) =~= le_bytes(x, i) + le_bytes(rest, (len - i) as nat),
    ensures
        le_bytes(x, len)[i as int] == (rest % 256) as u8,
        le_bytes(x, len) =~= le_bytes(x, i + 1) + le_bytes(rest / 256, (len - i - 1) as nat),
        le_bytes(x, i + 1) =~= le_bytes(x, i).push((rest % 256) as u8),
{
    lemma_le_bytes_len(x, i);
    lemma_le_bytes_len(x, i + 1);
    lemma_le_bytes_len(x, len);
    lemma_le_bytes_len(rest, (len - i) as nat);
    lemma_le_bytes_len(rest / 256, (len - i - 1) as nat);
    let tail = le_bytes(rest, (len - i) as nat);
    assert(tail[0] == (rest % 256) as u8);
    assert(le_bytes(x, len)[i as int] == tail[0]);
    lemma_le_bytes_prefix(x, i, i + 1);
    lemma_le_bytes_prefix(x, i + 1, len);
    assert(le_bytes(x, i + 1)[i as int] == le_bytes(x, len)[i as int]);
    assert(le_bytes(x, i + 1) =~= le_bytes(x, i).push((rest % 256) as u8));
    assert(tail.drop_first() =~= le_bytes(rest / 256, (len - i - 1) as nat));
}

/// The bytes of a shorter length are a prefix of those of a longer one.
proof fn lemma_le_bytes_prefix(x: nat, short: nat, long: nat)
    requires
        short <= long,
    ensures
        le_bytes(x, short) =~= le_bytes(x, long).subrange(0, short as int),
    decreases short,
{
    lemma_le_bytes_len(x, short);
    lemma_le_bytes_len(x, long);
    if short > 0 {
        lemma_le_bytes_prefix(x / 256, (short - 1) as nat, (long - 1) as nat);
        lemma_le_bytes_len(x / 256, (short - 1) as nat);
        lemma_le_bytes_len(x / 256, (long - 1) as nat);
        let a = le_bytes(x, short);
        let b = le_bytes(x, long).subrange(0, short as int);
        assert forall|k: int| 0 <= k < short implies a[k] == b[k] by {
            if k > 0 {
                assert(a[k] == le_bytes(x / 256, (short - 1) as nat)[k - 1]);
                assert(b[k] == le_bytes(x / 256, (long - 1) as nat)[k - 1]);
                assert(le_bytes(x / 256, (short - 1) as nat)[k - 1] == le_bytes(
                    x / 256,
                    (long - 1) as nat,
                ).subrange(0, short - 1)[k - 1]);
            }
        }
    }
}

/// Reads the limb that the eight bytes of `bytes` from `offset` on stand for.
pub fn read_limb<const N: usize>(bytes: &[u8; N], offset: usize, little: bool) -> (r: u64)
    requires
        offset + 8 <= N,
    ensures
        r == limb_value(bytes@.subrange(offset as int, offset + 8), little),
{
    let ghost src = bytes@.subrange(offset as int, offset + 8);
    let ghost ordered = if little {
        src
    } else {
        src.reverse()
    };
    let mut acc: u64 = 0;
    let mut i: usize = 8;
    proof {
        assert(ordered.subrange(8, 8) =~= Seq::<u8>::empty());
        lemma_byte_range_8();
    }
    while i > 0
        invariant
            i <= 8,
            offset + 8 <= N,
            bytes@.len() == N,
            src == bytes@.subrange(offset as int, offset + 8),
            ordered == if little {
                src
            } else {
                src.reverse()
            },
            acc == le_value(ordered.subrange(i as int, 8)),
            acc < byte_range((8 - i) as nat),
        decreases i,
    {
        i = i - 1;
        let at: usize = if little {
            offset + i
        } else {
            offset + 7 - i
        };
        let b: u8 = bytes[at];
        proof {
            let part = ordered.subrange(i as int, 8);
            assert(part.drop_first() =~= ordered.subrange(i + 1, 8));
            assert(part[0] == b);
            reveal_with_fuel(byte_range, 9);
            assert(byte_range((8 - i) as nat) == 256 * byte_range((8 - i - 1) as nat));
            assert(byte_range((8 - i) as nat) <= byte_range(8)) by {
                lemma_byte_range_increases((8 - i) as nat, 8);
            }
        }
        acc = acc * 256 + b as u64;
    }
    proof {
        assert(ordered.subrange(0, 8) =~= ordered);
    }
    acc
}

/// `256^len` does not shrink as `len` grows.
proof fn lemma_byte_range_increases(a: nat, b: nat)
    requires
        a <= b,
    ensures
        byte_range(a) <= byte_range(b),
    decreases b,
{
    if a < b {
        lemma_byte_range_increases(a, (b - 1) as nat);
    }
}

/// The bytes of three limbs one after the other, each in the given order.
pub fn limbs_to_bytes(first: u64, second: u64, third: u64, little: bool) -> (r: [u8; 24])
    ensures
        r@ == limb_bytes(first, little) + limb_bytes(second, little) + limb_bytes(third, little),
{
    let mut out: [u8; 24] = [0u8; 24];
    write_limb(&mut out, 0, first, little);
    write_limb(&mut out, 8, second, little);
    write_limb(&mut out, 16, third, little);
    proof {
        let want = limb_bytes(first, little) + limb_bytes(second, little) + limb_bytes(
            third,
            little,
        );
        lemma_limb_round_trip(first, little);
        lemma_limb_round_trip(second, little);
        lemma_limb_round_trip(third, little);
        assert forall|j: int| 0 <= j < 24 implies out@[j] == want[j] by {
            if j < 8 {
                assert(out@[j] == out@.subrange(0, 8)[j]);
            } else if j < 16 {
                assert(out@[j] == out@.subrange(8, 16)[j - 8]);
            } else {
                assert(out@[j] == out@.subrange(16, 24)[j - 16]);
            }
        }
        assert(out@ =~= want);
    }
    out
}

} // verus!
