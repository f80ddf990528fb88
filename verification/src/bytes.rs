//! The 16 bytes of a 128-bit number, most significant byte first.

use crate::crockford::{joined, lemma_pow2_values};
use crate::order::{lemma_lex_less_push, lex_less};
use vstd::arithmetic::div_mod::{lemma_div_denominator, lemma_mod_breakdown, lemma_small_mod};
use vstd::arithmetic::power2::{
    lemma2_to64, lemma_pow2_adds, lemma_pow2_pos, lemma_pow2_strictly_increases, pow2,
};
use vstd::bits::lemma_u128_shr_is_div;
use vstd::prelude::*;

verus! {

/// The `count` lowest bytes of `value`, most significant first.
pub open spec fn be_bytes(value: nat, count: nat) -> Seq<u8>
    decreases count,
{
    if count == 0 {
        Seq::empty()
    } else {
        be_bytes(value / 256, (count - 1) as nat).push((value % 256) as u8)
    }
}

/// The number that `bytes` denote, most significant byte first.
pub open spec fn be_number(bytes: Seq<u8>) -> nat
    decreases bytes.len(),
{
    if bytes.len() == 0 {
        0
    } else {
        be_number(bytes.drop_last()) * 256 + bytes.last() as nat
    }
}

/// The number of a byte, by which byte strings are compared.
pub open spec fn byte_number() -> spec_fn(u8) -> int {
    |byte: u8| byte as int
}

/// Byte strings are compared byte by byte from the front, a proper prefix
/// being less.
pub open spec fn bytes_less(a: Seq<u8>, b: Seq<u8>) -> bool {
    lex_less(a, b, byte_number())
}

/// As many bytes come out as were asked for.
pub proof fn lemma_be_bytes_len(value: nat, count: nat)
    ensures
        be_bytes(value, count).len() == count,
    decreases count,
{
    if count > 0 {
        lemma_be_bytes_len(value / 256, (count - 1) as nat);
    }
}

/// The byte at index `i` has the weight 256 to the power of the number of
/// bytes that follow it.
pub proof fn lemma_be_bytes_index(value: nat, count: nat, i: int)
    requires
        0 <= i < count,
    ensures
        be_bytes(value, count).len() == count,
        pow2((8 * (count - 1 - i)) as nat) > 0,
        be_bytes(value, count)[i] as nat == (value / pow2((8 * (count - 1 - i)) as nat)) % 256,
    decreases count,
{
    lemma_be_bytes_len(value, count);
    lemma_be_bytes_len(value / 256, (count - 1) as nat);
    lemma2_to64();
    let after = (8 * (count - 1 - i)) as nat;
    lemma_pow2_pos(after);
    let front = be_bytes(value / 256, (count - 1) as nat);
    assert(be_bytes(value, count) == front.push((value % 256) as u8));
    if i < count - 1 {
        let before = (8 * (count - 2 - i)) as nat;
        lemma_be_bytes_index(value / 256, (count - 1) as nat, i);
        lemma_pow2_pos(before);
        lemma_pow2_adds(8, before);
        assert(after == 8 + before);
        assert(pow2(after) == 256 * pow2(before));
        lemma_div_denominator(value as int, 256, pow2(before) as int);
        assert((value / 256) / pow2(before) == value / pow2(after));
        assert(be_bytes(value, count)[i] == front[i]);
    } else {
        assert(after == 0);
        assert(value / pow2(after) == value);
    }
}

/// The number that bytes denote is below 256 to the power of their number.
pub proof fn lemma_be_number_bound(bytes: Seq<u8>)
    ensures
        be_number(bytes) < pow2(8 * bytes.len()),
    decreases bytes.len(),
{
    lemma2_to64();
    if bytes.len() > 0 {
        lemma_be_number_bound(bytes.drop_last());
        lemma_pow2_adds(8 * (bytes.len() - 1) as nat, 8);
    }
}

/// Reading the bytes of a number gives the number back, as far as `count`
/// bytes hold it.
pub proof fn lemma_be_number_of_bytes(value: nat, count: nat)
    ensures
        pow2(8 * count) > 0,
        be_number(be_bytes(value, count)) == value % pow2(8 * count),
    decreases count,
{
    lemma2_to64();
    lemma_pow2_pos(8 * count);
    if count == 0 {
        assert(be_bytes(value, count).len() == 0);
    } else {
        let front = be_bytes(value / 256, (count - 1) as nat);
        let fewer = (8 * (count - 1)) as nat;
        assert(be_bytes(value, count).drop_last() =~= front);
        lemma_be_number_of_bytes(value / 256, (count - 1) as nat);
        lemma_pow2_adds(8, fewer);
        lemma_mod_breakdown(value as int, 256, pow2(fewer) as int);
    }
}

/// Writing the number that bytes denote gives the bytes back.
pub proof fn lemma_be_bytes_of_number(bytes: Seq<u8>)
    ensures
        be_bytes(be_number(bytes), bytes.len()) == bytes,
    decreases bytes.len(),
{
    if bytes.len() == 0 {
        assert(be_bytes(be_number(bytes), 0) =~= bytes);
    } else {
        let init = bytes.drop_last();
        lemma_be_bytes_of_number(init);
        assert(be_number(bytes) / 256 == be_number(init));
        assert(be_number(bytes) % 256 == bytes.last() as nat);
        assert(init.push(bytes.last()) =~= bytes);
    }
}

/// Numbers that `count` bytes hold compare as their bytes do.
pub proof fn lemma_be_bytes_order(a: nat, b: nat, count: nat)
    requires
        a < pow2(8 * count),
        b < pow2(8 * count),
    ensures
        a < b <==> bytes_less(be_bytes(a, count), be_bytes(b, count)),
        a == b <==> be_bytes(a, count) == be_bytes(b, count),
    decreases count,
{
    lemma2_to64();
    lemma_be_number_of_bytes(a, count);
    lemma_be_number_of_bytes(b, count);
    lemma_small_mod(a, pow2(8 * count));
    lemma_small_mod(b, pow2(8 * count));
    if count == 0 {
        assert(be_bytes(a, count).len() == 0);
        assert(be_bytes(b, count).len() == 0);
    } else {
        let fewer = (count - 1) as nat;
        lemma_pow2_adds(8, 8 * fewer);
        lemma_be_bytes_order(a / 256, b / 256, fewer);
        lemma_be_bytes_len(a / 256, fewer);
        lemma_be_bytes_len(b / 256, fewer);
        lemma_lex_less_push(
            be_bytes(a / 256, fewer),
            (a % 256) as u8,
            be_bytes(b / 256, fewer),
            (b % 256) as u8,
            byte_number(),
        );
    }
}

/// Byte `k` of the number that the two halves make, counted from the least
/// significant byte.
fn pair_byte(high: u64, low: u64, k: u64) -> (b: u8)
    requires
        k < 16,
    ensures
        b as nat == (joined(high, low) / pow2(8 * k as nat)) % 256,
{
    let b: u64 = if k >= 8 {
        (high >> (8 * (k - 8))) & 0xff
    } else {
        (low >> (8 * k)) & 0xff
    };
    proof {
        let whole: u128 = ((high as u128) << 64) | (low as u128);
        let shifted: u128 = whole >> ((8 * k) as u128);
        assert(whole == high as u128 * 0x1_0000_0000_0000_0000 + low as u128) by (bit_vector)
            requires
                whole == ((high as u128) << 64) | (low as u128),
        ;
        assert(b as u128 == shifted & 0xff && b < 256) by (bit_vector)
            requires
                k < 16,
                whole == ((high as u128) << 64) | (low as u128),
                shifted == whole >> ((8 * k) as u128),
                b == if k >= 8 {
                    (high >> ((8 * (k - 8)) as u64)) & 0xff
                } else {
                    (low >> ((8 * k) as u64)) & 0xff
                },
        ;
        lemma_u128_shr_is_div(whole, (8 * k) as u128);
        assert(shifted & 0xff == shifted % 256) by (bit_vector);
    }
    b as u8
}

/// The 16 bytes of the number that the two halves make.
pub(crate) fn pair_to_bytes(high: u64, low: u64) -> (bytes: [u8; 16])
    ensures
        bytes@ == be_bytes(joined(high, low), 16),
{
    let mut bytes: [u8; 16] = [0u8; 16];
    let mut i: usize = 0;
    while i < 16
        invariant
            i <= 16,
            forall|j: int|
                0 <= j < i ==> #[trigger] bytes@[j] as nat == (joined(high, low) / pow2(
                    (8 * (15 - j)) as nat,
                )) % 256,
        decreases 16 - i,
    {
        let byte: u8 = pair_byte(high, low, 15 - i as u64);
        bytes[i] = byte;
        i += 1;
    }
    proof {
        let expected = be_bytes(joined(high, low), 16);
        assert forall|j: int| 0 <= j < 16 implies bytes@[j] == expected[j] by {
            lemma_be_bytes_index(joined(high, low), 16, j);
        }
        lemma_be_bytes_len(joined(high, low), 16);
        assert(bytes@ =~= expected);
    }
    bytes
}

/// The two halves of the number that 16 bytes denote.
pub(crate) fn pair_from_bytes(bytes: &[u8]) -> (pair: (u64, u64))
    requires
        bytes@.len() == 16,
    ensures
        joined(pair.0, pair.1) == be_number(bytes@),
{
    let mut high: u64 = 0;
    let mut low: u64 = 0;
    let mut i: usize = 0;
    while i < 16
        invariant
            i <= 16,
            bytes@.len() == 16,
            joined(high, low) == be_number(bytes@.take(i as int)),
        decreases 16 - i,
    {
        let byte: u64 = bytes[i] as u64;
        let next_high: u64 = (high << 8) | (low >> 56);
        let next_low: u64 = (low << 8) | byte;
        proof {
            lemma_be_number_bound(bytes@.take(i as int));
            if i < 15 {
                lemma_pow2_strictly_increases(8 * i as nat, 120);
            }
            lemma_pow2_values();
            assert(next_high as u128 * 0x1_0000_0000_0000_0000 + next_low as u128 == (high as u128
                * 0x1_0000_0000_0000_0000 + low as u128) * 256 + byte as u128) by (bit_vector)
                requires
                    high < 0x0100_0000_0000_0000u64,
                    byte < 256,
                    next_high == (high << 8) | (low >> 56),
                    next_low == (low << 8) | byte,
            ;
            assert(bytes@.take(i + 1).drop_last() =~= bytes@.take(i as int));
        }
        high = next_high;
        low = next_low;
        i += 1;
    }
    proof {
        assert(bytes@.take(16) =~= bytes@);
    }
    (high, low)
}

} // verus!
