//! What holds between encoding and decoding: each undoes the other, and the
//! order of the digit strings is the order of the numbers.

use crate::crockford::{
    alphabet, decoding, decoding_u128, digit_symbol, digit_value, encoding, first_non_digit,
    lemma_decoding_bound, lemma_first_non_digit, lemma_pow2_values, symbol_digit, DecodingError,
};
use crate::order::{lemma_lex_less_push, lex_less};
use vstd::arithmetic::div_mod::{
    lemma_div_denominator, lemma_mod_breakdown, lemma_multiply_divide_lt, lemma_small_mod,
};
use vstd::arithmetic::power2::{lemma2_to64, lemma_pow2_adds, lemma_pow2_pos, pow2};
use vstd::prelude::*;

verus! {

/// The code of a character, by which strings are compared.
pub open spec fn char_code() -> spec_fn(char) -> int {
    |c: char| c as int
}

/// The digit strings are compared as Rust compares strings: character by
/// character from the front, by character code, a proper prefix being less.
pub open spec fn string_less(a: Seq<char>, b: Seq<char>) -> bool {
    lex_less(a, b, char_code())
}

/// Every character of `s` is one of the 32 symbols that encoding writes.
pub open spec fn is_canonical(s: Seq<char>) -> bool {
    forall|i: int| 0 <= i < s.len() ==> alphabet().contains(#[trigger] s[i])
}

/// `s` with each digit written as encoding writes it.
pub open spec fn canonical(s: Seq<char>) -> Seq<char> {
    Seq::new(s.len(), |i: int| digit_symbol(digit_value(s[i])))
}

/// A symbol is read as the digit it was written for.
pub proof fn lemma_symbol_round_trip(d: nat)
    requires
        d < 32,
    ensures
        symbol_digit(digit_symbol(d)) == Some(d),
        digit_value(digit_symbol(d)) == d,
        alphabet().contains(digit_symbol(d)),
{
    assert(alphabet().len() == 32);
    assert(alphabet()[d as int] == digit_symbol(d));
}

/// The symbols ascend with their digits.
pub proof fn lemma_symbols_ascend(d1: nat, d2: nat)
    requires
        d1 < d2 < 32,
    ensures
        digit_symbol(d1) < digit_symbol(d2),
{
    lemma_symbol_round_trip(d1);
    lemma_symbol_round_trip(d2);
}

/// Every digit has its value below 32.
pub proof fn lemma_digit_value_bound(c: char)
    ensures
        digit_value(c) < 32,
{
}

/// One of the 32 symbols is written as itself.
pub proof fn lemma_canonical_symbol(c: char)
    requires
        alphabet().contains(c),
    ensures
        symbol_digit(c) is Some,
        digit_symbol(digit_value(c)) == c,
{
    let i = choose|i: int| 0 <= i < alphabet().len() && alphabet()[i] == c;
    lemma_symbol_round_trip(i as nat);
}

/// Encoding writes as many symbols as it was asked for.
pub proof fn lemma_encoding_len(value: nat, count: nat)
    ensures
        encoding(value, count).len() == count,
    decreases count,
{
    if count > 0 {
        lemma_encoding_len(value / 32, (count - 1) as nat);
    }
}

/// The symbol at index `i` of an encoding is that of the digit with the
/// weight 32 to the power of the number of symbols that follow it.
pub proof fn lemma_encoding_index(value: nat, count: nat, i: int)
    requires
        0 <= i < count,
    ensures
        encoding(value, count).len() == count,
        pow2((5 * (count - 1 - i)) as nat) > 0,
        encoding(value, count)[i] == digit_symbol(
            (value / pow2((5 * (count - 1 - i)) as nat)) % 32,
        ),
    decreases count,
{
    lemma_encoding_len(value, count);
    lemma_encoding_len(value / 32, (count - 1) as nat);
    lemma2_to64();
    let after = (5 * (count - 1 - i)) as nat;
    lemma_pow2_pos(after);
    let front = encoding(value / 32, (count - 1) as nat);
    assert(encoding(value, count) == front.push(digit_symbol(value % 32)));
    if i < count - 1 {
        let before = (5 * (count - 2 - i)) as nat;
        lemma_encoding_index(value / 32, (count - 1) as nat, i);
        lemma_pow2_pos(before);
        lemma_pow2_adds(5, before);
        assert(after == 5 + before);
        assert(pow2(after) == 32 * pow2(before));
        lemma_div_denominator(value as int, 32, pow2(before) as int);
        assert((value / 32) / pow2(before) == value / pow2(after));
        assert(encoding(value, count)[i] == front[i]);
    } else {
        assert(after == 0);
        assert(value / pow2(after) == value);
    }
}

/// Every symbol of an encoding is a digit in its written form.
pub proof fn lemma_encoding_is_canonical(value: nat, count: nat)
    ensures
        encoding(value, count).len() == count,
        is_canonical(encoding(value, count)),
        first_non_digit(encoding(value, count)) == count,
{
    let e = encoding(value, count);
    lemma_encoding_len(value, count);
    assert forall|i: int| 0 <= i < e.len() implies alphabet().contains(#[trigger] e[i])
        && symbol_digit(e[i]) is Some by {
        lemma_encoding_index(value, count, i);
        lemma_symbol_round_trip((value / pow2((5 * (count - 1 - i)) as nat)) % 32);
    }
    lemma_first_non_digit(e, count as int);
}

/// Decoding what was encoded gives the number back, as far as `count`
/// digits hold it.
pub proof fn lemma_decoding_of_encoding(value: nat, count: nat)
    ensures
        pow2(5 * count) > 0,
        decoding(encoding(value, count)) == value % pow2(5 * count),
    decreases count,
{
    lemma2_to64();
    lemma_pow2_pos(5 * count);
    if count == 0 {
        assert(encoding(value, count).len() == 0);
    } else {
        let e = encoding(value, count);
        let front = encoding(value / 32, (count - 1) as nat);
        let fewer = (5 * (count - 1)) as nat;
        assert(e.drop_last() =~= front);
        lemma_decoding_of_encoding(value / 32, (count - 1) as nat);
        lemma_symbol_round_trip(value % 32);
        lemma_pow2_adds(5, fewer);
        lemma_mod_breakdown(value as int, 32, pow2(fewer) as int);
    }
}

/// Encoding what was decoded gives the digits back in their written form.
pub proof fn lemma_encoding_of_decoding(s: Seq<char>)
    ensures
        encoding(decoding(s), s.len()) == canonical(s),
    decreases s.len(),
{
    if s.len() == 0 {
        assert(encoding(decoding(s), 0) =~= canonical(s));
    } else {
        let init = s.drop_last();
        lemma_encoding_of_decoding(init);
        lemma_digit_value_bound(s.last());
        assert(decoding(s) / 32 == decoding(init));
        assert(decoding(s) % 32 == digit_value(s.last()));
        assert(canonical(init).push(digit_symbol(digit_value(s.last()))) =~= canonical(s));
    }
}

/// Numbers that `count` digits hold compare as their encodings do.
pub proof fn lemma_encoding_order(a: nat, b: nat, count: nat)
    requires
        a < pow2(5 * count),
        b < pow2(5 * count),
    ensures
        a < b <==> string_less(encoding(a, count), encoding(b, count)),
        a == b <==> encoding(a, count) == encoding(b, count),
    decreases count,
{
    lemma2_to64();
    lemma_decoding_of_encoding(a, count);
    lemma_decoding_of_encoding(b, count);
    lemma_small_mod(a, pow2(5 * count));
    lemma_small_mod(b, pow2(5 * count));
    if count == 0 {
        assert(encoding(a, count).len() == 0);
        assert(encoding(b, count).len() == 0);
    } else {
        let fewer = (count - 1) as nat;
        lemma_pow2_adds(5, 5 * fewer);
        lemma_encoding_order(a / 32, b / 32, fewer);
        lemma_encoding_len(a / 32, fewer);
        lemma_encoding_len(b / 32, fewer);
        lemma_lex_less_push(
            encoding(a / 32, fewer),
            digit_symbol(a % 32),
            encoding(b / 32, fewer),
            digit_symbol(b % 32),
            char_code(),
        );
        if a % 32 < b % 32 {
            lemma_symbols_ascend(a % 32, b % 32);
        }
        if b % 32 < a % 32 {
            lemma_symbols_ascend(b % 32, a % 32);
        }
    }
}

/// Decoding the 26 digits of a 128-bit number gives the number back.
pub proof fn lemma_decode_encode_u128(value: nat)
    requires
        value <= u128::MAX,
    ensures
        encoding(value, 26).len() == 26,
        decoding_u128(encoding(value, 26)) == Ok::<nat, DecodingError>(value),
{
    let e = encoding(value, 26);
    lemma_encoding_is_canonical(value, 26);
    lemma_encoding_index(value, 26, 0);
    lemma_pow2_values();
    let first = (value / pow2(125)) % 32;
    lemma_multiply_divide_lt(value as int, pow2(125) as int, 8);
    assert(first <= 7);
    lemma_symbol_round_trip(first);
    lemma_decoding_of_encoding(value, 26);
    lemma_small_mod(value, pow2(130));
}

/// Encoding the number that 26 written digits denote gives the digits back.
pub proof fn lemma_encode_decode_canonical(s: Seq<char>)
    requires
        is_canonical(s),
        decoding_u128(s) is Ok,
    ensures
        s.len() == 26,
        encoding(decoding_u128(s)->Ok_0, 26) == s,
{
    lemma_encoding_of_decoding(s);
    assert forall|i: int| 0 <= i < s.len() implies canonical(s)[i] == s[i] by {
        lemma_canonical_symbol(s[i]);
    }
    assert(canonical(s) =~= s);
}

/// A string in which every character is a digit decodes to the number that
/// its written form decodes to.
pub proof fn lemma_decoding_of_canonical(s: Seq<char>)
    ensures
        decoding(canonical(s)) == decoding(s),
    decreases s.len(),
{
    if s.len() > 0 {
        lemma_decoding_of_canonical(s.drop_last());
        assert(canonical(s).drop_last() =~= canonical(s.drop_last()));
        lemma_digit_value_bound(s.last());
        lemma_symbol_round_trip(digit_value(s.last()));
    }
}

/// Where no character before the end is refused, every character is a
/// digit.
pub proof fn lemma_all_digits(s: Seq<char>)
    requires
        first_non_digit(s) == s.len(),
    ensures
        forall|i: int| 0 <= i < s.len() ==> symbol_digit(#[trigger] s[i]) is Some,
    decreases s.len(),
{
    if s.len() > 0 {
        let rest = s.drop_first();
        lemma_first_non_digit_bound(rest);
        lemma_all_digits(rest);
        assert forall|i: int| 0 <= i < s.len() implies symbol_digit(#[trigger] s[i]) is Some by {
            if i > 0 {
                assert(s[i] == rest[i - 1]);
            }
        }
    }
}

/// The first character that is no digit stands at an index of the string,
/// or at its end.
pub proof fn lemma_first_non_digit_bound(s: Seq<char>)
    ensures
        0 <= first_non_digit(s) <= s.len(),
    decreases s.len(),
{
    if s.len() > 0 {
        lemma_first_non_digit_bound(s.drop_first());
    }
}

/// A string that decodes has exactly 26 characters, each of them a digit,
/// and the number that it denotes has 128 bits.
pub proof fn lemma_decoded_length(s: Seq<char>)
    requires
        decoding_u128(s) is Ok,
    ensures
        s.len() == 26,
        forall|i: int| 0 <= i < s.len() ==> symbol_digit(#[trigger] s[i]) is Some,
        decoding_u128(s) == Ok::<nat, DecodingError>(decoding(s)),
        decoding(s) <= u128::MAX,
{
    lemma_first_non_digit_bound(s);
    lemma_all_digits(s);
    lemma_decoding_bound(s, 8);
    lemma_pow2_values();
}

/// A string in lowercase or with `O`, `I` or `L` in it decodes to the number
/// that its written form decodes to, and encoding that number gives the
/// written form, not the string itself.
pub proof fn lemma_aliases_decode_alike(s: Seq<char>)
    requires
        decoding_u128(s) is Ok,
    ensures
        decoding_u128(canonical(s)) == decoding_u128(s),
        encoding(decoding_u128(s)->Ok_0, 26) == canonical(s),
{
    lemma_decoded_length(s);
    lemma_encoding_of_decoding(s);
    lemma_decode_encode_u128(decoding(s));
}

/// A string of another length than 26 characters is refused for its
/// length, whatever it holds.
pub proof fn lemma_wrong_length_is_refused(s: Seq<char>)
    requires
        s.len() != 26,
    ensures
        decoding_u128(s) == Err::<nat, DecodingError>(DecodingError::InvalidLength),
{
}

/// In a string of 26 characters the first character that is no digit is
/// what the string is refused for, where the first character is not a digit
/// above 7.
pub proof fn lemma_non_digit_is_refused(s: Seq<char>, i: int)
    requires
        s.len() == 26,
        0 <= i < 26,
        symbol_digit(s[i]) is None,
        forall|j: int| 0 <= j < i ==> symbol_digit(#[trigger] s[j]) is Some,
        i > 0 ==> digit_value(s[0]) <= 7,
    ensures
        decoding_u128(s) == Err::<nat, DecodingError>(DecodingError::InvalidChar(s[i])),
{
    lemma_first_non_digit(s, i);
}

/// A string of 26 characters with `U` or `u` in it is refused for that
/// character, where only digits stand before it and the first of them is at
/// most 7.
pub proof fn lemma_letter_u_is_refused(s: Seq<char>, i: int)
    requires
        s.len() == 26,
        0 <= i < 26,
        s[i] == 'U' || s[i] == 'u',
        forall|j: int| 0 <= j < i ==> symbol_digit(#[trigger] s[j]) is Some,
        i > 0 ==> digit_value(s[0]) <= 7,
    ensures
        decoding_u128(s) == Err::<nat, DecodingError>(DecodingError::InvalidChar(s[i])),
{
    lemma_non_digit_is_refused(s, i);
}

} // verus!
