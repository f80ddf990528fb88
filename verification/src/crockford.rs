//! Crockford Base32: fixed-width encoding and decoding of unsigned integers.
//!
//! A digit stands for five bits. The contracts speak of a number and of the
//! sequence of characters that denotes it, most significant digit first.

use vstd::prelude::*;
use vstd::arithmetic::div_mod::{lemma_basic_div, lemma_div_denominator};
use vstd::arithmetic::power2::{
    lemma2_to64, lemma2_to64_rest, lemma_pow2_adds, lemma_pow2_pos,
    lemma_pow2_strictly_increases, pow2,
};
use vstd::bits::{lemma_u128_shr_is_div, lemma_u64_shr_is_div};
use vstd::std_specs::iter::IteratorSpec;

verus! {

/// Why a digit string or a byte slice could not be decoded.
#[derive(Debug, PartialEq, Eq, Clone, Copy, Structural)]
pub enum DecodingError {
    /// The string or byte slice does not have the required length.
    InvalidLength,
    /// The string holds this character, which is no Crockford Base32 digit.
    InvalidChar(char),
    /// The digits are valid but denote a value too wide for the target type.
    DataTypeOverflow,
}

impl DecodingError {
    /// What the error says in words.
    pub open spec fn message(self) -> Seq<char> {
        match self {
            DecodingError::InvalidLength => "invalid length"@,
            DecodingError::InvalidChar(c) => "invalid character '"@.push(c).push('\''),
            DecodingError::DataTypeOverflow => "data type overflow"@,
        }
    }

    /// Returns what the error says in words; an invalid character is named
    /// between single quotes.
    pub fn to_string(&self) -> (text: String)
        ensures
            text@ == self.message(),
    {
        match self {
            DecodingError::InvalidLength => "invalid length".to_owned(),
            DecodingError::InvalidChar(c) => {
                let mut text = "invalid character '".to_owned();
                text.push(*c);
                text.push('\'');
                text
            },
            DecodingError::DataTypeOverflow => "data type overflow".to_owned(),
        }
    }

    /// Returns the error that lies behind this one. There is none: a
    /// decoding error is not caused by another error.
    pub fn source(&self) -> (cause: Option<DecodingError>)
        ensures
            cause is None,
    {
        None
    }
}

/// The 32 symbols, each at the index of the digit it stands for.
pub open spec fn alphabet() -> Seq<char> {
    seq![
        '0', '1', '2', '3', '4', '5', '6', '7', '8', '9', 'A', 'B', 'C', 'D', 'E', 'F', 'G', 'H',
        'J', 'K', 'M', 'N', 'P', 'Q', 'R', 'S', 'T', 'V', 'W', 'X', 'Y', 'Z',
    ]
}

/// The symbol written for the digit `d`, for `d` below 32.
pub open spec fn digit_symbol(d: nat) -> char
    recommends
        d < 32,
{
    alphabet()[d as int]
}

/// The digit that the character `c` is read as, if it is read as one. Letters
/// count in either case, `O` reads as 0, `I` and `L` read as 1, and `U` is
/// not a digit.
pub open spec fn symbol_digit(c: char) -> Option<nat> {
    match c {
        '0' | 'O' | 'o' => Some(0),
        '1' | 'I' | 'i' | 'L' | 'l' => Some(1),
        '2' => Some(2),
        '3' => Some(3),
        '4' => Some(4),
        '5' => Some(5),
        '6' => Some(6),
        '7' => Some(7),
        '8' => Some(8),
        '9' => Some(9),
        'A' | 'a' => Some(10),
        'B' | 'b' => Some(11),
        'C' | 'c' => Some(12),
        'D' | 'd' => Some(13),
        'E' | 'e' => Some(14),
        'F' | 'f' => Some(15),
        'G' | 'g' => Some(16),
        'H' | 'h' => Some(17),
        'J' | 'j' => Some(18),
        'K' | 'k' => Some(19),
        'M' | 'm' => Some(20),
        'N' | 'n' => Some(21),
        'P' | 'p' => Some(22),
        'Q' | 'q' => Some(23),
        'R' | 'r' => Some(24),
        'S' | 's' => Some(25),
        'T' | 't' => Some(26),
        'V' | 'v' => Some(27),
        'W' | 'w' => Some(28),
        'X' | 'x' => Some(29),
        'Y' | 'y' => Some(30),
        'Z' | 'z' => Some(31),
        _ => None,
    }
}

/// The `count` lowest digits of `value`, most significant first, as symbols.
/// Where `count` digits hold more bits than `value` has, the leading symbols
/// are `0`.
pub open spec fn encoding(value: nat, count: nat) -> Seq<char>
    decreases count,
{
    if count == 0 {
        Seq::empty()
    } else {
        encoding(value / 32, (count - 1) as nat).push(digit_symbol(value % 32))
    }
}

/// The symbol for a digit.
fn encode_digit(d: u8) -> (c: char)
    requires
        d < 32,
    ensures
        c == digit_symbol(d as nat),
{
    match d {
        0 => '0',
        1 => '1',
        2 => '2',
        3 => '3',
        4 => '4',
        5 => '5',
        6 => '6',
        7 => '7',
        8 => '8',
        9 => '9',
        10 => 'A',
        11 => 'B',
        12 => 'C',
        13 => 'D',
        14 => 'E',
        15 => 'F',
        16 => 'G',
        17 => 'H',
        18 => 'J',
        19 => 'K',
        20 => 'M',
        21 => 'N',
        22 => 'P',
        23 => 'Q',
        24 => 'R',
        25 => 'S',
        26 => 'T',
        27 => 'V',
        28 => 'W',
        29 => 'X',
        30 => 'Y',
        _ => 'Z',
    }
}

/// `String::push` of std: the character is added at the end of the string,
/// and the rest of it stays.
pub assume_specification[ String::push ](s: &mut String, ch: char)
    ensures
        final(s)@ == old(s)@.push(ch),
;

/// The powers of two that the widths of the codec come to.
pub proof fn lemma_pow2_values()
    ensures
        pow2(0) == 1,
        pow2(5) == 32,
        pow2(8) == 256,
        pow2(55) == 0x0080_0000_0000_0000,
        pow2(60) == 0x1000_0000_0000_0000,
        pow2(64) == 0x1_0000_0000_0000_0000,
        pow2(120) == 0x0100_0000_0000_0000_0000_0000_0000_0000,
        pow2(125) == 0x2000_0000_0000_0000_0000_0000_0000_0000,
        pow2(128) == 0x1_0000_0000_0000_0000_0000_0000_0000_0000,
        pow2(130) == 0x4_0000_0000_0000_0000_0000_0000_0000_0000,
{
    lemma2_to64();
    lemma2_to64_rest();
    lemma_pow2_adds(64, 56);
    lemma_pow2_adds(64, 61);
    lemma_pow2_adds(64, 64);
    lemma_pow2_adds(128, 2);
}

/// Before the first symbol is appended nothing stands behind `start`, and
/// after the last one the whole encoding does.
proof fn lemma_append_ends(start: Seq<char>, value: nat, count: nat)
    ensures
        start + encoding(value / pow2(5 * count), 0) == start,
        value / pow2(0) == value,
{
    lemma_pow2_pos(5 * count);
    lemma2_to64();
    assert(start + encoding(value / pow2(5 * count), 0) =~= start);
}

/// Appending digit `k` of `value` to its digits from `k + 1` on gives its
/// digits from `k` on.
proof fn lemma_append_step(start: Seq<char>, value: nat, k: nat, count: nat)
    ensures
        pow2(5 * k) > 0,
        (start + encoding(value / pow2(5 * (k + 1)), count)).push(
            digit_symbol((value / pow2(5 * k)) % 32),
        ) == start + encoding(value / pow2(5 * k), count + 1),
{
    lemma_pow2_pos(5 * k);
    lemma2_to64();
    lemma_pow2_adds(5 * k, 5);
    lemma_div_denominator(value as int, pow2(5 * k) as int, 32);
    let rest = encoding(value / pow2(5 * (k + 1)), count);
    let symbol = digit_symbol((value / pow2(5 * k)) % 32);
    assert(encoding(value / pow2(5 * k), count + 1) == rest.push(symbol));
    assert((start + rest).push(symbol) =~= start + rest.push(symbol));
}

/// Appends the 26 digits of `value` to `to_append_to`.
pub fn append_crockford_u128(value: u128, to_append_to: &mut String)
    ensures
        final(to_append_to)@ == old(to_append_to)@ + encoding(value as nat, 26),
{
    let mut remaining: u128 = 26;
    proof {
        lemma_append_ends(old(to_append_to)@, value as nat, 26);
    }
    while remaining > 0
        invariant
            remaining <= 26,
            to_append_to@ == old(to_append_to)@ + encoding(
                value as nat / pow2(5 * remaining as nat),
                (26 - remaining) as nat,
            ),
        decreases remaining,
    {
        remaining -= 1;
        let shifted: u128 = value >> (5 * remaining);
        let digit: u8 = (shifted & 0x1f) as u8;
        proof {
            lemma_u128_shr_is_div(value, (5 * remaining) as u128);
            assert(shifted & 0x1f == shifted % 32) by (bit_vector);
            lemma_append_step(
                old(to_append_to)@,
                value as nat,
                remaining as nat,
                (25 - remaining) as nat,
            );
        }
        to_append_to.push(encode_digit(digit));
    }
}

/// Appends the `count` lowest digits of `value` to `to_append_to`. Thirteen
/// digits hold every `u64`; with a larger `count` the digits in front are `0`.
pub fn append_crockford(value: u64, count: u8, to_append_to: &mut String)
    ensures
        final(to_append_to)@ == old(to_append_to)@ + encoding(value as nat, count as nat),
{
    let mut remaining: u64 = count as u64;
    proof {
        lemma_append_ends(old(to_append_to)@, value as nat, count as nat);
    }
    while remaining > 0
        invariant
            remaining <= count,
            to_append_to@ == old(to_append_to)@ + encoding(
                value as nat / pow2(5 * remaining as nat),
                (count - remaining) as nat,
            ),
        decreases remaining,
    {
        remaining -= 1;
        let digit: u8 = if 5 * remaining < 64 {
            let shifted: u64 = value >> (5 * remaining);
            proof {
                lemma_u64_shr_is_div(value, (5 * remaining) as u64);
                assert(shifted & 0x1f == shifted % 32) by (bit_vector);
            }
            (shifted & 0x1f) as u8
        } else {
            proof {
                lemma2_to64();
                if 5 * remaining > 64 {
                    lemma_pow2_strictly_increases(64, 5 * remaining as nat);
                }
                lemma_basic_div(value as int, pow2(5 * remaining as nat) as int);
            }
            0
        };
        proof {
            lemma_append_step(
                old(to_append_to)@,
                value as nat,
                remaining as nat,
                (count - remaining - 1) as nat,
            );
        }
        to_append_to.push(encode_digit(digit));
    }
}

/// The 128-bit number whose upper half is `high` and whose lower half is
/// `low`.
pub open spec fn joined(high: u64, low: u64) -> nat {
    high as nat * 0x1_0000_0000_0000_0000 + low as nat
}

/// Digit `k` of the number that the two halves make, counted from the least
/// significant digit. Digit 12 takes four bits of `low` and one of `high`.
fn pair_digit(high: u64, low: u64, k: u64) -> (d: u8)
    requires
        k < 26,
    ensures
        d < 32,
        d as nat == (joined(high, low) / pow2(5 * k as nat)) % 32,
{
    let d: u64 = if k > 12 {
        (high >> (5 * k - 64)) & 0x1f
    } else if k == 12 {
        ((high << 4) & 0x1f) | ((low >> 60) & 0x1f)
    } else {
        (low >> (5 * k)) & 0x1f
    };
    proof {
        let whole: u128 = ((high as u128) << 64) | (low as u128);
        let shifted: u128 = whole >> ((5 * k) as u128);
        assert(whole == high as u128 * 0x1_0000_0000_0000_0000 + low as u128) by (bit_vector)
            requires
                whole == ((high as u128) << 64) | (low as u128),
        ;
        assert(d as u128 == shifted & 0x1f && d < 32) by (bit_vector)
            requires
                k < 26,
                whole == ((high as u128) << 64) | (low as u128),
                shifted == whole >> ((5 * k) as u128),
                d == if k > 12 {
                    (high >> ((5 * k - 64) as u64)) & 0x1f
                } else if k == 12 {
                    ((high << 4) & 0x1f) | ((low >> 60) & 0x1f)
                } else {
                    (low >> ((5 * k) as u64)) & 0x1f
                },
        ;
        lemma_u128_shr_is_div(whole, (5 * k) as u128);
        assert(shifted & 0x1f == shifted % 32) by (bit_vector);
    }
    d as u8
}

/// Appends the 26 digits of the number that the two halves of `value` make,
/// the upper half first, to `to_append_to`.
pub fn append_crockford_u64_tuple(value: (u64, u64), to_append_to: &mut String)
    ensures
        final(to_append_to)@ == old(to_append_to)@ + encoding(joined(value.0, value.1), 26),
{
    let mut remaining: u64 = 26;
    proof {
        lemma_append_ends(old(to_append_to)@, joined(value.0, value.1), 26);
    }
    while remaining > 0
        invariant
            remaining <= 26,
            to_append_to@ == old(to_append_to)@ + encoding(
                joined(value.0, value.1) / pow2(5 * remaining as nat),
                (26 - remaining) as nat,
            ),
        decreases remaining,
    {
        remaining -= 1;
        let digit: u8 = pair_digit(value.0, value.1, remaining);
        proof {
            lemma_append_step(
                old(to_append_to)@,
                joined(value.0, value.1),
                remaining as nat,
                (25 - remaining) as nat,
            );
        }
        to_append_to.push(encode_digit(digit));
    }
}

/// The digit that `c` is read as, and 0 where it is not read as a digit.
pub open spec fn digit_value(c: char) -> nat {
    match symbol_digit(c) {
        Some(d) => d,
        None => 0,
    }
}

/// The number that the characters of `s` denote, most significant digit
/// first.
pub open spec fn decoding(s: Seq<char>) -> nat
    decreases s.len(),
{
    if s.len() == 0 {
        0
    } else {
        decoding(s.drop_last()) * 32 + digit_value(s.last())
    }
}

/// The index of the first character of `s` that is not read as a digit, and
/// the length of `s` where there is none.
pub open spec fn first_non_digit(s: Seq<char>) -> int
    decreases s.len(),
{
    if s.len() == 0 || symbol_digit(s[0]) is None {
        0
    } else {
        1 + first_non_digit(s.drop_first())
    }
}

/// What reading `s` as a number gives, where its first digit may be at most
/// `max_first`. The first character is looked at first, for being a digit
/// and then for its size; the other characters follow in their order.
pub open spec fn checked_decoding(s: Seq<char>, max_first: nat) -> Result<nat, DecodingError> {
    if s.len() == 0 {
        Ok(0)
    } else if symbol_digit(s[0]) is None {
        Err(DecodingError::InvalidChar(s[0]))
    } else if digit_value(s[0]) > max_first {
        Err(DecodingError::DataTypeOverflow)
    } else if first_non_digit(s) < s.len() {
        Err(DecodingError::InvalidChar(s[first_non_digit(s)]))
    } else {
        Ok(decoding(s))
    }
}

/// What decoding a string of 26 digits gives. A string of another number
/// of characters is refused for its length, whatever it holds. The first
/// digit stands for three bits only, so it may be at most 7.
pub open spec fn decoding_u128(s: Seq<char>) -> Result<nat, DecodingError> {
    if s.len() != 26 {
        Err(DecodingError::InvalidLength)
    } else {
        checked_decoding(s, 7)
    }
}

/// What decoding a string of at most 13 digits gives. A string of more
/// characters is refused for its length, whatever it holds. The first of 13
/// digits stands for four bits only, so it may be at most 15.
pub open spec fn decoding_u64(s: Seq<char>) -> Result<nat, DecodingError> {
    if s.len() > 13 {
        Err(DecodingError::InvalidLength)
    } else if s.len() == 13 {
        checked_decoding(s, 15)
    } else {
        checked_decoding(s, 31)
    }
}

/// The digit that a character is read as.
fn decode_symbol(c: char) -> (r: Option<u8>)
    ensures
        r is Some <==> symbol_digit(c) is Some,
        r is Some ==> r.unwrap() as nat == digit_value(c) && r.unwrap() < 32,
{
    match c {
        '0' | 'O' | 'o' => Some(0),
        '1' | 'I' | 'i' | 'L' | 'l' => Some(1),
        '2' => Some(2),
        '3' => Some(3),
        '4' => Some(4),
        '5' => Some(5),
        '6' => Some(6),
        '7' => Some(7),
        '8' => Some(8),
        '9' => Some(9),
        'A' | 'a' => Some(10),
        'B' | 'b' => Some(11),
        'C' | 'c' => Some(12),
        'D' | 'd' => Some(13),
        'E' | 'e' => Some(14),
        'F' | 'f' => Some(15),
        'G' | 'g' => Some(16),
        'H' | 'h' => Some(17),
        'J' | 'j' => Some(18),
        'K' | 'k' => Some(19),
        'M' | 'm' => Some(20),
        'N' | 'n' => Some(21),
        'P' | 'p' => Some(22),
        'Q' | 'q' => Some(23),
        'R' | 'r' => Some(24),
        'S' | 's' => Some(25),
        'T' | 't' => Some(26),
        'V' | 'v' => Some(27),
        'W' | 'w' => Some(28),
        'X' | 'x' => Some(29),
        'Y' | 'y' => Some(30),
        'Z' | 'z' => Some(31),
        _ => None,
    }
}

/// Where the characters before index `i` are digits and the one at `i` is
/// not, or `s` ends there, `i` is the index of the first that is not.
pub proof fn lemma_first_non_digit(s: Seq<char>, i: int)
    requires
        0 <= i <= s.len(),
        forall|j: int| 0 <= j < i ==> symbol_digit(#[trigger] s[j]) is Some,
        i < s.len() ==> symbol_digit(s[i]) is None,
    ensures
        first_non_digit(s) == i,
    decreases s.len(),
{
    if i > 0 {
        let rest = s.drop_first();
        assert forall|j: int| 0 <= j < i - 1 implies symbol_digit(#[trigger] rest[j]) is Some by {
            assert(rest[j] == s[j + 1]);
        }
        lemma_first_non_digit(rest, i - 1);
    }
}

/// Reads every character of `input`, which has at most 26 of them, as a
/// digit, the first being at most `max_first`. Gives the digits in their
/// order.
fn read_digits(input: &str, max_first: u8) -> (r: Result<[u8; 26], DecodingError>)
    requires
        input@.len() <= 26,
    ensures
        match r {
            Ok(digits) => {
                &&& checked_decoding(input@, max_first as nat) == Ok::<nat, DecodingError>(
                    decoding(input@),
                )
                &&& forall|i: int|
                    0 <= i < input@.len() ==> #[trigger] digits@[i] < 32 && digits@[i] as nat
                        == digit_value(input@[i])
                &&& input@.len() > 0 ==> digit_value(input@[0]) <= max_first
            },
            Err(e) => checked_decoding(input@, max_first as nat) == Err::<nat, DecodingError>(e),
        },
{
    let mut chars = input.chars();
    let mut digits: [u8; 26] = [0u8; 26];
    let mut count: usize = 0;
    loop
        invariant
            count <= input@.len() <= 26,
            chars.remaining() == input@.skip(count as int),
            chars.decrease() is Some,
            forall|i: int|
                0 <= i < count ==> #[trigger] digits@[i] < 32 && digits@[i] as nat == digit_value(
                    input@[i],
                ),
            forall|i: int| 0 <= i < count ==> symbol_digit(#[trigger] input@[i]) is Some,
            count > 0 ==> digit_value(input@[0]) <= max_first,
        decreases chars.decrease()->0,
    {
        match chars.next() {
            None => {
                proof {
                    lemma_first_non_digit(input@, count as int);
                }
                return Ok(digits);
            },
            Some(c) => {
                assert(c == input@[count as int]);
                match decode_symbol(c) {
                    None => {
                        proof {
                            lemma_first_non_digit(input@, count as int);
                        }
                        return Err(DecodingError::InvalidChar(c));
                    },
                    Some(d) => {
                        if count == 0 && d > max_first {
                            return Err(DecodingError::DataTypeOverflow);
                        }
                        digits[count] = d;
                        assert(input@.skip(count as int).drop_first() =~= input@.skip(
                            count + 1,
                        ));
                        count += 1;
                    },
                }
            },
        }
    }
}

/// A number whose first digit is below `limit` is below `limit` times 32 to
/// the power of the number of digits that follow the first.
pub proof fn lemma_decoding_bound(s: Seq<char>, limit: nat)
    requires
        s.len() > 0,
        digit_value(s[0]) < limit,
    ensures
        decoding(s) < limit * pow2((5 * (s.len() - 1)) as nat),
    decreases s.len(),
{
    lemma2_to64();
    let init = s.drop_last();
    assert(digit_value(s.last()) < 32);
    if s.len() == 1 {
        assert(decoding(init) == 0);
        assert(limit * pow2(0) == limit);
    } else {
        assert(init[0] == s[0]);
        lemma_decoding_bound(init, limit);
        let below = pow2((5 * (init.len() - 1)) as nat);
        let above = pow2((5 * (s.len() - 1)) as nat);
        assert(above == below * 32) by {
            lemma_pow2_adds((5 * (init.len() - 1)) as nat, 5);
        }
        assert(limit * above == (limit * below) * 32) by (nonlinear_arith)
            requires
                above == below * 32,
        ;
    }
}

/// Reading the digit at index `i` after the `i` digits before it: the number
/// so far is multiplied by 32 and the digit is added. With a first digit
/// below `limit` and fewer than `most` digits before, the new number is below
/// `limit` times 32 to the power of `most - 1`.
proof fn lemma_read_step(s: Seq<char>, i: int, limit: nat, most: nat)
    requires
        0 <= i < s.len(),
        i < most,
        digit_value(s[0]) < limit,
    ensures
        decoding(s.take(i + 1)) == decoding(s.take(i)) * 32 + digit_value(s[i]),
        decoding(s.take(i + 1)) < limit * pow2((5 * (most - 1)) as nat),
{
    let read = s.take(i + 1);
    assert(read.drop_last() =~= s.take(i));
    assert(read[0] == s[0]);
    lemma_decoding_bound(read, limit);
    let reached = pow2((5 * i) as nat);
    let greatest = pow2((5 * (most - 1)) as nat);
    if i < most - 1 {
        lemma_pow2_strictly_increases((5 * i) as nat, (5 * (most - 1)) as nat);
    }
    assert(limit * reached <= limit * greatest) by (nonlinear_arith)
        requires
            reached <= greatest,
    ;
}

/// Parses a string of 26 digits into a `u128`.
///
/// Upper and lower case letters are accepted, `i` and `l` are treated as
/// `1`, and `o` is treated as `0`.
///
/// # Errors
///
/// A string that does not have exactly 26 characters gives `InvalidLength`,
/// whatever it holds. In a string of 26 characters the first character is
/// judged first: it gives `InvalidChar` if it is no digit, and
/// `DataTypeOverflow` if it is a digit above 7, with which the number would
/// not fit into 128 bits. After that the first character that is no digit
/// gives `InvalidChar`.
pub fn parse_crockford_u128(input: &str) -> (result: Result<u128, DecodingError>)
    ensures
        match decoding_u128(input@) {
            Ok(value) => value <= u128::MAX && result == Ok::<u128, DecodingError>(value as u128),
            Err(e) => result == Err::<u128, DecodingError>(e),
        },
{
    if input.unicode_len() != 26 {
        return Err(DecodingError::InvalidLength);
    }
    let digits = match read_digits(input, 7) {
        Ok(digits) => digits,
        Err(e) => {
            return Err(e);
        },
    };
    let mut result: u128 = 0;
    let mut i: usize = 0;
    while i < 26
        invariant
            i <= 26,
            input@.len() == 26,
            digit_value(input@[0]) <= 7,
            forall|j: int|
                0 <= j < 26 ==> #[trigger] digits@[j] < 32 && digits@[j] as nat == digit_value(
                    input@[j],
                ),
            result as nat == decoding(input@.take(i as int)),
        decreases 26 - i,
    {
        let digit: u128 = digits[i] as u128;
        proof {
            lemma_read_step(input@, i as int, 8, 26);
            lemma_pow2_values();
            assert((result << 5) | digit == result * 32 + digit) by (bit_vector)
                requires
                    result < 0x0800_0000_0000_0000_0000_0000_0000_0000u128,
                    digit < 32,
            ;
        }
        result = (result << 5) | digit;
        i += 1;
    }
    proof {
        assert(input@.take(26) =~= input@);
    }
    Ok(result)
}

/// Parses a string of 26 digits into the two halves of a 128-bit number, the
/// upper half first. The two halves make the number that
/// `parse_crockford_u128` gives for the same string.
///
/// # Errors
///
/// The errors are those of `parse_crockford_u128`, on the same strings.
pub fn parse_crockford_u64_tuple(input: &str) -> (result: Result<(u64, u64), DecodingError>)
    ensures
        match decoding_u128(input@) {
            Ok(value) => result is Ok && joined(result->Ok_0.0, result->Ok_0.1) == value,
            Err(e) => result == Err::<(u64, u64), DecodingError>(e),
        },
{
    if input.unicode_len() != 26 {
        return Err(DecodingError::InvalidLength);
    }
    let digits = match read_digits(input, 7) {
        Ok(digits) => digits,
        Err(e) => {
            return Err(e);
        },
    };
    let mut high: u64 = 0;
    let mut low: u64 = 0;
    let mut i: usize = 0;
    while i < 26
        invariant
            i <= 26,
            input@.len() == 26,
            digit_value(input@[0]) <= 7,
            forall|j: int|
                0 <= j < 26 ==> #[trigger] digits@[j] < 32 && digits@[j] as nat == digit_value(
                    input@[j],
                ),
            joined(high, low) == decoding(input@.take(i as int)),
        decreases 26 - i,
    {
        let digit: u64 = digits[i] as u64;
        let next_high: u64 = (high << 5) | (low >> 59);
        let next_low: u64 = (low << 5) | digit;
        proof {
            lemma_read_step(input@, i as int, 8, 26);
            lemma_pow2_values();
            assert(next_high as u128 * 0x1_0000_0000_0000_0000 + next_low as u128 == (high as u128
                * 0x1_0000_0000_0000_0000 + low as u128) * 32 + digit as u128) by (bit_vector)
                requires
                    high < 0x0800_0000_0000_0000u64,
                    digit < 32,
                    next_high == (high << 5) | (low >> 59),
                    next_low == (low << 5) | digit,
            ;
        }
        high = next_high;
        low = next_low;
        i += 1;
    }
    proof {
        assert(input@.take(26) =~= input@);
    }
    Ok((high, low))
}

/// Parses a string of at most 13 digits into a `u64`. The empty string
/// denotes 0.
///
/// # Errors
///
/// A string of more than 13 characters gives `InvalidLength`, whatever it
/// holds. Otherwise the first character is judged first: it gives
/// `InvalidChar` if it is no digit, and `DataTypeOverflow` if it is the first
/// of 13 and a digit above 15, with which the number would not fit into 64
/// bits. After that the first character that is no digit gives
/// `InvalidChar`.
pub fn parse_crockford(input: &str) -> (result: Result<u64, DecodingError>)
    ensures
        match decoding_u64(input@) {
            Ok(value) => value <= u64::MAX && result == Ok::<u64, DecodingError>(value as u64),
            Err(e) => result == Err::<u64, DecodingError>(e),
        },
{
    let length = input.unicode_len();
    if length > 13 {
        return Err(DecodingError::InvalidLength);
    }
    let max_first: u8 = if length == 13 {
        15
    } else {
        31
    };
    let digits = match read_digits(input, max_first) {
        Ok(digits) => digits,
        Err(e) => {
            return Err(e);
        },
    };
    let mut result: u64 = 0;
    let mut i: usize = 0;
    while i < length
        invariant
            i <= length <= 13,
            input@.len() == length,
            length > 0 ==> digit_value(input@[0]) <= max_first,
            max_first == if length == 13 {
                15u8
            } else {
                31u8
            },
            forall|j: int|
                0 <= j < length ==> #[trigger] digits@[j] < 32 && digits@[j] as nat == digit_value(
                    input@[j],
                ),
            result as nat == decoding(input@.take(i as int)),
        decreases length - i,
    {
        let digit: u64 = digits[i] as u64;
        proof {
            if length == 13 {
                lemma_read_step(input@, i as int, 16, 13);
            } else {
                lemma_read_step(input@, i as int, 32, 12);
            }
            lemma_pow2_values();
            assert((result << 5) | digit == result * 32 + digit) by (bit_vector)
                requires
                    result < 0x0800_0000_0000_0000u64,
                    digit < 32,
            ;
        }
        result = (result << 5) | digit;
        i += 1;
    }
    proof {
        assert(input@.take(length as int) =~= input@);
    }
    Ok(result)
}

} // verus!
