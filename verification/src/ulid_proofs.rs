//! What holds of the forms of a ULID: each form gives the ULID back, and
//! the strings and the bytes are ordered as the ULIDs are.

use crate::bytes::{
    be_bytes, be_number, bytes_less, lemma_be_bytes_of_number, lemma_be_bytes_order,
    lemma_be_number_bound, lemma_be_number_of_bytes,
};
use crate::crockford::{decoding_u128, encoding, lemma_pow2_values, DecodingError};
use crate::crockford_proofs::{
    is_canonical, lemma_decode_encode_u128, lemma_encode_decode_canonical, lemma_encoding_order,
    string_less,
};
use crate::ulid::{timestamp_unit, Ulid};
use vstd::arithmetic::div_mod::lemma_small_mod;
use vstd::arithmetic::power2::pow2;
use vstd::prelude::*;

verus! {

/// Parsing the canonical string of a ULID gives the ULID back, and the
/// canonical string has exactly 26 characters.
pub proof fn lemma_string_round_trip(ulid: Ulid)
    ensures
        encoding(ulid@, 26).len() == 26,
        decoding_u128(encoding(ulid@, 26)) == Ok::<nat, DecodingError>(ulid@),
{
    ulid.lemma_view_bound();
    lemma_decode_encode_u128(ulid@);
}

/// The canonical string of the ULID that a string of 26 uppercase symbols
/// parses to is that string.
pub proof fn lemma_canonical_string_round_trip(s: Seq<char>, ulid: Ulid)
    requires
        is_canonical(s),
        decoding_u128(s) == Ok::<nat, DecodingError>(ulid@),
    ensures
        encoding(ulid@, 26) == s,
{
    lemma_encode_decode_canonical(s);
}

/// The ULID of the bytes of a ULID is that ULID.
pub proof fn lemma_number_of_bytes(ulid: Ulid)
    ensures
        be_bytes(ulid@, 16).len() == 16,
        be_number(be_bytes(ulid@, 16)) == ulid@,
{
    ulid.lemma_view_bound();
    lemma_pow2_values();
    lemma_be_number_of_bytes(ulid@, 16);
    lemma_small_mod(ulid@, pow2(128));
    crate::bytes::lemma_be_bytes_len(ulid@, 16);
}

/// The bytes of the ULID of 16 bytes are those bytes, and the number that
/// 16 bytes denote has 128 bits.
pub proof fn lemma_bytes_round_trip(bytes: Seq<u8>)
    requires
        bytes.len() == 16,
    ensures
        be_number(bytes) <= u128::MAX,
        be_bytes(be_number(bytes), 16) == bytes,
{
    lemma_pow2_values();
    lemma_be_number_bound(bytes);
    lemma_be_bytes_of_number(bytes);
}

/// ULIDs are ordered as their canonical strings are, and as their bytes
/// are: one ULID is less than another if and only if its string is less
/// than the other's by the codes of the characters, and if and only if its
/// bytes are less than the other's.
pub proof fn lemma_order(a: Ulid, b: Ulid)
    ensures
        a@ < b@ <==> string_less(encoding(a@, 26), encoding(b@, 26)),
        a@ < b@ <==> bytes_less(be_bytes(a@, 16), be_bytes(b@, 16)),
        a == b <==> encoding(a@, 26) == encoding(b@, 26),
        a == b <==> be_bytes(a@, 16) == be_bytes(b@, 16),
{
    a.lemma_view_bound();
    b.lemma_view_bound();
    a.lemma_view_injective(b);
    lemma_pow2_values();
    lemma_encoding_order(a@, b@, 26);
    lemma_be_bytes_order(a@, b@, 16);
}

/// Incrementing a ULID leaves its timestamp, and gives the next number
/// unless the random part was at its greatest value, from where it goes to
/// zero.
pub proof fn lemma_increment(ulid: Ulid)
    ensures
        ulid.increment_spec() / timestamp_unit() == ulid.timestamp_spec(),
        ulid.random_spec() + 1 < timestamp_unit() ==> ulid.increment_spec() == ulid@ + 1,
        ulid.random_spec() + 1 == timestamp_unit() ==> ulid.increment_spec() == ulid@
            - ulid.random_spec(),
        ulid.increment_spec() <= u128::MAX,
{
    ulid.lemma_view_bound();
}

} // verus!
