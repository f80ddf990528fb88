//! The ULID value: a 128-bit number whose upper 48 bits are a timestamp in
//! milliseconds and whose lower 80 bits are random.

use crate::bytes::{be_bytes, be_number, pair_from_bytes, pair_to_bytes};
use crate::crockford::{
    append_crockford_u64_tuple, decoding_u128, encoding, joined, parse_crockford_u64_tuple,
    DecodingError,
};
use core::cmp::Ordering;
use core::str::FromStr;
use vstd::prelude::*;
use vstd::std_specs::cmp::PartialOrdSpecImpl;
use vstd::std_specs::convert::{FromSpecImpl, TryFromSpecImpl};

verus! {

/// The greatest timestamp that a ULID holds: 48 bits of ones.
pub const MAX_TIMESTAMP: u64 = 0xFFFF_FFFF_FFFF;

/// The weight of the timestamp in the number: two to the power of 80.
pub open spec fn timestamp_unit() -> nat {
    0x1_0000_0000_0000_0000_0000
}

/// The ULID data type.
#[derive(Debug, Ord, PartialEq, Eq, Clone, Copy, Hash, Structural)]
pub struct Ulid {
    high: u64,
    low: u64,
}

impl View for Ulid {
    type V = nat;

    /// The 128-bit number that the ULID is.
    closed spec fn view(&self) -> nat {
        joined(self.high, self.low)
    }
}

impl Ulid {
    /// The timestamp of the ULID: its upper 48 bits.
    pub open spec fn timestamp_spec(self) -> nat {
        self@ / timestamp_unit()
    }

    /// The random part of the ULID: its lower 80 bits.
    pub open spec fn random_spec(self) -> nat {
        self@ % timestamp_unit()
    }

    /// The number that comes after the ULID: the random part is one more,
    /// and starts again at zero after its greatest value. The timestamp
    /// stays.
    pub open spec fn increment_spec(self) -> nat {
        self.timestamp_spec() * timestamp_unit() + (self.random_spec() + 1) % timestamp_unit()
    }

    /// The ULID that is the number `value`, for a number of 128 bits.
    pub closed spec fn with_number(value: nat) -> Ulid {
        Ulid {
            high: (value / 0x1_0000_0000_0000_0000) as u64,
            low: (value % 0x1_0000_0000_0000_0000) as u64,
        }
    }

    /// The ULID of a number of 128 bits is that number.
    pub proof fn lemma_with_number(value: nat)
        requires
            value <= u128::MAX,
        ensures
            Ulid::with_number(value)@ == value,
    {
    }

    /// Each ULID is the ULID of its number.
    pub proof fn lemma_with_number_of_view(self)
        ensures
            Ulid::with_number(self@) == self,
    {
    }

    /// The number of a ULID has 128 bits.
    pub proof fn lemma_view_bound(self)
        ensures
            self@ <= u128::MAX,
    {
    }

    /// Two ULIDs are equal where their numbers are.
    pub proof fn lemma_view_injective(self, other: Ulid)
        ensures
            self@ == other@ <==> self == other,
    {
    }

    /// Returns the timestamp of this ULID as number of non-leap milliseconds
    /// since January 1, 1970 0:00:00 UTC.
    pub fn timestamp(&self) -> (t: u64)
        ensures
            t == self.timestamp_spec(),
            t <= MAX_TIMESTAMP,
    {
        let t: u64 = self.high >> 16;
        proof {
            let high = self.high;
            let low = self.low;
            assert(t as u128 == (high as u128 * 0x1_0000_0000_0000_0000 + low as u128)
                / 0x1_0000_0000_0000_0000_0000 && t <= 0xFFFF_FFFF_FFFF) by (bit_vector)
                requires
                    t == high >> 16,
            ;
        }
        t
    }

    /// Returns the timestamp of this ULID as a date and time in UTC: the
    /// whole seconds since January 1, 1970 0:00:00 UTC, and the nanoseconds
    /// that the milliseconds within the second make.
    pub fn datetime(&self) -> (parts: (i64, u32))
        ensures
            parts.0 == self.timestamp_spec() / 1000,
            parts.1 == (self.timestamp_spec() % 1000) * 1_000_000,
            0 <= parts.0 <= 281_474_976_710,
            parts.1 < 1_000_000_000,
    {
        let timestamp = self.timestamp();
        let seconds: i64 = (timestamp / 1000) as i64;
        let nanos: u32 = ((timestamp % 1000) * 1_000_000) as u32;
        (seconds, nanos)
    }

    /// Returns a new ULID with the random part incremented by one.
    ///
    /// Overflowing the random part resets it to zero without influencing the
    /// timestamp.
    pub fn increment(self) -> (next: Ulid)
        ensures
            next@ == self.increment_spec(),
            next.timestamp_spec() == self.timestamp_spec(),
    {
        let value: u128 = self.into();
        if value & 0x0000_0000_0000_FFFF_FFFF_FFFF_FFFF_FFFF
            == 0x0000_0000_0000_FFFF_FFFF_FFFF_FFFF_FFFF {
            assert(value & 0xFFFF_FFFF_FFFF_0000_0000_0000_0000_0000 == (value
                / 0x1_0000_0000_0000_0000_0000) * 0x1_0000_0000_0000_0000_0000 && value
                % 0x1_0000_0000_0000_0000_0000 == 0xFFFF_FFFF_FFFF_FFFF_FFFF) by (bit_vector)
                requires
                    value & 0x0000_0000_0000_FFFF_FFFF_FFFF_FFFF_FFFFu128
                        == 0x0000_0000_0000_FFFF_FFFF_FFFF_FFFF_FFFFu128,
            ;
            Ulid::from(value & 0xFFFF_FFFF_FFFF_0000_0000_0000_0000_0000)
        } else {
            assert(value % 0x1_0000_0000_0000_0000_0000
                != 0xFFFF_FFFF_FFFF_FFFF_FFFF) by (bit_vector)
                requires
                    value & 0x0000_0000_0000_FFFF_FFFF_FFFF_FFFF_FFFFu128
                        != 0x0000_0000_0000_FFFF_FFFF_FFFF_FFFF_FFFFu128,
            ;
            Ulid::from(value + 1)
        }
    }

    /// Parses the dynamic parameter of a route as the 26 digits of a ULID.
    /// A value is successfully parsed if `param` is a properly formatted
    /// ULID; otherwise the error of the decoding is returned.
    pub fn from_param(param: &str) -> (result: Result<Ulid, DecodingError>)
        ensures
            match decoding_u128(param@) {
                Ok(value) => result is Ok && result->Ok_0@ == value,
                Err(e) => result == Err::<Ulid, DecodingError>(e),
            },
    {
        Ulid::from_str(param)
    }

    /// Returns the canonical string of this ULID: its 26 digits.
    pub fn to_string(&self) -> (s: String)
        ensures
            s@ == encoding(self@, 26),
    {
        let mut string = String::new();
        append_crockford_u64_tuple((self.high, self.low), &mut string);
        assert(Seq::<char>::empty() + encoding(self@, 26) =~= encoding(self@, 26));
        string
    }
}

impl PartialOrd for Ulid {
    /// ULIDs are ordered as their numbers are.
    fn partial_cmp(&self, other: &Ulid) -> (r: Option<Ordering>) {
        if self.high < other.high {
            Some(Ordering::Less)
        } else if self.high > other.high {
            Some(Ordering::Greater)
        } else if self.low < other.low {
            Some(Ordering::Less)
        } else if self.low > other.low {
            Some(Ordering::Greater)
        } else {
            Some(Ordering::Equal)
        }
    }
}

impl PartialOrdSpecImpl for Ulid {
    open spec fn obeys_partial_cmp_spec() -> bool {
        true
    }

    open spec fn partial_cmp_spec(&self, other: &Ulid) -> Option<Ordering> {
        if self@ < other@ {
            Some(Ordering::Less)
        } else if self@ > other@ {
            Some(Ordering::Greater)
        } else {
            Some(Ordering::Equal)
        }
    }
}

impl From<u128> for Ulid {
    /// The ULID that is the number `value`.
    fn from(value: u128) -> (ulid: Ulid)
        ensures
            ulid@ == value,
    {
        let high: u64 = (value >> 64) as u64;
        let low: u64 = (value & 0xFFFF_FFFF_FFFF_FFFF) as u64;
        assert(high as u128 * 0x1_0000_0000_0000_0000 + low as u128 == value) by (bit_vector)
            requires
                high == (value >> 64) as u64,
                low == (value & 0xFFFF_FFFF_FFFF_FFFF) as u64,
        ;
        Ulid { high, low }
    }
}

impl FromSpecImpl<u128> for Ulid {
    open spec fn obeys_from_spec() -> bool {
        true
    }

    open spec fn from_spec(value: u128) -> Ulid {
        Ulid::with_number(value as nat)
    }
}

impl From<Ulid> for u128 {
    /// The number that the ULID is.
    fn from(ulid: Ulid) -> (value: u128)
        ensures
            value == ulid@,
    {
        let high = ulid.high;
        let low = ulid.low;
        let value: u128 = ((high as u128) << 64) | (low as u128);
        assert(value == high as u128 * 0x1_0000_0000_0000_0000 + low as u128) by (bit_vector)
            requires
                value == ((high as u128) << 64) | (low as u128),
        ;
        value
    }
}

impl FromSpecImpl<Ulid> for u128 {
    open spec fn obeys_from_spec() -> bool {
        true
    }

    open spec fn from_spec(ulid: Ulid) -> u128 {
        ulid@ as u128
    }
}

impl From<(u64, u64)> for Ulid {
    /// The ULID whose number has `value.0` as its upper half and `value.1`
    /// as its lower half.
    fn from(value: (u64, u64)) -> (ulid: Ulid)
        ensures
            ulid@ == joined(value.0, value.1),
    {
        Ulid { high: value.0, low: value.1 }
    }
}

impl FromSpecImpl<(u64, u64)> for Ulid {
    open spec fn obeys_from_spec() -> bool {
        true
    }

    open spec fn from_spec(value: (u64, u64)) -> Ulid {
        Ulid::with_number(joined(value.0, value.1))
    }
}

impl From<Ulid> for (u64, u64) {
    /// The upper and the lower half of the number that the ULID is.
    fn from(ulid: Ulid) -> (value: (u64, u64))
        ensures
            joined(value.0, value.1) == ulid@,
    {
        (ulid.high, ulid.low)
    }
}

impl FromSpecImpl<Ulid> for (u64, u64) {
    open spec fn obeys_from_spec() -> bool {
        true
    }

    open spec fn from_spec(ulid: Ulid) -> (u64, u64) {
        ((ulid@ / 0x1_0000_0000_0000_0000) as u64, (ulid@ % 0x1_0000_0000_0000_0000) as u64)
    }
}

impl From<[u8; 16]> for Ulid {
    /// The ULID whose number the bytes denote, most significant byte first.
    fn from(bytes: [u8; 16]) -> (ulid: Ulid)
        ensures
            ulid@ == be_number(bytes@),
    {
        let pair = pair_from_bytes(bytes.as_slice());
        Ulid { high: pair.0, low: pair.1 }
    }
}

impl FromSpecImpl<[u8; 16]> for Ulid {
    open spec fn obeys_from_spec() -> bool {
        true
    }

    open spec fn from_spec(bytes: [u8; 16]) -> Ulid {
        Ulid::with_number(be_number(bytes@))
    }
}

impl From<Ulid> for [u8; 16] {
    /// The number that the ULID is, most significant byte first.
    fn from(ulid: Ulid) -> (bytes: [u8; 16])
        ensures
            bytes@ == be_bytes(ulid@, 16),
    {
        pair_to_bytes(ulid.high, ulid.low)
    }
}

impl FromSpecImpl<Ulid> for [u8; 16] {
    open spec fn obeys_from_spec() -> bool {
        true
    }

    open spec fn from_spec(ulid: Ulid) -> [u8; 16] {
        choose|bytes: [u8; 16]| bytes@ == be_bytes(ulid@, 16)
    }
}

impl TryFrom<&[u8]> for Ulid {
    type Error = DecodingError;

    /// Returns a ULID for the given slice of bytes, which are its number
    /// with the most significant byte first, or
    /// `DecodingError::InvalidLength` if the slice does not contain exactly
    /// 16 bytes.
    fn try_from(bytes: &[u8]) -> (result: Result<Ulid, DecodingError>)
        ensures
            bytes@.len() == 16 ==> result is Ok && result->Ok_0@ == be_number(bytes@),
            bytes@.len() != 16 ==> result == Err::<Ulid, DecodingError>(
                DecodingError::InvalidLength,
            ),
    {
        if bytes.len() != 16 {
            return Err(DecodingError::InvalidLength);
        }
        let pair = pair_from_bytes(bytes);
        Ok(Ulid { high: pair.0, low: pair.1 })
    }
}

impl TryFromSpecImpl<&[u8]> for Ulid {
    open spec fn obeys_try_from_spec() -> bool {
        true
    }

    open spec fn try_from_spec(bytes: &[u8]) -> Result<Ulid, DecodingError> {
        if bytes@.len() == 16 {
            Ok(Ulid::with_number(be_number(bytes@)))
        } else {
            Err(DecodingError::InvalidLength)
        }
    }
}

impl core::str::FromStr for Ulid {
    type Err = DecodingError;

    /// Parses the 26 digits of a ULID. Every error of the decoding comes out
    /// as it is.
    fn from_str(s: &str) -> (result: Result<Ulid, DecodingError>)
        ensures
            match decoding_u128(s@) {
                Ok(value) => result is Ok && result->Ok_0@ == value,
                Err(e) => result == Err::<Ulid, DecodingError>(e),
            },
    {
        match parse_crockford_u64_tuple(s) {
            Ok(value) => Ok(Ulid { high: value.0, low: value.1 }),
            Err(e) => Err(e),
        }
    }
}

} // verus!
