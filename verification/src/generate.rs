//! New ULIDs: from a timestamp and random bits, and as the successor of an
//! earlier ULID within one millisecond.

use crate::crockford::{decoding_u128, encoding};
use crate::ulid::{timestamp_unit, Ulid, MAX_TIMESTAMP};
use crate::ulid_proofs::{lemma_increment, lemma_string_round_trip};
use rand::Rng;
use vstd::prelude::*;

verus! {

/// The thread-local random number generator of `rand`.
#[verifier::external_type_specification]
#[verifier::external_body]
pub struct ExThreadRng(rand::rngs::ThreadRng);

/// `rand::thread_rng`: a handle to the generator of the current thread.
/// Nothing is said of the numbers it will give. `rand` panics where the
/// system gives it no seed.
pub assume_specification[ rand::thread_rng ]() -> (rng: rand::rngs::ThreadRng)
;

/// `Rng::gen` of `rand` at `u16`: some 16 bits, of which nothing is known.
/// `rand` panics where the generator of the thread cannot be seeded anew.
#[verifier::external_body]
fn random_u16(rng: &mut rand::rngs::ThreadRng) -> (bits: u16) {
    rng.gen::<u16>()
}

/// `Rng::gen` of `rand` at `u64`: some 64 bits, of which nothing is known.
/// `rand` panics where the generator of the thread cannot be seeded anew.
#[verifier::external_body]
fn random_u64(rng: &mut rand::rngs::ThreadRng) -> (bits: u64) {
    rng.gen::<u64>()
}

/// `Utc::now` and `DateTime::timestamp_millis` of `chrono`: the number of
/// non-leap milliseconds since January 1, 1970 0:00:00 UTC on the system
/// clock. Nothing is said of the number. `chrono` panics where the clock
/// stands before 1970.
#[verifier::external_body]
fn unix_epoch_ms() -> (now: u64) {
    chrono::Utc::now().timestamp_millis() as u64
}

/// The 48 bits of a timestamp do not hold these milliseconds of the clock:
/// the time is after `+10889-08-02T05:31:50.655Z`. This is no error of
/// decoding: no ULID can be made at such a time.
#[derive(Debug, PartialEq, Eq, Clone, Copy, Structural)]
pub struct TimestampOverflow {
    /// The milliseconds that the clock gave.
    pub millis: u64,
}

/// The timestamp that a reading of the clock gives, where 48 bits hold it.
pub fn checked_timestamp(millis: u64) -> (timestamp: Result<u64, TimestampOverflow>)
    ensures
        timestamp == if millis <= MAX_TIMESTAMP {
            Ok::<u64, TimestampOverflow>(millis)
        } else {
            Err::<u64, TimestampOverflow>(TimestampOverflow { millis })
        },
{
    if millis <= MAX_TIMESTAMP {
        Ok(millis)
    } else {
        Err(TimestampOverflow { millis })
    }
}

/// Sixteen and 64 bits from the random number generator of the thread where
/// they are `needed`, and zeros without a call of the generator where they
/// are not.
fn thread_random(needed: bool) -> (bits: (u16, u64)) {
    if needed {
        let mut rng = rand::thread_rng();
        let random_high = random_u16(&mut rng);
        let random_low = random_u64(&mut rng);
        (random_high, random_low)
    } else {
        (0, 0)
    }
}

/// The number of the ULID with the given timestamp and random bits.
pub open spec fn composed(timestamp: u64, random_high: u16, random_low: u64) -> nat {
    timestamp as nat * timestamp_unit() + random_high as nat * 0x1_0000_0000_0000_0000
        + random_low as nat
}

/// The number of the next monotonic ULID: the successor of `previous_ulid`
/// within its millisecond, and a new ULID at every other timestamp.
pub open spec fn next_monotonic_spec(
    previous_ulid: Ulid,
    timestamp: u64,
    random_high: u16,
    random_low: u64,
) -> nat {
    if timestamp == previous_ulid.timestamp_spec() {
        previous_ulid.increment_spec()
    } else {
        composed(timestamp, random_high, random_low)
    }
}

/// The number of a ULID that was made, and the error where none was.
pub open spec fn number_of(ulid: Result<Ulid, TimestampOverflow>) -> Result<
    nat,
    TimestampOverflow,
> {
    match ulid {
        Ok(ulid) => Ok(ulid@),
        Err(e) => Err(e),
    }
}

/// The number of a ULID that was made, nothing where there was none to make,
/// and the error where the clock was too late.
pub open spec fn number_of_next(next: Result<Option<Ulid>, TimestampOverflow>) -> Result<
    Option<nat>,
    TimestampOverflow,
> {
    match next {
        Ok(Some(ulid)) => Ok(Some(ulid@)),
        Ok(None) => Ok(None),
        Err(e) => Err(e),
    }
}

/// What generating gives for a reading of the clock and the random bits
/// that were drawn: the number of the new ULID, and an error where 48 bits
/// do not hold the reading.
pub open spec fn generate_at_spec(millis: u64, random_high: u16, random_low: u64) -> Result<
    nat,
    TimestampOverflow,
> {
    if millis <= MAX_TIMESTAMP {
        Ok(composed(millis, random_high, random_low))
    } else {
        Err(TimestampOverflow { millis })
    }
}

/// What the monotonic policy gives for a reading of the clock and the random
/// bits that were drawn: the number of the next monotonic ULID, and an error
/// where 48 bits do not hold the reading.
pub open spec fn next_monotonic_at_spec(
    previous_ulid: Ulid,
    millis: u64,
    random_high: u16,
    random_low: u64,
) -> Result<nat, TimestampOverflow> {
    if millis <= MAX_TIMESTAMP {
        Ok(next_monotonic_spec(previous_ulid, millis, random_high, random_low))
    } else {
        Err(TimestampOverflow { millis })
    }
}

/// What the strictly monotonic policy gives for a reading of the clock and
/// the random bits that were drawn: the number of the next monotonic ULID
/// where that is greater than `previous_ulid`, nothing where it is not, and
/// an error where 48 bits do not hold the reading.
pub open spec fn next_strictly_monotonic_at_spec(
    previous_ulid: Ulid,
    millis: u64,
    random_high: u16,
    random_low: u64,
) -> Result<Option<nat>, TimestampOverflow> {
    if millis > MAX_TIMESTAMP {
        Err(TimestampOverflow { millis })
    } else if previous_ulid@ < next_monotonic_spec(
        previous_ulid,
        millis,
        random_high,
        random_low,
    ) {
        Ok(Some(next_monotonic_spec(previous_ulid, millis, random_high, random_low)))
    } else {
        Ok(None)
    }
}

/// `s` is the canonical string of a ULID: it parses, and the ULID that it
/// parses to is written as `s`.
pub open spec fn is_ulid_string(s: Seq<char>) -> bool {
    decoding_u128(s) is Ok && encoding(decoding_u128(s)->Ok_0, 26) == s
}

impl Ulid {
    /// Creates a new ULID with the given `timestamp` and the random bits
    /// that a generator gave: `random_high` becomes the upper 16 and
    /// `random_low` the lower 64 bits of the random part.
    pub fn from_timestamp_with_rng(timestamp: u64, random_high: u16, random_low: u64) -> (ulid:
        Ulid)
        requires
            timestamp <= MAX_TIMESTAMP,
        ensures
            ulid@ == composed(timestamp, random_high, random_low),
            ulid.timestamp_spec() == timestamp,
            ulid.random_spec() == random_high * 0x1_0000_0000_0000_0000 + random_low,
    {
        let high: u64 = timestamp << 16 | (random_high as u64);
        assert(high == timestamp * 0x1_0000 + random_high) by (bit_vector)
            requires
                timestamp <= 0xFFFF_FFFF_FFFFu64,
                high == timestamp << 16 | (random_high as u64),
        ;
        Ulid::from((high, random_low))
    }

    /// Creates the next monotonic ULID with the given `previous_ulid` and
    /// `timestamp` and the random bits that a generator gave.
    ///
    /// Within the millisecond of `previous_ulid` the result is its
    /// successor, whatever the random bits are; if the random part of
    /// `previous_ulid` would overflow, the random part is zero.
    pub fn next_monotonic_from_timestamp_with_rng(
        previous_ulid: Ulid,
        timestamp: u64,
        random_high: u16,
        random_low: u64,
    ) -> (ulid: Ulid)
        requires
            timestamp <= MAX_TIMESTAMP,
        ensures
            ulid@ == next_monotonic_spec(previous_ulid, timestamp, random_high, random_low),
            ulid.timestamp_spec() == timestamp,
    {
        if previous_ulid.timestamp() == timestamp {
            previous_ulid.increment()
        } else {
            Ulid::from_timestamp_with_rng(timestamp, random_high, random_low)
        }
    }

    /// Creates the next strictly monotonic ULID with the given
    /// `previous_ulid` and `timestamp` and the random bits that a generator
    /// gave.
    ///
    /// There is none where the next monotonic ULID is not greater than
    /// `previous_ulid`: within its millisecond if its random part would
    /// overflow, and at every earlier `timestamp`.
    pub fn next_strictly_monotonic_from_timestamp_with_rng(
        previous_ulid: Ulid,
        timestamp: u64,
        random_high: u16,
        random_low: u64,
    ) -> (next: Option<Ulid>)
        requires
            timestamp <= MAX_TIMESTAMP,
        ensures
            next is Some <==> previous_ulid@ < next_monotonic_spec(
                previous_ulid,
                timestamp,
                random_high,
                random_low,
            ),
            next is Some ==> next.unwrap()@ == next_monotonic_spec(
                previous_ulid,
                timestamp,
                random_high,
                random_low,
            ),
            next is Some <==> timestamp > previous_ulid.timestamp_spec() || (timestamp
                == previous_ulid.timestamp_spec() && previous_ulid.random_spec() + 1
                < timestamp_unit()),
    {
        let result = Ulid::next_monotonic_from_timestamp_with_rng(
            previous_ulid,
            timestamp,
            random_high,
            random_low,
        );
        if previous_ulid < result {
            Some(result)
        } else {
            None
        }
    }

    /// Whether the next monotonic ULID at `timestamp` takes random bits:
    /// it does at every timestamp but that of `previous_ulid`, where it is
    /// the successor of `previous_ulid`.
    pub fn needs_random(previous_ulid: Ulid, timestamp: u64) -> (needed: bool)
        ensures
            needed == (timestamp != previous_ulid.timestamp_spec()),
    {
        previous_ulid.timestamp() != timestamp
    }

    /// Creates a new ULID for a reading of the clock in milliseconds and the
    /// random bits that a generator gave.
    ///
    /// # Errors
    ///
    /// There is none where 48 bits do not hold the reading.
    pub fn generate_at(millis: u64, random_high: u16, random_low: u64) -> (ulid: Result<
        Ulid,
        TimestampOverflow,
    >)
        ensures
            number_of(ulid) == generate_at_spec(millis, random_high, random_low),
            ulid is Ok ==> ulid->Ok_0.timestamp_spec() == millis,
    {
        match checked_timestamp(millis) {
            Ok(timestamp) => Ok(
                Ulid::from_timestamp_with_rng(timestamp, random_high, random_low),
            ),
            Err(e) => Err(e),
        }
    }

    /// Creates the next monotonic ULID for the given `previous_ulid`, a
    /// reading of the clock in milliseconds and the random bits that a
    /// generator gave.
    ///
    /// # Errors
    ///
    /// There is none where 48 bits do not hold the reading.
    pub fn next_monotonic_at(
        previous_ulid: Ulid,
        millis: u64,
        random_high: u16,
        random_low: u64,
    ) -> (ulid: Result<Ulid, TimestampOverflow>)
        ensures
            number_of(ulid) == next_monotonic_at_spec(
                previous_ulid,
                millis,
                random_high,
                random_low,
            ),
            ulid is Ok ==> ulid->Ok_0.timestamp_spec() == millis,
    {
        match checked_timestamp(millis) {
            Ok(timestamp) => Ok(
                Ulid::next_monotonic_from_timestamp_with_rng(
                    previous_ulid,
                    timestamp,
                    random_high,
                    random_low,
                ),
            ),
            Err(e) => Err(e),
        }
    }

    /// Creates the next strictly monotonic ULID for the given
    /// `previous_ulid`, a reading of the clock in milliseconds and the
    /// random bits that a generator gave. There is none where the next
    /// monotonic ULID is not greater than `previous_ulid`: the sequence of
    /// that millisecond is exhausted, or the clock went back.
    ///
    /// # Errors
    ///
    /// Where 48 bits do not hold the reading, that is reported, apart from
    /// the sequence being exhausted.
    pub fn next_strictly_monotonic_at(
        previous_ulid: Ulid,
        millis: u64,
        random_high: u16,
        random_low: u64,
    ) -> (next: Result<Option<Ulid>, TimestampOverflow>)
        ensures
            number_of_next(next) == next_strictly_monotonic_at_spec(
                previous_ulid,
                millis,
                random_high,
                random_low,
            ),
            next matches Ok(Some(ulid)) ==> ulid.timestamp_spec() == millis,
    {
        match checked_timestamp(millis) {
            Ok(timestamp) => Ok(
                Ulid::next_strictly_monotonic_from_timestamp_with_rng(
                    previous_ulid,
                    timestamp,
                    random_high,
                    random_low,
                ),
            ),
            Err(e) => Err(e),
        }
    }

    /// Creates a new ULID from the system clock and the random number
    /// generator of the thread: what `generate_at` gives for the clock's
    /// milliseconds and the bits that were drawn.
    ///
    /// # Errors
    ///
    /// There is none where 48 bits do not hold the clock's milliseconds,
    /// which is after `+10889-08-02T05:31:50.655Z`; no bits are drawn then.
    ///
    /// # Panics
    ///
    /// The calls of `chrono` and `rand` panic where the system clock stands
    /// before 1970, and where the system gives the generator no entropy.
    pub fn generate() -> (ulid: Result<Ulid, TimestampOverflow>)
        ensures
            ulid matches Err(e) ==> e.millis > MAX_TIMESTAMP,
    {
        let millis = unix_epoch_ms();
        let bits = thread_random(millis <= MAX_TIMESTAMP);
        Ulid::generate_at(millis, bits.0, bits.1)
    }

    /// Creates the next monotonic ULID for the given `previous_ulid` from
    /// the system clock and the random number generator of the thread: what
    /// `next_monotonic_at` gives for the clock's milliseconds and the bits
    /// that were drawn. Bits are drawn only where they are needed.
    ///
    /// # Errors
    ///
    /// There is none where 48 bits do not hold the clock's milliseconds.
    ///
    /// # Panics
    ///
    /// The calls of `chrono` and `rand` panic where the system clock stands
    /// before 1970, and where the system gives the generator no entropy.
    pub fn next_monotonic(previous_ulid: Ulid) -> (ulid: Result<Ulid, TimestampOverflow>)
        ensures
            ulid matches Ok(next) ==> next@ == previous_ulid.increment_spec()
                || next.timestamp_spec() != previous_ulid.timestamp_spec(),
            ulid matches Err(e) ==> e.millis > MAX_TIMESTAMP,
    {
        let millis = unix_epoch_ms();
        let bits = thread_random(
            millis <= MAX_TIMESTAMP && Ulid::needs_random(previous_ulid, millis),
        );
        Ulid::next_monotonic_at(previous_ulid, millis, bits.0, bits.1)
    }

    /// Creates the next strictly monotonic ULID for the given
    /// `previous_ulid` from the system clock and the random number
    /// generator of the thread: what `next_strictly_monotonic_at` gives for
    /// the clock's milliseconds and the bits that were drawn. Bits are drawn
    /// only where they are needed.
    ///
    /// A ULID that comes out is the successor of `previous_ulid` by one, or
    /// has a later timestamp. There is none where the next monotonic ULID is
    /// not greater than `previous_ulid`: the random part of `previous_ulid`
    /// is exhausted, or the clock went back before its timestamp.
    ///
    /// # Errors
    ///
    /// Where 48 bits do not hold the clock's milliseconds, that is reported,
    /// apart from the sequence being exhausted.
    ///
    /// # Panics
    ///
    /// The calls of `chrono` and `rand` panic where the system clock stands
    /// before 1970, and where the system gives the generator no entropy.
    pub fn next_strictly_monotonic(previous_ulid: Ulid) -> (next: Result<
        Option<Ulid>,
        TimestampOverflow,
    >)
        ensures
            next matches Ok(Some(ulid)) ==> previous_ulid@ < ulid@ && (ulid@ == previous_ulid@ + 1
                || ulid.timestamp_spec() > previous_ulid.timestamp_spec()),
            next matches Ok(None) ==> previous_ulid.timestamp_spec() > 0
                || previous_ulid.random_spec() + 1 == timestamp_unit(),
            next matches Err(e) ==> e.millis > MAX_TIMESTAMP,
    {
        let millis = unix_epoch_ms();
        let bits = thread_random(
            millis <= MAX_TIMESTAMP && Ulid::needs_random(previous_ulid, millis),
        );
        let next = Ulid::next_strictly_monotonic_at(previous_ulid, millis, bits.0, bits.1);
        proof {
            lemma_increment(previous_ulid);
        }
        next
    }
}

/// Returns a new ULID string: the canonical string of the ULID that
/// `Ulid::generate` gives, 26 characters.
///
/// # Errors
///
/// There is none where 48 bits do not hold the clock's milliseconds.
///
/// # Panics
///
/// The calls of `chrono` and `rand` panic where the system clock stands
/// before 1970, and where the system gives the generator no entropy.
pub fn generate_ulid_string() -> (s: Result<String, TimestampOverflow>)
    ensures
        s matches Ok(text) ==> text@.len() == 26 && is_ulid_string(text@),
        s matches Err(e) ==> e.millis > MAX_TIMESTAMP,
{
    match Ulid::generate() {
        Ok(ulid) => {
            proof {
                lemma_string_round_trip(ulid);
            }
            Ok(ulid.to_string())
        },
        Err(e) => Err(e),
    }
}

/// Returns new ULID bytes: the 16 bytes of the ULID that `Ulid::generate`
/// gives, most significant byte first.
///
/// # Errors
///
/// There is none where 48 bits do not hold the clock's milliseconds.
///
/// # Panics
///
/// The calls of `chrono` and `rand` panic where the system clock stands
/// before 1970, and where the system gives the generator no entropy.
pub fn generate_ulid_bytes() -> (bytes: Result<[u8; 16], TimestampOverflow>)
    ensures
        bytes matches Err(e) ==> e.millis > MAX_TIMESTAMP,
{
    match Ulid::generate() {
        Ok(ulid) => Ok(ulid.into()),
        Err(e) => Err(e),
    }
}

} // verus!
