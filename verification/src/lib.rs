//! ULID: a Universally Unique Lexicographically Sortable Identifier.
//!
//! A ULID is a 128-bit number. Its upper 48 bits are a timestamp, the
//! non-leap milliseconds since January 1, 1970 0:00:00 UTC, and its lower 80
//! bits are random. Its canonical string has 26 digits of Crockford's
//! Base32, ten for the timestamp and sixteen for the random part, and its
//! binary form has 16 bytes, most significant byte first. ULIDs, their
//! strings and their bytes are all ordered alike.
//!
//! ```text
//!  01AN4Z07BY      79KA1307SR9X4MV3
//!
//! |----------|    |----------------|
//!  Timestamp          Randomness
//!    48bits             80bits
//! ```
//!
//! The functions here are verified with Verus against their contracts; what
//! is taken on trust from std, `rand` and `chrono` is marked where it stands.
//! The contracts speak of the number that a ULID is, `ulid@`, and of the
//! sequences of characters and of bytes that denote it.

pub mod bytes;
pub mod cli;
pub mod crockford;
pub mod crockford_proofs;
pub mod generate;
pub mod order;
pub mod ulid;
pub mod ulid_proofs;

pub use crate::crockford::DecodingError;
pub use crate::generate::{generate_ulid_bytes, generate_ulid_string, TimestampOverflow};
pub use crate::ulid::Ulid;
