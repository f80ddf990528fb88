use rand::rngs::mock::StepRng;
use rand::Rng;
use rusty_ulid::{DecodingError, Ulid};
use std::cmp::Ordering;
use std::collections::hash_map::DefaultHasher;
use std::convert::TryFrom;
use std::hash::{Hash, Hasher};
use std::str::FromStr;

const PAST_TIMESTAMP: u64 = 1_481_195_424_879;
const PAST_TIMESTAMP_PART: &str = "01B3F2133F";

const MAX_TIMESTAMP: u64 = 0xFFFF_FFFF_FFFF;
const MAX_TIMESTAMP_PART: &str = "7ZZZZZZZZZ";

const MIN_TIMESTAMP: u64 = 0;
const MIN_TIMESTAMP_PART: &str = "0000000000";

#[test]
fn increment() {
    single_increment(0x0000_0000_0000_0000_0000_0000_0000_0000, Ulid::from(1));
    single_increment(
        0x0000_0000_0000_FFFF_FFFF_FFFF_FFFF_FFFE,
        Ulid::from(0xFFFF_FFFF_FFFF_FFFF_FFFF),
    );
    single_increment(0x0000_0000_0000_FFFF_FFFF_FFFF_FFFF_FFFF, Ulid::from(0));
    single_increment(
        0x0000_0000_0001_0000_0000_0000_0000_0000,
        Ulid::from(0x0000_0000_0001_0000_0000_0000_0000_0001),
    );
    single_increment(
        0x0000_0000_0001_FFFF_FFFF_FFFF_FFFF_FFFF,
        Ulid::from(0x0000_0000_0001_0000_0000_0000_0000_0000),
    );
}

fn single_increment(input: u128, expected_result: Ulid) {
    let input_value: Ulid = input.into();
    let incremented = input_value.increment();

    assert_eq!(incremented, expected_result);
    assert_eq!(input_value.timestamp(), incremented.timestamp());
}

#[test]
fn from_string_to_string() {
    single_from_string_to_string(
        &(PAST_TIMESTAMP_PART.to_owned() + "0000000000000000"),
        PAST_TIMESTAMP,
    );
    single_from_string_to_string(
        &(PAST_TIMESTAMP_PART.to_owned() + "ZZZZZZZZZZZZZZZZ"),
        PAST_TIMESTAMP,
    );
    single_from_string_to_string(
        &(PAST_TIMESTAMP_PART.to_owned() + "123456789ABCDEFG"),
        PAST_TIMESTAMP,
    );
    single_from_string_to_string(
        &(PAST_TIMESTAMP_PART.to_owned() + "1000000000000000"),
        PAST_TIMESTAMP,
    );
    single_from_string_to_string(
        &(PAST_TIMESTAMP_PART.to_owned() + "1000000000000001"),
        PAST_TIMESTAMP,
    );
    single_from_string_to_string(
        &(PAST_TIMESTAMP_PART.to_owned() + "0001000000000001"),
        PAST_TIMESTAMP,
    );
    single_from_string_to_string(
        &(PAST_TIMESTAMP_PART.to_owned() + "0100000000000001"),
        PAST_TIMESTAMP,
    );
    single_from_string_to_string(
        &(PAST_TIMESTAMP_PART.to_owned() + "0000000000000001"),
        PAST_TIMESTAMP,
    );
    single_from_string_to_string(
        &(MAX_TIMESTAMP_PART.to_owned() + "123456789ABCDEFG"),
        MAX_TIMESTAMP,
    );
    single_from_string_to_string(
        &(MIN_TIMESTAMP_PART.to_owned() + "123456789ABCDEFG"),
        MIN_TIMESTAMP,
    );

    let largest_legal_ulid_string = "7ZZZZZZZZZZZZZZZZZZZZZZZZZ";
    single_from_string_to_string(largest_legal_ulid_string, MAX_TIMESTAMP);
}

fn single_from_string_to_string(s: &str, timestamp: u64) {
    let ulid = Ulid::from_str(s).unwrap();
    assert_eq!(ulid.timestamp(), timestamp);
    assert_eq!(ulid.to_string(), s);
}

#[test]
fn from_string_to_string_special_cases() {
    single_from_string_to_string_special_case(
        &(PAST_TIMESTAMP_PART.to_owned() + "00i0000000000000"),
        &(PAST_TIMESTAMP_PART.to_owned() + "0010000000000000"),
        PAST_TIMESTAMP,
    );
    single_from_string_to_string_special_case(
        &(PAST_TIMESTAMP_PART.to_owned() + "00I0000000000000"),
        &(PAST_TIMESTAMP_PART.to_owned() + "0010000000000000"),
        PAST_TIMESTAMP,
    );
    single_from_string_to_string_special_case(
        &(PAST_TIMESTAMP_PART.to_owned() + "00l0000000000000"),
        &(PAST_TIMESTAMP_PART.to_owned() + "0010000000000000"),
        PAST_TIMESTAMP,
    );
    single_from_string_to_string_special_case(
        &(PAST_TIMESTAMP_PART.to_owned() + "00L0000000000000"),
        &(PAST_TIMESTAMP_PART.to_owned() + "0010000000000000"),
        PAST_TIMESTAMP,
    );
    single_from_string_to_string_special_case(
        &(PAST_TIMESTAMP_PART.to_owned() + "00o0000000000000"),
        &(PAST_TIMESTAMP_PART.to_owned() + "0000000000000000"),
        PAST_TIMESTAMP,
    );
    single_from_string_to_string_special_case(
        &(PAST_TIMESTAMP_PART.to_owned() + "00O0000000000000"),
        &(PAST_TIMESTAMP_PART.to_owned() + "0000000000000000"),
        PAST_TIMESTAMP,
    );
}

fn single_from_string_to_string_special_case(s: &str, expected: &str, timestamp: u64) {
    let ulid = Ulid::from_str(s).unwrap();
    assert_eq!(ulid.timestamp(), timestamp);
    assert_eq!(ulid.to_string(), expected);
}

#[test]
fn from_str_failure_too_long() {
    let result = Ulid::from_str("123456789012345678901234567");
    assert_eq!(result, Err(DecodingError::InvalidLength));
}

#[test]
fn from_str_failure_too_short() {
    let result = Ulid::from_str("1234567890123456789012345");
    assert_eq!(result, Err(DecodingError::InvalidLength));
}

#[test]
fn from_str_failure_invalid_unicode() {
    // 23 characters: the length is judged by characters, before any of them
    let string = "012345678🦀0123456789012";
    let result = Ulid::from_str(string);
    assert_eq!(result, Err(DecodingError::InvalidLength));

    // 26 characters pass for their length, whatever bytes they take
    let string = "012345678🦀0123456789012345";
    let result = Ulid::from_str(string);
    assert_eq!(result, Err(DecodingError::InvalidChar('🦀')));
}

#[test]
fn from_str_failure_overflow() {
    let smallest_overflowing_ulid_string = "80000000000000000000000000";
    let result = Ulid::from_str(smallest_overflowing_ulid_string);
    assert_eq!(result, Err(DecodingError::DataTypeOverflow));
}

#[test]
fn eq_cmp_sanity_checks() {
    // yes, this is pretty paranoid.

    let ulid_one_low: Ulid = (0, 1).into();
    let ulid_two_low: Ulid = (0, 2).into();
    let ulid_one_high: Ulid = (1, 0).into();

    let ulid_one_low_other: Ulid = (0, 1).into();

    assert_eq!(ulid_one_low.eq(&ulid_one_low), true);
    assert_eq!(ulid_one_low.cmp(&ulid_one_low), Ordering::Equal);

    assert!(ulid_one_low == ulid_one_low_other);
    assert_eq!(ulid_one_low.eq(&ulid_one_low_other), true);
    assert_eq!(ulid_one_low.cmp(&ulid_one_low_other), Ordering::Equal);

    assert!(ulid_one_low != ulid_two_low);
    assert!(ulid_two_low != ulid_one_low);
    assert!(ulid_one_low < ulid_two_low);
    assert!(ulid_two_low > ulid_one_low);
    assert_eq!(ulid_one_low.eq(&ulid_two_low), false);
    assert_eq!(ulid_two_low.eq(&ulid_one_low), false);
    assert_eq!(ulid_one_low.cmp(&ulid_two_low), Ordering::Less);
    assert_eq!(ulid_two_low.cmp(&ulid_one_low), Ordering::Greater);

    assert!(ulid_one_low != ulid_one_high);
    assert!(ulid_one_high != ulid_one_low);
    assert_eq!(ulid_one_low.eq(&ulid_one_high), false);
    assert_eq!(ulid_one_high.eq(&ulid_one_low), false);
    assert_eq!(ulid_one_low.cmp(&ulid_one_high), Ordering::Less);
    assert_eq!(ulid_one_high.cmp(&ulid_one_low), Ordering::Greater);
}

#[test]
fn hash_sanity_checks() {
    // yes, this is also pretty paranoid.

    let ulid_one_low: Ulid = (0, 1).into();
    let ulid_two_low: Ulid = (0, 2).into();
    let ulid_one_high: Ulid = (1, 0).into();

    let ulid_one_low_other: Ulid = (0, 1).into();

    let mut hasher_one_low = DefaultHasher::new();
    ulid_one_low.hash(&mut hasher_one_low);
    let hash_one_low = hasher_one_low.finish();

    let mut hasher_one_low_other = DefaultHasher::new();
    ulid_one_low_other.hash(&mut hasher_one_low_other);
    let hash_one_low_other = hasher_one_low_other.finish();

    let mut hasher_two_low = DefaultHasher::new();
    ulid_two_low.hash(&mut hasher_two_low);
    let hash_two_low = hasher_two_low.finish();

    let mut hasher_one_high = DefaultHasher::new();
    ulid_one_high.hash(&mut hasher_one_high);
    let hash_one_high = hasher_one_high.finish();

    // this must be true
    assert_eq!(hash_one_low, hash_one_low_other);

    // this should be true in case of a reasonable DefaultHasher implementation
    assert_ne!(hash_one_low, hash_two_low);
    assert_ne!(hash_one_low, hash_one_high);
}

#[test]
fn test_from_timestamp_with_rng() {
    let mut mock_rng = StepRng::new(0, 0);
    let ulid = Ulid::from_timestamp_with_rng(
        0xFFFF_FFFF_FFFF,
        mock_rng.gen::<u16>(),
        mock_rng.gen::<u64>(),
    );

    let ulid_value: u128 = ulid.into();

    assert_eq!(ulid_value, 0xFFFF_FFFF_FFFF_0000_0000_0000_0000_0000);

    let mut mock_rng = StepRng::new(0xF00F, 0);
    let ulid = Ulid::from_timestamp_with_rng(0, mock_rng.gen::<u16>(), mock_rng.gen::<u64>());

    let ulid_value: u128 = ulid.into();

    assert_eq!(ulid_value, 0x0000_0000_0000_F00F_0000_0000_0000_F00F);
}

#[test]
fn test_from_param() {
    let ulid_str = "01ARZ3NDEKTSV4RRFFQ69G5FAV";
    let ulid = Ulid::from_param(ulid_str).unwrap();
    assert_eq!(ulid_str, ulid.to_string());
}

#[test]
fn test_from_param_invalid() {
    let ulid_str = "01ARZ3NDEKTSV4RRFFQ69G5FAU";
    assert!(Ulid::from_param(ulid_str).is_err());
}

#[test]
fn from_param_reports_the_decoding_error() {
    assert_eq!(
        Ulid::from_param("01ARZ3NDEKTSV4RRFFQ69G5FAU"),
        Err(DecodingError::InvalidChar('U'))
    );
    assert_eq!(Ulid::from_param("01ARZ3NDEKTSV4RRFFQ69G5FA"), Err(DecodingError::InvalidLength));
    assert_eq!(
        Ulid::from_param("81ARZ3NDEKTSV4RRFFQ69G5FAV"),
        Err(DecodingError::DataTypeOverflow)
    );
}

#[test]
fn from_bytes_is_big_endian() {
    let bytes: [u8; 16] = [
        0x11, 0x22, 0x33, 0x44, 0x55, 0x66, 0x77, 0x88, 0x99, 0xAA, 0xBB, 0xCC, 0xDD, 0xEE, 0xF0,
        0x0F,
    ];
    let ulid = Ulid::from(bytes);
    assert_eq!(ulid, Ulid::from(0x1122_3344_5566_7788_99AA_BBCC_DDEE_F00F));
    let ulid: Ulid = bytes.into();
    assert_eq!(ulid, Ulid::from(0x1122_3344_5566_7788_99AA_BBCC_DDEE_F00F));
}

#[test]
fn to_bytes_is_big_endian() {
    let ulid = Ulid::from(0x1122_3344_5566_7788_99AA_BBCC_DDEE_F00F);
    let expected_bytes: [u8; 16] = [
        0x11, 0x22, 0x33, 0x44, 0x55, 0x66, 0x77, 0x88, 0x99, 0xAA, 0xBB, 0xCC, 0xDD, 0xEE, 0xF0,
        0x0F,
    ];
    assert_eq!(<[u8; 16]>::from(ulid), expected_bytes);
    let bytes: [u8; 16] = ulid.into();
    assert_eq!(bytes, expected_bytes);
}

#[test]
fn bytes_round_trip() {
    let samples: [[u8; 16]; 4] = [
        [0; 16],
        [0xFF; 16],
        [1, 2, 3, 4, 5, 6, 7, 8, 9, 10, 11, 12, 13, 14, 15, 16],
        [0x80, 0, 0, 0, 0, 0, 0, 0x01, 0xFE, 0, 0, 0, 0, 0, 0, 0x7F],
    ];
    for bytes in samples {
        let ulid = Ulid::from(bytes);
        assert_eq!(<[u8; 16]>::from(ulid), bytes);
    }
}

#[test]
fn tuple_and_u128_conversions() {
    let tuple = (0x1122_3344_5566_7788, 0x99AA_BBCC_DDEE_F00F);
    let ulid = Ulid::from(tuple);
    assert_eq!(ulid, Ulid::from(0x1122_3344_5566_7788_99AA_BBCC_DDEE_F00F));
    assert_eq!(<(u64, u64)>::from(ulid), tuple);
    assert_eq!(u128::from(ulid), 0x1122_3344_5566_7788_99AA_BBCC_DDEE_F00F);
    let back: (u64, u64) = ulid.into();
    assert_eq!(back, tuple);
    let max = Ulid::from(u128::MAX);
    assert_eq!(<(u64, u64)>::from(max), (u64::MAX, u64::MAX));
    assert_eq!(max.timestamp(), 0xFFFF_FFFF_FFFF);
}

#[test]
fn try_from_byte_slice() {
    let bytes: [u8; 18] = [
        0x00, 0x11, 0x22, 0x33, 0x44, 0x55, 0x66, 0x77, 0x88, 0x99, 0xAA, 0xBB, 0xCC, 0xDD, 0xEE,
        0xF0, 0x0F, 0x00,
    ];
    let ulid: Ulid = Ulid::try_from(&bytes[1..17]).unwrap();
    assert_eq!(ulid, Ulid::from(0x1122_3344_5566_7788_99AA_BBCC_DDEE_F00F));

    let long: [u8; 17] = [0; 17];
    assert_eq!(Ulid::try_from(&long[0..]), Err(DecodingError::InvalidLength));
    let short: [u8; 15] = [0; 15];
    assert_eq!(Ulid::try_from(&short[0..]), Err(DecodingError::InvalidLength));
    let empty: [u8; 0] = [];
    assert_eq!(Ulid::try_from(&empty[0..]), Err(DecodingError::InvalidLength));
}

#[test]
fn timestamp_of_parsed_ulid() {
    let ulid = Ulid::from_str("01CAH7NXGRDJNE9B1NY7PQGYV7").unwrap();
    assert_eq!(ulid.timestamp(), 1523144390168);
    assert_eq!(ulid.datetime(), (1523144390, 168_000_000));
    assert_eq!(Ulid::from(0).datetime(), (0, 0));
    assert_eq!(Ulid::from(u128::MAX).datetime(), (281_474_976_710, 655_000_000));
}

#[test]
fn to_string_of_extremes() {
    assert_eq!(Ulid::from(0).to_string(), "00000000000000000000000000");
    assert_eq!(Ulid::from(u128::MAX).to_string(), "7ZZZZZZZZZZZZZZZZZZZZZZZZZ");
    assert_eq!(
        Ulid::from(0x1122_3344_5566_7788_99AA_BBCC_DDEE_F00F).to_string(),
        "0H48SM8NB6EY49KANVSKEYXW0F"
    );
}

#[test]
fn parse_boundaries() {
    assert_eq!(Ulid::from_str("7ZZZZZZZZZZZZZZZZZZZZZZZZZ"), Ok(Ulid::from(u128::MAX)));
    assert_eq!(
        Ulid::from_str("80000000000000000000000000"),
        Err(DecodingError::DataTypeOverflow)
    );
    assert_eq!(
        Ulid::from_str("0000000000000000000000000u"),
        Err(DecodingError::InvalidChar('u'))
    );
    assert_eq!(
        Ulid::from_str("U0000000000000000000000000"),
        Err(DecodingError::InvalidChar('U'))
    );
    assert_eq!("01ARZ3NDEKTSV4RRFFQ69G5FAV".parse::<Ulid>().map(|u| u.to_string()).unwrap(),
        "01ARZ3NDEKTSV4RRFFQ69G5FAV");
}

#[test]
fn the_first_character_is_judged_first() {
    // a first digit above 7 is reported before a later character is looked at
    assert_eq!(
        Ulid::from_str("8000000000000000000000000U"),
        Err(DecodingError::DataTypeOverflow)
    );
    // the first of several invalid characters is the one that is named
    assert_eq!(
        Ulid::from_str("0000000000!00000000000000U"),
        Err(DecodingError::InvalidChar('!'))
    );
    // 25 characters are refused for their length, also where they take 26 bytes
    assert_eq!(
        Ulid::from_str("000000000000000000000000\u{e9}"),
        Err(DecodingError::InvalidLength)
    );
    // 26 characters with one of two bytes pass for length and fail on that character
    assert_eq!(
        Ulid::from_str("0000000000000000000000000\u{e9}"),
        Err(DecodingError::InvalidChar('\u{e9}'))
    );
}

#[test]
fn string_order_is_number_order() {
    let samples: [u128; 8] = [
        0,
        1,
        31,
        32,
        0xFFFF_FFFF_FFFF_FFFF,
        0x1_0000_0000_0000_0000,
        0x0000_0000_0001_0000_0000_0000_0000_0000,
        u128::MAX,
    ];
    for a in samples {
        for b in samples {
            let (x, y) = (Ulid::from(a), Ulid::from(b));
            assert_eq!(a < b, x < y);
            assert_eq!(a < b, x.to_string() < y.to_string());
            assert_eq!(a < b, <[u8; 16]>::from(x) < <[u8; 16]>::from(y));
            assert_eq!(a.cmp(&b), x.cmp(&y));
            assert_eq!(Some(a.cmp(&b)), x.partial_cmp(&y));
        }
    }
}

#[test]
fn string_round_trip() {
    let samples: [u128; 6] = [
        0,
        1,
        0x1122_3344_5566_7788_99AA_BBCC_DDEE_F00F,
        0xF00F_EEDD_CCBB_AA99_8877_6655_4433_2211,
        0x8000_0000_0000_0000_0000_0000_0000_0000,
        u128::MAX,
    ];
    for value in samples {
        let ulid = Ulid::from(value);
        let string = ulid.to_string();
        assert_eq!(string.len(), 26);
        assert_eq!(Ulid::from_str(&string), Ok(ulid));
        assert_eq!(Ulid::from_str(&string.to_lowercase()), Ok(ulid));
    }
}

#[test]
fn increment_keeps_the_timestamp() {
    let samples: [u128; 5] = [
        0,
        0x0000_0000_0000_FFFF_FFFF_FFFF_FFFF_FFFF,
        0x0162_A27A_F618_6CAA_E4AC_35F1_ED78_7B67,
        0xFFFF_FFFF_FFFF_FFFF_FFFF_FFFF_FFFF_FFFE,
        u128::MAX,
    ];
    for value in samples {
        let ulid = Ulid::from(value);
        assert_eq!(ulid.increment().timestamp(), ulid.timestamp());
    }
    assert_eq!(
        Ulid::from(u128::MAX).increment(),
        Ulid::from(0xFFFF_FFFF_FFFF_0000_0000_0000_0000_0000)
    );
    assert_eq!(
        Ulid::from(0xFFFF_FFFF_FFFF_FFFF_FFFF_FFFF_FFFF_FFFE).increment(),
        Ulid::from(u128::MAX)
    );
}
