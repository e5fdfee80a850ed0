//! The functions of std and of other crates that write values, with what they are trusted to return.
use vstd::prelude::*;
use crate::text::{lower_hex, plain_decimal, signed_be, signed_decimal};

verus! {

/// The place where std writes a value, `std::fmt::Formatter`.
#[verifier::external_type_specification]
#[verifier::external_body]
pub struct ExFormatter<'a>(std::fmt::Formatter<'a>);

/// The error of writing a value, `std::fmt::Error`.
#[verifier::external_type_specification]
#[verifier::external_body]
pub struct ExFormatError(std::fmt::Error);

/// A map that is being written, `std::fmt::DebugMap`.
#[verifier::external_type_specification]
#[verifier::external_body]
pub struct ExDebugMap<'a, 'b: 'a>(std::fmt::DebugMap<'a, 'b>);

/// `Formatter::debug_map` starts to write a map. What is written is not stated.
pub assume_specification<'a, 'b>[ std::fmt::Formatter::<'a>::debug_map ](
    f: &'b mut std::fmt::Formatter<'a>,
) -> std::fmt::DebugMap<'b, 'a>;

/// `DebugMap::finish` ends the map and says whether all of it could be written. What is written is
/// not stated.
pub assume_specification<'a, 'b: 'a>[ std::fmt::DebugMap::<'a, 'b>::finish ](
    map: &mut std::fmt::DebugMap<'a, 'b>,
) -> std::fmt::Result;

/// `DebugMap::entry` writes one entry of the map. What is written is not stated.
#[verifier::external_body]
pub(crate) fn debug_entry<K: std::fmt::Debug, V: std::fmt::Debug>(
    map: &mut std::fmt::DebugMap<'_, '_>,
    key: &K,
    value: &V,
) {
    map.entry(key, value);
}

/// The `Debug` of `BTreeMap` writes the map in the order of its keys. What is written is not stated.
#[verifier::external_body]
pub(crate) fn debug_tree<K: std::fmt::Debug, V: std::fmt::Debug>(
    map: &std::collections::BTreeMap<K, V>,
    f: &mut std::fmt::Formatter<'_>,
) -> (result: std::fmt::Result) {
    std::fmt::Debug::fmt(map, f)
}

/// The conversion of std from a type to itself, `<T as From<T>>::from`, returns its argument
/// unchanged.
pub assume_specification<A>[ <A as std::convert::From<A>>::from ](value: A) -> (same: A)
    ensures
        same == value,
;

/// The text of `prost_types::Timestamp` for these seconds and nanoseconds: the time in UTC, for the
/// years from 0 to 9999 as RFC 3339 writes it.
pub uninterp spec fn timestamp_text(seconds: i64, nanos: i32) -> Seq<char>;

/// The number that so many digits of a text stand for, from a place on.
pub open spec fn digits_at(text: Seq<char>, from: int, count: nat) -> int
    decreases count,
{
    if count == 0 {
        0
    } else {
        digits_at(text, from, (count - 1) as nat) * 10 + (text[from + count - 1] as int - '0' as int)
    }
}

/// The days from the start of 1970 to a date of the Gregorian calendar, the years being counted from
/// March on so that a leap day is the last day of its year.
pub open spec fn days_to(year: int, month: int, day: int) -> int {
    let (y, m) = if month < 3 {
        (year - 1, month + 9)
    } else {
        (year, month - 3)
    };
    365 * y + y / 4 - y / 100 + y / 400 + (153 * m + 2) / 5 + day - 719469
}

/// The seconds since the start of 1970 for which a time in UTC stands, as RFC 3339 writes it.
pub open spec fn seconds_in(text: Seq<char>) -> int {
    86400 * days_to(digits_at(text, 0, 4), digits_at(text, 5, 2), digits_at(text, 8, 2)) + 3600
        * digits_at(text, 11, 2) + 60 * digits_at(text, 14, 2) + digits_at(text, 17, 2)
}

/// The nanoseconds of such a time, given in none, three, six or nine digits behind the seconds.
pub open spec fn nanos_in(text: Seq<char>) -> int {
    if text.len() == 20 {
        0
    } else if text.len() == 24 {
        digits_at(text, 20, 3) * 1_000_000
    } else if text.len() == 27 {
        digits_at(text, 20, 6) * 1_000
    } else {
        digits_at(text, 20, 9)
    }
}

/// A time in the years from 0 to 9999, with nanoseconds that are less than a second.
pub open spec fn in_written_years(seconds: i64, nanos: i32) -> bool {
    -62_167_219_200 <= seconds < 253_402_300_800 && 0 <= nanos < 1_000_000_000
}

/// `to_string` of `prost_types::Timestamp` depends on the two fields alone. In the years from 0 to
/// 9999 the seconds and the nanoseconds can be read from it again, as RFC 3339 has it. What it writes
/// of other times is not stated.
#[verifier::external_body]
pub(crate) fn timestamp_to_string(seconds: i64, nanos: i32) -> (text: String)
    ensures
        text@ == timestamp_text(seconds, nanos),
        in_written_years(seconds, nanos) ==> seconds_in(text@) == seconds && nanos_in(text@)
            == nanos,
{
    prost_types::Timestamp { seconds, nanos }.to_string()
}

/// So many bytes are no more than one allocation can hold.
pub open spec fn within_memory(bytes: int) -> bool {
    bytes <= isize::MAX
}

/// `to_string` of `substreams::scalar::BigInt` writes the integer, here given by its bytes in
/// two's complement, in base ten.
///
/// Its text is up to two and a half times as long as the bytes, and the digits are worked out in a
/// buffer that can grow to four times the text.
#[verifier::external_body]
pub(crate) fn big_int_to_string(signed_bytes_be: &[u8]) -> (text: String)
    requires
        within_memory((16 * signed_bytes_be@.len()) as int),
    ensures
        text@ == signed_decimal(signed_be(signed_bytes_be@)),
{
    substreams::scalar::BigInt::from_signed_bytes_be(signed_bytes_be).to_string()
}

/// `to_string` of `substreams::scalar::BigDecimal`, made by `BigDecimal::new` from its digits and
/// its power of ten, writes the number in plain decimal notation and keeps every digit.
///
/// The zeros that the power of ten adds are written in a buffer that can grow to twice their number.
#[verifier::external_body]
pub(crate) fn big_decimal_to_string(signed_bytes_be: &[u8], exp: i64) -> (text: String)
    requires
        within_memory((16 * signed_bytes_be@.len()) as int),
        within_memory(2 * exp),
        within_memory(-2 * exp),
    ensures
        text@ == plain_decimal(signed_be(signed_bytes_be@), exp as int),
{
    let digits = substreams::scalar::BigInt::from_signed_bytes_be(signed_bytes_be);
    substreams::scalar::BigDecimal::new(digits, exp).to_string()
}

/// `substreams::Hex::encode` writes bytes in lower case hexadecimal.
#[verifier::external_body]
pub(crate) fn hex_encode(bytes: &[u8]) -> (text: String)
    requires
        within_memory((2 * bytes@.len()) as int),
    ensures
        text@ == lower_hex(bytes@),
{
    substreams::Hex::encode(bytes)
}

/// `ToString::to_string` of `substreams::Hex` goes through its `Display`, which writes the bytes
/// in lower case hexadecimal, into a buffer that can grow to twice the text.
#[verifier::external_body]
pub(crate) fn hex_to_string(bytes: &[u8]) -> (text: String)
    requires
        within_memory((4 * bytes@.len()) as int),
    ensures
        text@ == lower_hex(bytes@),
{
    ToString::to_string(&substreams::Hex(bytes))
}

} // verus!
