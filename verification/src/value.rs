//! How values are written into columns.
use vstd::prelude::*;
use crate::outside::{
    big_decimal_to_string, big_int_to_string, hex_encode, hex_to_string, in_written_years, nanos_in,
    seconds_in, timestamp_text, timestamp_to_string, within_memory,
};
use crate::scalar::{BigDecimal, BigInt, Bytes, Hex, Timestamp};
use crate::text::{
    decimal, lower_hex, plain_decimal, signed_decimal, signed_text, unsigned_text,
};

verus! {

/// A value that can stand in a column.
pub trait ToDatabaseValue: Sized {
    /// The value's text.
    spec fn database_text(self) -> Seq<char>;

    /// The value's text is short enough to be written down.
    spec fn text_fits(self) -> bool;

    /// Turns the value into its text.
    fn to_value(self) -> (text: String)
        requires
            self.text_fits(),
        ensures
            text@ == self.database_text(),
    ;
}

/// The texts of values, in their order.
pub open spec fn database_texts<T: ToDatabaseValue>(values: Seq<T>) -> Seq<Seq<char>> {
    values.map_values(|value: T| value.database_text())
}

/// Every value's text is short enough to be written down.
pub open spec fn all_texts_fit<T: ToDatabaseValue>(values: Seq<T>) -> bool {
    forall|i: int| 0 <= i < values.len() ==> (#[trigger] values[i]).text_fits()
}

/// Turns each value into its text.
pub fn to_values<T: ToDatabaseValue>(values: Vec<T>) -> (value_texts: Vec<String>)
    requires
        all_texts_fit(values@),
    ensures
        value_texts@.map_values(|value: String| value@) == database_texts(values@),
{
    let mut value_texts: Vec<String> = Vec::new();
    for value in iter: values
        invariant
            iter.seq() == values@,
            all_texts_fit(values@),
            value_texts@.len() == iter.index(),
            forall|i: int|
                0 <= i < value_texts@.len() ==> (#[trigger] value_texts@[i])@
                    == values@[i].database_text(),
    {
        value_texts.push(value.to_value());
    }
    assert(value_texts@.map_values(|value: String| value@) =~= database_texts(values@));
    value_texts
}

impl ToDatabaseValue for i8 {
    open spec fn database_text(self) -> Seq<char> {
        signed_decimal(self as int)
    }

    open spec fn text_fits(self) -> bool {
        true
    }

    fn to_value(self) -> (text: String) {
        signed_text(self as i64)
    }
}

impl ToDatabaseValue for i16 {
    open spec fn database_text(self) -> Seq<char> {
        signed_decimal(self as int)
    }

    open spec fn text_fits(self) -> bool {
        true
    }

    fn to_value(self) -> (text: String) {
        signed_text(self as i64)
    }
}

impl ToDatabaseValue for i32 {
    open spec fn database_text(self) -> Seq<char> {
        signed_decimal(self as int)
    }

    open spec fn text_fits(self) -> bool {
        true
    }

    fn to_value(self) -> (text: String) {
        signed_text(self as i64)
    }
}

impl ToDatabaseValue for i64 {
    open spec fn database_text(self) -> Seq<char> {
        signed_decimal(self as int)
    }

    open spec fn text_fits(self) -> bool {
        true
    }

    fn to_value(self) -> (text: String) {
        signed_text(self)
    }
}

impl ToDatabaseValue for u8 {
    open spec fn database_text(self) -> Seq<char> {
        decimal(self as nat)
    }

    open spec fn text_fits(self) -> bool {
        true
    }

    fn to_value(self) -> (text: String) {
        unsigned_text(self as u64)
    }
}

impl ToDatabaseValue for u16 {
    open spec fn database_text(self) -> Seq<char> {
        decimal(self as nat)
    }

    open spec fn text_fits(self) -> bool {
        true
    }

    fn to_value(self) -> (text: String) {
        unsigned_text(self as u64)
    }
}

impl ToDatabaseValue for u32 {
    open spec fn database_text(self) -> Seq<char> {
        decimal(self as nat)
    }

    open spec fn text_fits(self) -> bool {
        true
    }

    fn to_value(self) -> (text: String) {
        unsigned_text(self as u64)
    }
}

impl ToDatabaseValue for u64 {
    open spec fn database_text(self) -> Seq<char> {
        decimal(self as nat)
    }

    open spec fn text_fits(self) -> bool {
        true
    }

    fn to_value(self) -> (text: String) {
        unsigned_text(self)
    }
}

impl ToDatabaseValue for bool {
    open spec fn database_text(self) -> Seq<char> {
        if self {
            "true"@
        } else {
            "false"@
        }
    }

    open spec fn text_fits(self) -> bool {
        true
    }

    fn to_value(self) -> (text: String) {
        if self {
            "true".to_string()
        } else {
            "false".to_string()
        }
    }
}

impl ToDatabaseValue for Timestamp {
    open spec fn database_text(self) -> Seq<char> {
        timestamp_text(self.seconds, self.nanos)
    }

    open spec fn text_fits(self) -> bool {
        true
    }

    fn to_value(self) -> (text: String)
        ensures
            in_written_years(self.seconds, self.nanos) ==> seconds_in(text@) == self.seconds
                && nanos_in(text@) == self.nanos,
    {
        timestamp_to_string(self.seconds, self.nanos)
    }
}

impl ToDatabaseValue for &Timestamp {
    open spec fn database_text(self) -> Seq<char> {
        timestamp_text(self.seconds, self.nanos)
    }

    open spec fn text_fits(self) -> bool {
        true
    }

    fn to_value(self) -> (text: String) {
        timestamp_to_string(self.seconds, self.nanos)
    }
}

impl ToDatabaseValue for &str {
    open spec fn database_text(self) -> Seq<char> {
        self@
    }

    open spec fn text_fits(self) -> bool {
        true
    }

    fn to_value(self) -> (text: String) {
        self.to_string()
    }
}

impl ToDatabaseValue for BigDecimal {
    open spec fn database_text(self) -> Seq<char> {
        plain_decimal(self.digits@, self.exp as int)
    }

    open spec fn text_fits(self) -> bool {
        &&& within_memory((16 * self.digits.signed_bytes_be@.len()) as int)
        &&& within_memory(2 * self.exp)
        &&& within_memory(-2 * self.exp)
    }

    fn to_value(self) -> (text: String) {
        big_decimal_to_string(self.digits.signed_bytes_be.as_slice(), self.exp)
    }
}

impl ToDatabaseValue for &BigDecimal {
    open spec fn database_text(self) -> Seq<char> {
        plain_decimal(self.digits@, self.exp as int)
    }

    open spec fn text_fits(self) -> bool {
        &&& within_memory((16 * self.digits.signed_bytes_be@.len()) as int)
        &&& within_memory(2 * self.exp)
        &&& within_memory(-2 * self.exp)
    }

    fn to_value(self) -> (text: String) {
        big_decimal_to_string(self.digits.signed_bytes_be.as_slice(), self.exp)
    }
}

impl ToDatabaseValue for BigInt {
    open spec fn database_text(self) -> Seq<char> {
        signed_decimal(self@)
    }

    open spec fn text_fits(self) -> bool {
        within_memory((16 * self.signed_bytes_be@.len()) as int)
    }

    fn to_value(self) -> (text: String) {
        big_int_to_string(self.signed_bytes_be.as_slice())
    }
}

impl ToDatabaseValue for &BigInt {
    open spec fn database_text(self) -> Seq<char> {
        signed_decimal(self@)
    }

    open spec fn text_fits(self) -> bool {
        within_memory((16 * self.signed_bytes_be@.len()) as int)
    }

    fn to_value(self) -> (text: String) {
        big_int_to_string(self.signed_bytes_be.as_slice())
    }
}

impl ToDatabaseValue for Vec<u8> {
    open spec fn database_text(self) -> Seq<char> {
        lower_hex(self@)
    }

    open spec fn text_fits(self) -> bool {
        within_memory((2 * self@.len()) as int)
    }

    fn to_value(self) -> (text: String) {
        (&self).to_value()
    }
}

impl ToDatabaseValue for &String {
    open spec fn database_text(self) -> Seq<char> {
        self@
    }

    open spec fn text_fits(self) -> bool {
        true
    }

    fn to_value(self) -> (text: String) {
        self.clone()
    }
}

impl ToDatabaseValue for String {
    open spec fn database_text(self) -> Seq<char> {
        self@
    }

    open spec fn text_fits(self) -> bool {
        true
    }

    fn to_value(self) -> (text: String) {
        self
    }
}

impl ToDatabaseValue for &Vec<u8> {
    open spec fn database_text(self) -> Seq<char> {
        lower_hex(self@)
    }

    open spec fn text_fits(self) -> bool {
        within_memory((2 * self@.len()) as int)
    }

    fn to_value(self) -> (text: String) {
        hex_encode(self.as_slice())
    }
}

impl<T: Bytes> ToDatabaseValue for Hex<T> {
    open spec fn database_text(self) -> Seq<char> {
        lower_hex(self.0.bytes())
    }

    open spec fn text_fits(self) -> bool {
        within_memory((4 * self.0.bytes().len()) as int)
    }

    fn to_value(self) -> (text: String) {
        hex_to_string(self.0.as_byte_slice())
    }
}

impl<T: Bytes> ToDatabaseValue for &Hex<T> {
    open spec fn database_text(self) -> Seq<char> {
        lower_hex(self.0.bytes())
    }

    open spec fn text_fits(self) -> bool {
        within_memory((4 * self.0.bytes().len()) as int)
    }

    fn to_value(self) -> (text: String) {
        hex_to_string(self.0.as_byte_slice())
    }
}

} // verus!
