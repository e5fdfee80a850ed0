//! Values for which other crates define the text, held as plain data.
use vstd::prelude::*;
use vstd::utf8::encode_utf8;
use crate::text::signed_be;

verus! {

/// A point in time: seconds since the start of 1970 in UTC, and nanoseconds.
#[derive(Debug, Clone, Copy, PartialEq, Eq, Structural)]
pub struct Timestamp {
    pub seconds: i64,
    pub nanos: i32,
}

/// An integer of any size.
#[derive(Clone)]
pub struct BigInt {
    /// The integer in two's complement, the most significant byte first; no bytes stand for zero.
    pub signed_bytes_be: Vec<u8>,
}

impl View for BigInt {
    type V = int;

    open spec fn view(&self) -> int {
        signed_be(self.signed_bytes_be@)
    }
}

/// The decimal number `digits * 10^exp`.
#[derive(Clone)]
pub struct BigDecimal {
    pub digits: BigInt,
    pub exp: i64,
}

/// Bytes that are to be written in hexadecimal.
#[derive(Clone, Copy)]
pub struct Hex<T>(pub T);

/// A value that holds bytes.
pub trait Bytes {
    spec fn bytes(&self) -> Seq<u8>;

    fn as_byte_slice(&self) -> (bytes: &[u8])
        ensures
            bytes@ == self.bytes(),
    ;
}

impl<T: Bytes> Bytes for &T {
    open spec fn bytes(&self) -> Seq<u8> {
        (**self).bytes()
    }

    fn as_byte_slice(&self) -> (bytes: &[u8]) {
        (**self).as_byte_slice()
    }
}

impl Bytes for Vec<u8> {
    open spec fn bytes(&self) -> Seq<u8> {
        self@
    }

    fn as_byte_slice(&self) -> (bytes: &[u8]) {
        self.as_slice()
    }
}

impl Bytes for &[u8] {
    open spec fn bytes(&self) -> Seq<u8> {
        (*self)@
    }

    fn as_byte_slice(&self) -> (bytes: &[u8]) {
        *self
    }
}

impl<const N: usize> Bytes for [u8; N] {
    open spec fn bytes(&self) -> Seq<u8> {
        self@
    }

    fn as_byte_slice(&self) -> (bytes: &[u8]) {
        self.as_slice()
    }
}

impl Bytes for Box<[u8]> {
    open spec fn bytes(&self) -> Seq<u8> {
        (**self)@
    }

    fn as_byte_slice(&self) -> (bytes: &[u8]) {
        &**self
    }
}

impl Bytes for std::rc::Rc<[u8]> {
    open spec fn bytes(&self) -> Seq<u8> {
        (**self)@
    }

    fn as_byte_slice(&self) -> (bytes: &[u8]) {
        &**self
    }
}

impl Bytes for std::sync::Arc<[u8]> {
    open spec fn bytes(&self) -> Seq<u8> {
        (**self)@
    }

    fn as_byte_slice(&self) -> (bytes: &[u8]) {
        &**self
    }
}

impl Bytes for std::borrow::Cow<'_, [u8]> {
    open spec fn bytes(&self) -> Seq<u8> {
        self@
    }

    fn as_byte_slice(&self) -> (bytes: &[u8]) {
        match self {
            std::borrow::Cow::Borrowed(bytes) => *bytes,
            std::borrow::Cow::Owned(bytes) => bytes.as_slice(),
        }
    }
}

impl Bytes for &str {
    open spec fn bytes(&self) -> Seq<u8> {
        encode_utf8((*self)@)
    }

    fn as_byte_slice(&self) -> (bytes: &[u8]) {
        self.as_bytes()
    }
}

impl Bytes for String {
    open spec fn bytes(&self) -> Seq<u8> {
        encode_utf8(self@)
    }

    fn as_byte_slice(&self) -> (bytes: &[u8]) {
        self.as_str().as_bytes()
    }
}

} // verus!
