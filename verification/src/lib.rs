//! KIM: a reversible byte-packed encoding of Unicode text.
//!
//! Text is transcoded between its usual UTF-8 form and a sequence of
//! "KIM bytes": each Unicode scalar value becomes a fixed number of
//! big-endian 7-bit groups, one group per byte, with the top bit of every
//! byte but the last set as a continuation flag.  [`KimString`] owns one
//! such byte sequence; [`KimString::from_text`] encodes and
//! [`KimString::into_text`] decodes.

use vstd::prelude::*;

pub mod classes;
pub mod decode;
pub mod encode;

verus! {

/// Failure conditions of the codec.
///
/// `OutOfRange` is an encoder error: the integer handed to the encoder does
/// not fit any length class.  `Truncated` and `InvalidScalarValue` are
/// decoder errors: the byte stream ended inside an unterminated run, or a
/// run reconstructed an integer that is no Unicode scalar value.
#[derive(Clone, Copy, Debug, PartialEq, Eq, Structural)]
pub enum KimError {
    OutOfRange,
    Truncated,
    InvalidScalarValue,
}

/// An owned, immutable KIM byte sequence.
pub struct KimString {
    bytes: Vec<u8>,
}

impl View for KimString {
    type V = Seq<u8>;

    closed spec fn view(&self) -> Seq<u8> {
        self.bytes@
    }
}

impl KimString {
    /// Encodes text into a fresh container: every scalar value's KIM byte
    /// run, in input order.  Total — well-formed text always encodes.
    pub fn from_text(s: &str) -> (r: KimString)
        ensures
            r@ == encode::kim_text_bytes(s@),
    {
        KimString { bytes: encode::encode_text(s) }
    }

    /// Decodes the owned byte sequence back to text, consuming the
    /// container.  All-or-nothing: a malformed sequence yields the error
    /// the decoding model assigns it (`Truncated` for a stream ending
    /// inside a run, `InvalidScalarValue` for a run outside the
    /// scalar-value range) and no partial text.
    pub fn into_text(self) -> (r: Result<String, KimError>)
        ensures
            (match decode::kim_decode(self@) {
                Ok(t) => r matches Ok(out) && out@ == t,
                Err(e) => r matches Err(e2) && e2 == e,
            }),
    {
        decode::decode_bytes(&self.bytes)
    }

    /// Wraps an already-encoded (or externally received) byte sequence.
    ///
    /// No validity check is made here: whether the bytes form well-formed
    /// KIM is decided by [`KimString::into_text`], which rejects malformed
    /// sequences.
    pub fn from_bytes(bytes: Vec<u8>) -> (r: KimString)
        ensures
            r@ == bytes@,
    {
        KimString { bytes }
    }

    /// The length of `self` in KIM bytes — not in scalar values, and not
    /// in UTF-8 bytes.
    #[inline]
    pub fn len(&self) -> (n: usize)
        ensures
            n == self@.len(),
    {
        self.bytes.len()
    }

    /// A read-only view of the owned KIM byte sequence.
    #[inline]
    pub fn as_bytes(&self) -> (r: &[u8])
        ensures
            r@ == self@,
    {
        self.bytes.as_slice()
    }
}

} // verus!
