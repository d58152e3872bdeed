//! Turning the bytes of a file into text.
//!
//! Strict decoding succeeds exactly on well-formed UTF-8 and hands the
//! rejected bytes back otherwise. Lossy decoding always succeeds.

use vstd::prelude::*;
use vstd::utf8::{decode_utf8, encode_utf8, valid_utf8};
use vstd::utf8::{encode_utf8_decode_utf8, encode_utf8_valid_utf8};

verus! {

/// Bytes that were expected to be UTF-8 text and are not.
#[derive(Debug, PartialEq, Eq)]
pub struct InvalidUtf8 {
    /// The rejected bytes, unchanged.
    pub bytes: Vec<u8>,
}

/// Why a file could not be read as text.
#[derive(Debug, PartialEq, Eq)]
pub enum TextError<E> {
    /// The file could not be read at all; the reader's own error.
    Io(E),
    /// The file was read, but its bytes are not UTF-8.
    Decode(InvalidUtf8),
}

/// What strict decoding makes of a byte sequence: its text, or the bytes
/// themselves where they are not well-formed UTF-8.
pub open spec fn strict_text(bytes: Seq<u8>) -> Result<Seq<char>, Seq<u8>> {
    if valid_utf8(bytes) {
        Ok(decode_utf8(bytes))
    } else {
        Err(bytes)
    }
}

/// What a strict decoding attempt returned, with text and bytes as sequences.
pub open spec fn decoded_view(r: Result<String, InvalidUtf8>) -> Result<Seq<char>, Seq<u8>> {
    match r {
        Ok(s) => Ok(s@),
        Err(e) => Err(e.bytes@),
    }
}

/// The text that lossy decoding makes of a byte sequence: every malformed
/// stretch gives way to U+FFFD, everything else is decoded as it stands.
pub uninterp spec fn lossy_text(bytes: Seq<u8>) -> Seq<char>;

/// `String::from_utf8`, with the rejected bytes recovered through
/// `FromUtf8Error::into_bytes`. Trusted: the call succeeds exactly on
/// well-formed UTF-8, the string it builds is made of the very bytes given,
/// and on failure the bytes come back unchanged.
#[verifier::external_body]
fn string_from_utf8(bytes: Vec<u8>) -> (r: Result<String, Vec<u8>>)
    ensures
        r is Ok <==> valid_utf8(bytes@),
        r matches Ok(s) ==> encode_utf8(s@) == bytes@,
        r matches Err(b) ==> b@ == bytes@,
{
    match String::from_utf8(bytes) {
        Ok(s) => Ok(s),
        Err(e) => Err(e.into_bytes()),
    }
}

/// `String::from_utf8_lossy`, made owned. Trusted: the result is a function
/// of the bytes alone, and on well-formed UTF-8 it is the plain decoding.
#[verifier::external_body]
fn string_from_utf8_lossy(bytes: &[u8]) -> (r: String)
    ensures
        r@ == lossy_text(bytes@),
        valid_utf8(bytes@) ==> r@ == decode_utf8(bytes@),
{
    String::from_utf8_lossy(bytes).into_owned()
}

/// Decodes bytes as UTF-8 text, strictly.
pub fn decode(bytes: Vec<u8>) -> (r: Result<String, InvalidUtf8>)
    ensures
        decoded_view(r) == strict_text(bytes@),
{
    match string_from_utf8(bytes) {
        Ok(s) => {
            proof {
                encode_utf8_decode_utf8(s@);
            }
            Ok(s)
        },
        Err(rejected) => Err(InvalidUtf8 { bytes: rejected }),
    }
}

/// Decodes bytes as UTF-8 text, replacing what is malformed.
pub fn decode_lossy(bytes: &[u8]) -> (r: String)
    ensures
        r@ == lossy_text(bytes@),
        valid_utf8(bytes@) ==> r@ == decode_utf8(bytes@),
{
    string_from_utf8_lossy(bytes)
}

/// Text survives being encoded and strictly decoded again: the encoding of
/// any text is well-formed, and decodes to that text.
pub proof fn lemma_encoded_text_decodes(text: Seq<char>)
    ensures
        strict_text(encode_utf8(text)) == Ok::<Seq<char>, Seq<u8>>(text),
{
    encode_utf8_valid_utf8(text);
    encode_utf8_decode_utf8(text);
}

} // verus!
