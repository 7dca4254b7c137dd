//! Base64 and UTF-8 conversions.
//!
//! The base64 work is done by the `base64` crate's standard engine. Its
//! results are named by [`base64_text`] and [`base64_data`]; the functions
//! below say what they return in terms of those two names.

use crate::error::Error;
use vstd::prelude::*;
use vstd::string::*;
use vstd::utf8::*;

verus! {

/// The text that the `base64` crate's standard engine (RFC 4648 alphabet,
/// with `=` padding) writes for `data`.
pub uninterp spec fn base64_text(data: Seq<u8>) -> Seq<char>;

/// The bytes that the `base64` crate's standard engine reads from the text
/// whose UTF-8 bytes are `text`; `None` where it rejects the text.
pub uninterp spec fn base64_data(text: Seq<u8>) -> Option<Seq<u8>>;

/// A character that standard base64 text can hold: an ASCII letter or digit,
/// `+`, `/`, or the padding sign `=`.
pub open spec fn is_base64_symbol(c: char) -> bool {
    ||| 'A' <= c <= 'Z'
    ||| 'a' <= c <= 'z'
    ||| '0' <= c <= '9'
    ||| c == '+'
    ||| c == '/'
    ||| c == '='
}

/// The length of the base64 text of `n` bytes: four symbols for every
/// three bytes, the last group padded.
pub open spec fn base64_length(n: nat) -> nat {
    (4 * ((n + 2) / 3)) as nat
}

/// What is relied on of the base64 text of `data`: it is made of base64
/// symbols only, it has four symbols for every three bytes, and it decodes
/// to `data` again.
pub open spec fn base64_sound(data: Seq<u8>) -> bool {
    &&& forall|i: int|
        0 <= i < base64_text(data).len() ==> is_base64_symbol(#[trigger] base64_text(data)[i])
    &&& base64_text(data).len() == base64_length(data.len())
    &&& base64_data(encode_utf8(base64_text(data))) == Some(data)
}

/// What decoding base64 text and reading the bytes as UTF-8 gives.
pub open spec fn base64_decoded_text(text: Seq<u8>) -> Result<Seq<char>, Error> {
    match base64_data(text) {
        None => Err(Error::Base64DecodeFail),
        Some(data) => utf8_text(data),
    }
}

/// The text that `bytes` spell in UTF-8, or `InvalidUTF8` where they spell
/// none.
pub open spec fn utf8_text(bytes: Seq<u8>) -> Result<Seq<char>, Error> {
    if valid_utf8(bytes) {
        Ok(decode_utf8(bytes))
    } else {
        Err(Error::InvalidUTF8)
    }
}

/// `base64::DecodeError`, the outcome of text that is not base64. It is
/// carried through and not looked into.
#[verifier::external_type_specification]
#[verifier::external_body]
pub struct ExDecodeError(base64::DecodeError);

/// Calls `base64::Engine::encode` on the crate's `STANDARD` engine.
///
/// Trusted: the result is the text named by [`base64_text`]; it holds only
/// symbols of the standard alphabet and the padding sign; it is as long as
/// the crate's `encoded_len` computes with padding, four symbols for every
/// three bytes begun; and the same engine decodes it to `data` again. The
/// call cannot overflow its length computation, as a slice never holds
/// more than `isize::MAX` bytes.
#[verifier::external_body]
fn standard_encode(data: &[u8]) -> (text: String)
    ensures
        text@ == base64_text(data@),
        forall|i: int| 0 <= i < text@.len() ==> is_base64_symbol(#[trigger] text@[i]),
        text@.len() == base64_length(data@.len()),
        base64_data(encode_utf8(text@)) == Some(data@),
{
    base64::Engine::encode(&base64::engine::general_purpose::STANDARD, data)
}

/// Calls `base64::Engine::decode` on the crate's `STANDARD` engine.
///
/// Trusted: the outcome is the one named by [`base64_data`].
#[verifier::external_body]
fn standard_decode(text: &[u8]) -> (res: Result<Vec<u8>, base64::DecodeError>)
    ensures
        match res {
            Ok(data) => base64_data(text@) == Some(data@),
            Err(_) => base64_data(text@) is None,
        },
{
    base64::Engine::decode(&base64::engine::general_purpose::STANDARD, text)
}

/// Calls `String::from_utf8`.
///
/// Trusted: the call succeeds exactly on valid UTF-8, and the string it
/// gives has the bytes it was given.
#[verifier::external_body]
fn string_from_utf8(bytes: Vec<u8>) -> (res: Option<String>)
    ensures
        res is Some <==> valid_utf8(bytes@),
        res matches Some(s) ==> encode_utf8(s@) == bytes@,
{
    match String::from_utf8(bytes) {
        Ok(s) => Some(s),
        Err(_) => None,
    }
}

/// The base64 text of `data`.
pub fn base64_encode(data: &[u8]) -> (text: String)
    ensures
        text@ == base64_text(data@),
        base64_sound(data@),
{
    standard_encode(data)
}

/// Reads `bytes` as UTF-8 text.
pub fn text_from_utf8(bytes: Vec<u8>) -> (res: Result<String, Error>)
    ensures
        match res {
            Ok(s) => utf8_text(bytes@) == Ok::<Seq<char>, Error>(s@),
            Err(e) => utf8_text(bytes@) == Err::<Seq<char>, Error>(e),
        },
{
    match string_from_utf8(bytes) {
        Some(s) => {
            proof {
                encode_utf8_decode_utf8(s@);
            }
            Ok(s)
        },
        None => Err(Error::InvalidUTF8),
    }
}

/// Decodes base64 text given as bytes.
pub fn base64_decode_slice(text: &[u8]) -> (res: Result<Vec<u8>, Error>)
    ensures
        match res {
            Ok(data) => base64_data(text@) == Some(data@),
            Err(e) => e == Error::Base64DecodeFail && base64_data(text@) is None,
        },
{
    match standard_decode(text) {
        Ok(data) => Ok(data),
        Err(_) => Err(Error::Base64DecodeFail),
    }
}

/// Decodes base64 text to the bytes it stands for.
pub fn base64_decode_to_bytes(data: &str) -> (res: Result<Vec<u8>, Error>)
    ensures
        match res {
            Ok(bytes) => base64_data(encode_utf8(data@)) == Some(bytes@),
            Err(e) => e == Error::Base64DecodeFail && base64_data(encode_utf8(data@)) is None,
        },
{
    base64_decode_slice(data.as_bytes())
}

/// Decodes base64 text, given as bytes, to the UTF-8 text it stands for.
pub fn base64_decode_text(text: &[u8]) -> (res: Result<String, Error>)
    ensures
        match res {
            Ok(s) => base64_decoded_text(text@) == Ok::<Seq<char>, Error>(s@),
            Err(e) => base64_decoded_text(text@) == Err::<Seq<char>, Error>(e),
        },
{
    match base64_decode_slice(text) {
        Ok(bytes) => text_from_utf8(bytes),
        Err(e) => Err(e),
    }
}

/// Decodes base64 text to the UTF-8 text it stands for.
pub fn base64_decode(data: &str) -> (res: Result<String, Error>)
    ensures
        match res {
            Ok(s) => base64_decoded_text(encode_utf8(data@)) == Ok::<Seq<char>, Error>(s@),
            Err(e) => base64_decoded_text(encode_utf8(data@)) == Err::<Seq<char>, Error>(e),
        },
{
    base64_decode_text(data.as_bytes())
}

} // verus!
