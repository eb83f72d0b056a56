use vstd::prelude::*;
use vstd::utf8::{decode_utf8, encode_utf8, encode_utf8_decode_utf8, valid_utf8};

verus! {

/// Why a byte sequence could not be read as text.
#[derive(Debug, Clone, Copy, PartialEq, Eq, Structural)]
pub enum DecodeError {
    /// The bytes are not well-formed UTF-8.
    InvalidEncoding,
}

/// The length of `text` in bytes once encoded as UTF-8.
pub open spec fn byte_len(text: Seq<char>) -> nat {
    encode_utf8(text).len()
}

/// Text is empty exactly when its encoding is.
pub proof fn lemma_byte_len_zero(text: Seq<char>)
    ensures
        (byte_len(text) == 0) <==> (text.len() == 0),
{
    reveal_with_fuel(encode_utf8, 1);
}

/// The byte length of a string, as `byte_len` of its characters.
pub fn text_byte_len(text: &str) -> (r: usize)
    ensures
        r as nat == byte_len(text@),
{
    let bytes: &[u8] = text.as_bytes();
    bytes.len()
}

/// Relies on std::str::from_utf8: it accepts exactly the well-formed UTF-8
/// sequences, and the text it returns is made of those very bytes.
#[verifier::external_body]
fn utf8_text<'a>(bytes: &'a [u8]) -> (r: Option<&'a str>)
    ensures
        r.is_some() <==> valid_utf8(bytes@),
        r matches Some(s) ==> encode_utf8(s@) == bytes@,
{
    match std::str::from_utf8(bytes) {
        Ok(s) => Some(s),
        Err(_) => None,
    }
}

/// Reads `bytes` as UTF-8 text, failing on malformed input instead of
/// assuming it is valid.
pub fn decode_text(bytes: &[u8]) -> (r: Result<String, DecodeError>)
    ensures
        r is Ok <==> valid_utf8(bytes@),
        r matches Ok(s) ==> s@ == decode_utf8(bytes@),
        r matches Err(e) ==> e == DecodeError::InvalidEncoding,
{
    match utf8_text(bytes) {
        Some(s) => {
            proof {
                encode_utf8_decode_utf8(s@);
            }
            Ok(s.to_owned())
        },
        None => Err(DecodeError::InvalidEncoding),
    }
}

} // verus!
