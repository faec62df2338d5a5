//! Percent-encoding (URL encoding) of text and its decoding.
use crate::text::{chars_of, string_of};
use crate::tools::base64_encoder::string_from_utf8;
use vstd::prelude::*;
use vstd::utf8::{decode_utf8, encode_utf8, valid_utf8};

verus! {

/// The bytes that are never escaped: ASCII letters, digits and `-._~`.
pub open spec fn is_unreserved(b: u8) -> bool {
    (48 <= b && b <= 57) || (65 <= b && b <= 90) || (97 <= b && b <= 122) || b == 45 || b == 46
        || b == 95 || b == 126
}

/// The upper-case hex digit of a value below 16, as a byte.
pub open spec fn hex_digit_byte(d: u8) -> u8 {
    if d < 10 {
        (48 + d) as u8
    } else {
        (55 + d) as u8
    }
}

/// The value of an ASCII hex digit byte.
pub open spec fn hex_byte_value(b: u8) -> u8 {
    if 48 <= b && b <= 57 {
        (b - 48) as u8
    } else if 65 <= b && b <= 70 {
        (b - 55) as u8
    } else {
        (b - 87) as u8
    }
}

pub open spec fn is_hex_byte(b: u8) -> bool {
    (48 <= b && b <= 57) || (65 <= b && b <= 70) || (97 <= b && b <= 102)
}

/// Percent-encoding of bytes: unreserved bytes as they are, every other
/// byte as `%` and two upper-case hex digits.
pub open spec fn percent_encode(bytes: Seq<u8>) -> Seq<u8>
    decreases bytes.len(),
{
    if bytes.len() == 0 {
        Seq::empty()
    } else {
        let b = bytes[0];
        (if is_unreserved(b) {
            seq![b]
        } else {
            seq![37u8, hex_digit_byte(b / 16), hex_digit_byte(b % 16)]
        }) + percent_encode(bytes.drop_first())
    }
}

/// Percent-decoding of bytes as the `urlencoding` crate does it: `%` and two
/// hex digits become that byte, any other byte is kept.
pub open spec fn percent_decode(bytes: Seq<u8>) -> Seq<u8>
    decreases bytes.len(),
{
    if bytes.len() == 0 {
        Seq::empty()
    } else if bytes[0] == 37 && bytes.len() >= 3 && is_hex_byte(bytes[1]) && is_hex_byte(bytes[2]) {
        seq![(hex_byte_value(bytes[1]) * 16 + hex_byte_value(bytes[2])) as u8] + percent_decode(bytes.skip(3))
    } else {
        seq![bytes[0]] + percent_decode(bytes.drop_first())
    }
}

/// Whether every `%` is followed by two hex digits.
pub open spec fn escapes_ok(bytes: Seq<u8>) -> bool
    decreases bytes.len(),
{
    if bytes.len() == 0 {
        true
    } else if bytes[0] == 37 {
        bytes.len() >= 3 && is_hex_byte(bytes[1]) && is_hex_byte(bytes[2]) && escapes_ok(bytes.skip(3))
    } else {
        escapes_ok(bytes.drop_first())
    }
}

/// Calls `urlencoding::encode`, which percent-encodes every UTF-8 byte of the
/// text except ASCII letters, digits and `-._~`, with upper-case hex digits.
#[verifier::external_body]
fn url_encode(text: &str) -> (res: String)
    ensures
        encode_utf8(res@) == percent_encode(encode_utf8(text@)),
{
    urlencoding::encode(text).into_owned()
}

/// The message of the `FromUtf8Error` for bytes that are not UTF-8.
pub uninterp spec fn utf8_error_message_of(bytes: Seq<u8>) -> Seq<char>;

/// Calls `urlencoding::decode`, which percent-decodes the UTF-8 bytes of the
/// text and succeeds exactly when the decoded bytes are valid UTF-8; the
/// error's message is named.
#[verifier::external_body]
fn url_decode(text: &str) -> (res: Result<String, String>)
    ensures
        match res {
            Ok(s) => encode_utf8(s@) == percent_decode(encode_utf8(text@)),
            Err(e) => !valid_utf8(percent_decode(encode_utf8(text@))) && e@ == utf8_error_message_of(
                percent_decode(encode_utf8(text@)),
            ),
        },
{
    match urlencoding::decode(text) {
        Ok(v) => Ok(v.into_owned()),
        Err(e) => Err(e.to_string()),
    }
}

/// Percent-decodes text as the `urlencode --decode` command does: a `%` that
/// does not start an escape of two hex digits is kept, and the decoded bytes
/// must be UTF-8.
pub fn percent_decode_text(text: &str) -> (res: Result<String, String>)
    ensures
        match res {
            Ok(s) => encode_utf8(s@) == percent_decode(encode_utf8(text@)),
            Err(e) => !valid_utf8(percent_decode(encode_utf8(text@))) && e@ == utf8_error_message_of(
                percent_decode(encode_utf8(text@)),
            ),
        },
{
    url_decode(text)
}

/// Percent-encodes the UTF-8 bytes of `text`.
pub fn encode_url(text: &str) -> (res: String)
    ensures
        encode_utf8(res@) == percent_encode(encode_utf8(text@)),
{
    url_encode(text)
}

/// What `decode_url` guarantees: text whose UTF-8 bytes are the decoded
/// bytes, or the message, which comes exactly when a `%` is not followed by
/// two hex digits or the decoded bytes are not UTF-8.
pub open spec fn decode_url_post(text: Seq<char>, res: Result<Seq<char>, Seq<char>>) -> bool {
    let b = encode_utf8(text);
    match res {
        Ok(s) => escapes_ok(b) && encode_utf8(s) == percent_decode(b),
        Err(e) => e == "Invalid URL encoded string"@ && (!escapes_ok(b) || !valid_utf8(percent_decode(b))),
    }
}

fn is_hex_u8(b: u8) -> (res: bool)
    ensures
        res == is_hex_byte(b),
{
    (48 <= b && b <= 57) || (65 <= b && b <= 70) || (97 <= b && b <= 102)
}

/// Decodes percent-encoded text; every `%` must start an escape of two hex
/// digits and the decoded bytes must be UTF-8.
pub fn decode_url(text: &str) -> (res: Result<String, String>)
    ensures
        decode_url_post(
            text@,
            match res {
                Ok(s) => Ok(s@),
                Err(e) => Err(e@),
            },
        ),
{
    let bytes = text.as_bytes();
    let mut index: usize = 0;
    assert(bytes@.skip(0) =~= bytes@);
    while index < bytes.len()
        invariant
            index <= bytes.len(),
            bytes@ == encode_utf8(text@),
            escapes_ok(bytes@) == escapes_ok(bytes@.skip(index as int)),
        decreases bytes.len() - index,
    {
        let ghost rest = bytes@.skip(index as int);
        if bytes[index] == 37 {
            if bytes.len() - index < 3 || !is_hex_u8(bytes[index + 1]) || !is_hex_u8(bytes[index + 2]) {
                return Err(string_of(chars_of("Invalid URL encoded string").as_slice()));
            }
            assert(rest.skip(3) =~= bytes@.skip(index + 3));
            index = index + 3;
        } else {
            assert(rest.drop_first() =~= bytes@.skip(index + 1));
            index = index + 1;
        }
    }
    assert(bytes@.skip(bytes.len() as int) =~= Seq::<u8>::empty());
    match url_decode(text) {
        Ok(s) => Ok(s),
        Err(_) => Err(string_of(chars_of("Invalid URL encoded string").as_slice())),
    }
}

proof fn lemma_hex_digit_roundtrip(d: u8)
    requires
        d < 16,
    ensures
        is_hex_byte(hex_digit_byte(d)),
        hex_byte_value(hex_digit_byte(d)) == d,
{
}

/// Decoding an encoding gives back the bytes, and an encoding has only
/// well-formed escapes.
pub proof fn lemma_percent_decode_encode(bytes: Seq<u8>)
    ensures
        escapes_ok(percent_encode(bytes)),
        percent_decode(percent_encode(bytes)) == bytes,
    decreases bytes.len(),
{
    if bytes.len() > 0 {
        let b = bytes[0];
        let e = percent_encode(bytes);
        let rest = percent_encode(bytes.drop_first());
        lemma_percent_decode_encode(bytes.drop_first());
        if is_unreserved(b) {
            assert(e.drop_first() =~= rest);
            assert(percent_decode(e) =~= bytes);
        } else {
            lemma_hex_digit_roundtrip(b / 16);
            lemma_hex_digit_roundtrip(b % 16);
            assert(e.skip(3) =~= rest);
            assert(percent_decode(e) =~= bytes);
        }
    }
}

/// Decoding an encoding gives back the text: whatever `decode_url` returns
/// for the result of `encode_url` on `s` is `Ok(s)`.
pub proof fn url_round_trip(s: Seq<char>, encoded: Seq<char>, res: Result<Seq<char>, Seq<char>>)
    requires
        encode_utf8(encoded) == percent_encode(encode_utf8(s)),
        decode_url_post(encoded, res),
    ensures
        res == Ok::<Seq<char>, Seq<char>>(s),
{
    lemma_percent_decode_encode(encode_utf8(s));
    vstd::utf8::encode_utf8_valid_utf8(s);
    match res {
        Ok(t) => {
            vstd::utf8::encode_utf8_decode_utf8(t);
            vstd::utf8::encode_utf8_decode_utf8(s);
        },
        Err(_) => {},
    }
}

} // verus!
