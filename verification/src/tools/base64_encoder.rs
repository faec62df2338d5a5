//! Base64 (RFC 4648) encoding and decoding of text.
//!
//! The encodings are stated as spec functions; the `base64` crate does the
//! work, and its decoders accept exactly the canonical encodings.
use crate::text::{chars_of, keep, none_of, remove_chars, string_of};
use base64::Engine as _;
use vstd::prelude::*;
use vstd::utf8::{decode_utf8, encode_utf8, valid_utf8};

verus! {

/// The character for a 6-bit value in the standard or URL-safe alphabet.
pub open spec fn b64_char(v: u8, url: bool) -> char {
    if v < 26 {
        (65 + v) as char
    } else if v < 52 {
        (97 + v - 26) as char
    } else if v < 62 {
        (48 + v - 52) as char
    } else if v == 62 {
        if url { '-' } else { '+' }
    } else {
        if url { '_' } else { '/' }
    }
}

/// The 6-bit value of an alphabet character.
pub open spec fn b64_value(c: char, url: bool) -> u8 {
    let u = c as u32;
    if 65 <= u && u <= 90 {
        (u - 65) as u8
    } else if 97 <= u && u <= 122 {
        (u - 97 + 26) as u8
    } else if 48 <= u && u <= 57 {
        (u - 48 + 52) as u8
    } else if c == (if url { '-' } else { '+' }) {
        62
    } else {
        63
    }
}

pub open spec fn sextet0(b0: u8) -> u8 {
    b0 >> 2
}

pub open spec fn sextet1(b0: u8, b1: u8) -> u8 {
    ((b0 & 3) << 4) | (b1 >> 4)
}

pub open spec fn sextet2(b1: u8, b2: u8) -> u8 {
    ((b1 & 15) << 2) | (b2 >> 6)
}

pub open spec fn sextet3(b2: u8) -> u8 {
    b2 & 63
}

/// Base64 encoding of `bytes` in the standard (`url == false`) or URL-safe
/// alphabet, with or without `=` padding.
pub open spec fn b64_encode(bytes: Seq<u8>, url: bool, pad: bool) -> Seq<char>
    decreases bytes.len(),
{
    if bytes.len() == 0 {
        Seq::empty()
    } else if bytes.len() == 1 {
        seq![b64_char(sextet0(bytes[0]), url), b64_char(sextet1(bytes[0], 0), url)]
            + if pad { seq!['=', '='] } else { Seq::empty() }
    } else if bytes.len() == 2 {
        seq![
            b64_char(sextet0(bytes[0]), url),
            b64_char(sextet1(bytes[0], bytes[1]), url),
            b64_char(sextet2(bytes[1], 0), url),
        ] + if pad { seq!['='] } else { Seq::empty() }
    } else {
        seq![
            b64_char(sextet0(bytes[0]), url),
            b64_char(sextet1(bytes[0], bytes[1]), url),
            b64_char(sextet2(bytes[1], bytes[2]), url),
            b64_char(sextet3(bytes[2]), url),
        ] + b64_encode(bytes.skip(3), url, pad)
    }
}

/// Reads the bytes back from the characters of an encoding (the inverse of
/// `b64_encode` on its results).
pub open spec fn b64_decode(s: Seq<char>, url: bool) -> Seq<u8>
    decreases s.len(),
{
    if s.len() >= 4 && s[3] != '=' {
        let v0 = b64_value(s[0], url);
        let v1 = b64_value(s[1], url);
        let v2 = b64_value(s[2], url);
        let v3 = b64_value(s[3], url);
        seq![((v0 << 2) | (v1 >> 4)) as u8, ((v1 << 4) | (v2 >> 2)) as u8, ((v2 << 6) | v3) as u8]
            + b64_decode(s.skip(4), url)
    } else if s.len() >= 3 && s[2] != '=' {
        let v0 = b64_value(s[0], url);
        let v1 = b64_value(s[1], url);
        let v2 = b64_value(s[2], url);
        seq![((v0 << 2) | (v1 >> 4)) as u8, ((v1 << 4) | (v2 >> 2)) as u8]
    } else if s.len() >= 2 {
        let v0 = b64_value(s[0], url);
        let v1 = b64_value(s[1], url);
        seq![((v0 << 2) | (v1 >> 4)) as u8]
    } else {
        Seq::empty()
    }
}

proof fn lemma_b64_char_value(v: u8, url: bool)
    requires
        v < 64,
    ensures
        b64_value(b64_char(v, url), url) == v,
        b64_char(v, url) != '=',
{
}

proof fn lemma_sextets(b0: u8, b1: u8, b2: u8)
    ensures
        sextet0(b0) < 64 && sextet1(b0, b1) < 64 && sextet2(b1, b2) < 64 && sextet3(b2) < 64,
        ((sextet0(b0) << 2) | (sextet1(b0, b1) >> 4)) as u8 == b0,
        ((sextet1(b0, b1) << 4) | (sextet2(b1, b2) >> 2)) as u8 == b1,
        ((sextet2(b1, b2) << 6) | sextet3(b2)) as u8 == b2,
{
    assert((b0 >> 2) < 64 && ((((b0 & 3) << 4) | (b1 >> 4)) as u8) < 64
        && ((((b1 & 15) << 2) | (b2 >> 6)) as u8) < 64 && (b2 & 63) < 64) by (bit_vector);
    assert((((b0 >> 2) << 2) | ((((b0 & 3) << 4) | (b1 >> 4)) >> 4)) as u8 == b0) by (bit_vector);
    assert((((((b0 & 3) << 4) | (b1 >> 4)) << 4) | ((((b1 & 15) << 2) | (b2 >> 6)) >> 2)) as u8 == b1) by (bit_vector);
    assert((((((b1 & 15) << 2) | (b2 >> 6)) << 6) | (b2 & 63)) as u8 == b2) by (bit_vector);
}

/// Decoding the characters of an encoding gives back the bytes.
pub proof fn lemma_b64_decode_encode(bytes: Seq<u8>, url: bool, pad: bool)
    ensures
        b64_decode(b64_encode(bytes, url, pad), url) == bytes,
    decreases bytes.len(),
{
    let s = b64_encode(bytes, url, pad);
    if bytes.len() == 0 {
    } else if bytes.len() == 1 {
        lemma_sextets(bytes[0], 0, 0);
        lemma_b64_char_value(sextet0(bytes[0]), url);
        lemma_b64_char_value(sextet1(bytes[0], 0), url);
        assert(b64_decode(s, url) =~= bytes);
    } else if bytes.len() == 2 {
        lemma_sextets(bytes[0], bytes[1], 0);
        lemma_b64_char_value(sextet0(bytes[0]), url);
        lemma_b64_char_value(sextet1(bytes[0], bytes[1]), url);
        lemma_b64_char_value(sextet2(bytes[1], 0), url);
        assert(b64_decode(s, url) =~= bytes);
    } else {
        lemma_sextets(bytes[0], bytes[1], bytes[2]);
        lemma_b64_char_value(sextet0(bytes[0]), url);
        lemma_b64_char_value(sextet1(bytes[0], bytes[1]), url);
        lemma_b64_char_value(sextet2(bytes[1], bytes[2]), url);
        lemma_b64_char_value(sextet3(bytes[2]), url);
        lemma_b64_decode_encode(bytes.skip(3), url, pad);
        assert(s.skip(4) =~= b64_encode(bytes.skip(3), url, pad));
        assert(b64_decode(s, url) =~= bytes);
    }
}

/// Different bytes have different encodings.
pub proof fn lemma_b64_injective(a: Seq<u8>, b: Seq<u8>, url: bool, pad: bool)
    requires
        b64_encode(a, url, pad) == b64_encode(b, url, pad),
    ensures
        a == b,
{
    lemma_b64_decode_encode(a, url, pad);
    lemma_b64_decode_encode(b, url, pad);
}


/// No character of an encoding is a line break or a space.
pub proof fn lemma_b64_no_blank(bytes: Seq<u8>, url: bool, pad: bool)
    ensures
        forall|i: int| 0 <= i < b64_encode(bytes, url, pad).len() ==>
            #[trigger] none_of(blank_chars())(b64_encode(bytes, url, pad)[i]),
    decreases bytes.len(),
{
    let s = b64_encode(bytes, url, pad);
    if bytes.len() >= 3 {
        lemma_b64_no_blank(bytes.skip(3), url, pad);
        lemma_sextets(bytes[0], bytes[1], bytes[2]);
        assert forall|i: int| 0 <= i < s.len() implies #[trigger] none_of(blank_chars())(s[i]) by {
            if i >= 4 {
                assert(s[i] == b64_encode(bytes.skip(3), url, pad)[i - 4]);
            }
        }
    } else if bytes.len() > 0 {
        lemma_sextets(bytes[0], if bytes.len() > 1 { bytes[1] } else { 0 }, 0);
    }
}

/// No character of an encoding is a full stop.
pub proof fn lemma_b64_no_dot(bytes: Seq<u8>, url: bool, pad: bool)
    ensures
        forall|i: int| 0 <= i < b64_encode(bytes, url, pad).len() ==> #[trigger] b64_encode(bytes, url, pad)[i] != '.',
    decreases bytes.len(),
{
    let s = b64_encode(bytes, url, pad);
    if bytes.len() >= 3 {
        lemma_b64_no_dot(bytes.skip(3), url, pad);
        lemma_sextets(bytes[0], bytes[1], bytes[2]);
        assert forall|i: int| 0 <= i < s.len() implies #[trigger] s[i] != '.' by {
            if i >= 4 {
                assert(s[i] == b64_encode(bytes.skip(3), url, pad)[i - 4]);
            }
        }
    } else if bytes.len() > 0 {
        lemma_sextets(bytes[0], if bytes.len() > 1 { bytes[1] } else { 0 }, 0);
    }
}

/// The characters that decoding removes before reading an encoding.
pub open spec fn blank_chars() -> Seq<char> {
    seq!['\n', '\r', ' ']
}

/// What `decode_base64` guarantees of its result for `text`: on success the
/// text whose UTF-8 bytes encode to `text` without line breaks and spaces;
/// otherwise the reason.
pub open spec fn decode_base64_post(text: Seq<char>, res: Result<Seq<char>, Seq<char>>) -> bool {
    let compact = keep(text, none_of(blank_chars()));
    match res {
        Ok(s) => b64_encode(encode_utf8(s), false, true) == compact,
        Err(e) => (e == "Invalid Base64 sequence"@ && forall|v: Seq<u8>| #[trigger] b64_encode(v, false, true) != compact)
            || (e == "Invalid UTF-8 sequence"@ && exists|v: Seq<u8>| #[trigger] b64_encode(v, false, true) == compact && !valid_utf8(v)),
    }
}

/// Calls `STANDARD.encode` of the `base64` crate (standard alphabet, padded).
#[verifier::external_body]
fn standard_encode(bytes: &[u8]) -> (res: String)
    requires
        bytes@.len() <= isize::MAX,
    ensures
        res@ == b64_encode(bytes@, false, true),
{
    base64::engine::general_purpose::STANDARD.encode(bytes)
}

/// Calls `STANDARD.decode` of the `base64` crate. Its configuration requires
/// canonical padding and rejects non-zero trailing bits, so it succeeds
/// exactly on the texts that are the padded standard encoding of some bytes,
/// and then returns those bytes. The error's details are dropped.
#[verifier::external_body]
fn standard_decode(text: &str) -> (res: Option<Vec<u8>>)
    ensures
        match res {
            Some(v) => b64_encode(v@, false, true) == text@,
            None => forall|v: Seq<u8>| #[trigger] b64_encode(v, false, true) != text@,
        },
{
    base64::engine::general_purpose::STANDARD.decode(text).ok()
}

/// Calls `String::from_utf8`, which succeeds exactly on valid UTF-8 and then
/// holds the text that those bytes encode.
#[verifier::external_body]
pub(crate) fn string_from_utf8(bytes: Vec<u8>) -> (res: Option<String>)
    ensures
        match res {
            Some(s) => encode_utf8(s@) == bytes@,
            None => !valid_utf8(bytes@),
        },
{
    String::from_utf8(bytes).ok()
}

/// The Base64 encoding (standard alphabet, padded) of the UTF-8 bytes of `text`.
pub fn encode_base64(text: &str) -> (res: String)
    requires
        encode_utf8(text@).len() <= isize::MAX,
    ensures
        res@ == b64_encode(encode_utf8(text@), false, true),
{
    standard_encode(text.as_bytes())
}

/// Decodes Base64 (standard alphabet, padded; line breaks and spaces are
/// ignored) into UTF-8 text.
pub fn decode_base64(text: &str) -> (res: Result<String, String>)
    ensures
        decode_base64_post(
            text@,
            match res {
                Ok(s) => Ok(s@),
                Err(e) => Err(e@),
            },
        ),
{
    let cs = chars_of(text);
    let blank = ['\n', '\r', ' '];
    assert(blank@ == blank_chars());
    let compact_chars = remove_chars(cs.as_slice(), &blank);
    let compact = string_of(compact_chars.as_slice());
    let bytes = match standard_decode(compact.as_str()) {
        Some(b) => b,
        None => return Err(string_of(chars_of("Invalid Base64 sequence").as_slice())),
    };
    let ghost bv = bytes@;
    match string_from_utf8(bytes) {
        Some(s) => Ok(s),
        None => {
            assert(b64_encode(bv, false, true) == compact@);
            Err(string_of(chars_of("Invalid UTF-8 sequence").as_slice()))
        },
    }
}

/// Decoding an encoding gives back the text: whatever `decode_base64`
/// returns for the result of `encode_base64` on `s` is `Ok(s)`.
pub proof fn base64_round_trip(s: Seq<char>, res: Result<Seq<char>, Seq<char>>)
    requires
        decode_base64_post(b64_encode(encode_utf8(s), false, true), res),
    ensures
        res == Ok::<Seq<char>, Seq<char>>(s),
{
    let e = b64_encode(encode_utf8(s), false, true);
    lemma_b64_no_blank(encode_utf8(s), false, true);
    crate::text::lemma_keep_all(e, none_of(blank_chars()));
    vstd::utf8::encode_utf8_valid_utf8(s);
    match res {
        Ok(t) => {
            lemma_b64_injective(encode_utf8(t), encode_utf8(s), false, true);
            vstd::utf8::encode_utf8_decode_utf8(t);
            vstd::utf8::encode_utf8_decode_utf8(s);
        },
        Err(_) => {
            assert(b64_encode(encode_utf8(s), false, true) == e);
            assert forall|v: Seq<u8>| b64_encode(v, false, true) == e implies valid_utf8(v) by {
                lemma_b64_injective(v, encode_utf8(s), false, true);
            }
        },
    }
}

} // verus!
