//! Decoding of JSON Web Tokens, and verification of their HMAC signatures.
use crate::text::{
    append_chars, ascii_upper, chars_eq, chars_eq_str, chars_of, keep, none_of, push_str,
    remove_chars, split_char, split_on, string_of, to_ascii_upper,
};
use crate::tools::base64_encoder::{
    b64_decode, b64_encode, blank_chars, lemma_b64_decode_encode, string_from_utf8,
};
use crate::tools::json_formatter::{json_pretty, json_pretty_of, Reprinted, ReprintedView};
use base64::Engine as _;
use hmac::Mac;
use vstd::prelude::*;
use vstd::utf8::{decode_utf8, encode_utf8, valid_utf8};

verus! {

/// Whether `s` is the encoding of some bytes.
pub open spec fn is_b64(s: Seq<char>, url: bool, pad: bool) -> bool {
    exists|v: Seq<u8>| #[trigger] b64_encode(v, url, pad) == s
}

/// Calls `URL_SAFE_NO_PAD.decode` of the `base64` crate, which succeeds
/// exactly on the unpadded URL-safe encodings of bytes (trailing bits must
/// be zero) and then returns those bytes.
#[verifier::external_body]
fn url_safe_no_pad_decode(text: &str) -> (res: Option<Vec<u8>>)
    ensures
        match res {
            Some(v) => b64_encode(v@, true, false) == text@,
            None => !is_b64(text@, true, false),
        },
{
    base64::engine::general_purpose::URL_SAFE_NO_PAD.decode(text).ok()
}

/// Calls `URL_SAFE.decode` of the `base64` crate, which succeeds exactly on
/// the padded URL-safe encodings of bytes (canonical padding, trailing bits
/// zero) and then returns those bytes.
#[verifier::external_body]
fn url_safe_decode(text: &str) -> (res: Option<Vec<u8>>)
    ensures
        match res {
            Some(v) => b64_encode(v@, true, true) == text@,
            None => !is_b64(text@, true, true),
        },
{
    base64::engine::general_purpose::URL_SAFE.decode(text).ok()
}

/// Calls `URL_SAFE_NO_PAD.encode` of the `base64` crate.
#[verifier::external_body]
fn url_safe_no_pad_encode(bytes: &[u8]) -> (res: String)
    requires
        bytes@.len() <= isize::MAX,
    ensures
        res@ == b64_encode(bytes@, true, false),
{
    base64::engine::general_purpose::URL_SAFE_NO_PAD.encode(bytes)
}

/// The number of `=` that pad `n` bytes to a multiple of four.
pub open spec fn pad_count(n: nat) -> nat {
    ((4 - (n % 4)) % 4) as nat
}

/// A segment padded with `=` until its UTF-8 length is a multiple of four.
pub open spec fn padded(part: Seq<char>) -> Seq<char> {
    part + Seq::new(pad_count(encode_utf8(part).len()), |i: int| '=')
}

/// The bytes that a token segment encodes: read unpadded, or else padded.
pub open spec fn segment_bytes(part: Seq<char>) -> Option<Seq<u8>> {
    if is_b64(part, true, false) {
        Some(b64_decode(part, true))
    } else if is_b64(padded(part), true, true) {
        Some(b64_decode(padded(part), true))
    } else {
        None
    }
}

/// What `decode_part` shows of a token segment: its decoded text,
/// re-indented when it is JSON, or why it could not be decoded.
pub open spec fn decode_part_spec(part: Seq<char>) -> Seq<char> {
    if part.len() == 0 {
        Seq::empty()
    } else {
        match segment_bytes(part) {
            None => "Invalid Base64Url sequence"@,
            Some(b) => if valid_utf8(b) {
                match json_pretty_of(decode_utf8(b)) {
                    ReprintedView::Text(p) => p,
                    _ => decode_utf8(b),
                }
            } else {
                "Invalid UTF-8"@
            },
        }
    }
}

fn pad_segment(part: &str) -> (res: String)
    ensures
        res@ == padded(part@),
{
    let n = part.as_bytes().len();
    let k = (4 - n % 4) % 4;
    let mut cs = chars_of(part);
    let mut i: usize = 0;
    while i < k
        invariant
            i <= k,
            k == pad_count(encode_utf8(part@).len()),
            cs@ == part@ + Seq::new(i as nat, |j: int| '='),
        decreases k - i,
    {
        cs.push('=');
        i = i + 1;
        assert(cs@ =~= part@ + Seq::new(i as nat, |j: int| '='));
    }
    string_of(cs.as_slice())
}

/// Decodes one Base64url segment of a token into text.
pub fn decode_part(part: &str) -> (res: String)
    ensures
        res@ == decode_part_spec(part@),
{
    if part.is_empty() {
        let e: Vec<char> = Vec::new();
        return string_of(e.as_slice());
    }
    let decoded = match url_safe_no_pad_decode(part) {
        Some(b) => {
            proof {
                lemma_b64_decode_encode(b@, true, false);
            }
            Some(b)
        },
        None => {
            let p = pad_segment(part);
            match url_safe_decode(p.as_str()) {
                Some(b) => {
                    proof {
                        lemma_b64_decode_encode(b@, true, true);
                    }
                    Some(b)
                },
                None => None,
            }
        },
    };
    match decoded {
        None => string_of(chars_of("Invalid Base64Url sequence").as_slice()),
        Some(b) => {
            let ghost bv = b@;
            assert(segment_bytes(part@) == Some(bv));
            match string_from_utf8(b) {
                Some(s) => {
                    proof {
                        vstd::utf8::encode_utf8_valid_utf8(s@);
                        vstd::utf8::encode_utf8_decode_utf8(s@);
                    }
                    match json_pretty(s.as_str()) {
                        Reprinted::Text(p) => p,
                        _ => s,
                    }
                },
                None => string_of(chars_of("Invalid UTF-8").as_slice()),
            }
        },
    }
}

/// A token without line breaks and spaces.
pub open spec fn compact_token(token: Seq<char>) -> Seq<char> {
    keep(token, none_of(blank_chars()))
}

/// What `decode_jwt` returns: the decoded header and payload and the raw
/// signature segment, each empty when the token has no such segment.
pub open spec fn decode_jwt_spec(token: Seq<char>) -> (Seq<char>, Seq<char>, Seq<char>) {
    let text = compact_token(token);
    if text.len() == 0 {
        (Seq::empty(), Seq::empty(), Seq::empty())
    } else {
        let parts = split_on(text, '.');
        (
            decode_part_spec(parts[0]),
            if parts.len() > 1 { decode_part_spec(parts[1]) } else { Seq::empty() },
            if parts.len() > 2 { parts[2] } else { Seq::empty() },
        )
    }
}

fn compact_chars(token: &str) -> (res: Vec<char>)
    ensures
        res@ == compact_token(token@),
{
    let cs = chars_of(token);
    let blank = ['\n', '\r', ' '];
    assert(blank@ == blank_chars());
    remove_chars(cs.as_slice(), &blank)
}

proof fn lemma_split_nonempty(s: Seq<char>, x: char)
    ensures
        split_on(s, x).len() >= 1,
{
}

/// Decodes a token without verifying it: returns the header, the payload
/// and the signature segment.
pub fn decode_jwt(token: &str) -> (res: (String, String, String))
    ensures
        (res.0@, res.1@, res.2@) == decode_jwt_spec(token@),
{
    let text = compact_chars(token);
    if text.len() == 0 {
        let e: Vec<char> = Vec::new();
        return (string_of(e.as_slice()), string_of(e.as_slice()), string_of(e.as_slice()));
    }
    let parts = split_char(text.as_slice(), '.');
    proof {
        lemma_split_nonempty(text@, '.');
    }
    assert(parts.deep_view()[0] =~= parts[0]@);
    let header = decode_part(string_of(parts[0].as_slice()).as_str());
    let payload = if parts.len() > 1 {
        assert(parts.deep_view()[1] =~= parts[1]@);
        decode_part(string_of(parts[1].as_slice()).as_str())
    } else {
        let e: Vec<char> = Vec::new();
        string_of(e.as_slice())
    };
    let signature = if parts.len() > 2 {
        assert(parts.deep_view()[2] =~= parts[2]@);
        string_of(parts[2].as_slice())
    } else {
        let e: Vec<char> = Vec::new();
        string_of(e.as_slice())
    };
    (header, payload, signature)
}


/// HMAC-SHA-256 of a message under a key.
pub uninterp spec fn hmac_sha256_of(key: Seq<u8>, msg: Seq<u8>) -> Seq<u8>;

/// HMAC-SHA-384 of a message under a key.
pub uninterp spec fn hmac_sha384_of(key: Seq<u8>, msg: Seq<u8>) -> Seq<u8>;

/// HMAC-SHA-512 of a message under a key.
pub uninterp spec fn hmac_sha512_of(key: Seq<u8>, msg: Seq<u8>) -> Seq<u8>;

/// Calls `Hmac::<Sha256>::new_from_slice`, `Mac::update` and `Mac::finalize`
/// of the `hmac` and `sha2` crates. HMAC accepts keys of any length, so
/// `new_from_slice` never fails; the tag is named and has 32 bytes.
#[verifier::external_body]
fn hmac_sha256(key: &[u8], msg: &[u8]) -> (res: Result<Vec<u8>, String>)
    ensures
        res is Ok,
        res matches Ok(t) ==> t@ == hmac_sha256_of(key@, msg@) && t@.len() == 32,
{
    match hmac::Hmac::<sha2::Sha256>::new_from_slice(key) {
        Ok(mut m) => {
            m.update(msg);
            Ok(m.finalize().into_bytes().to_vec())
        },
        Err(e) => Err(e.to_string()),
    }
}

/// As `hmac_sha256`, with SHA-384; the tag has 48 bytes.
#[verifier::external_body]
fn hmac_sha384(key: &[u8], msg: &[u8]) -> (res: Result<Vec<u8>, String>)
    ensures
        res is Ok,
        res matches Ok(t) ==> t@ == hmac_sha384_of(key@, msg@) && t@.len() == 48,
{
    match hmac::Hmac::<sha2::Sha384>::new_from_slice(key) {
        Ok(mut m) => {
            m.update(msg);
            Ok(m.finalize().into_bytes().to_vec())
        },
        Err(e) => Err(e.to_string()),
    }
}

/// As `hmac_sha256`, with SHA-512; the tag has 64 bytes.
#[verifier::external_body]
fn hmac_sha512(key: &[u8], msg: &[u8]) -> (res: Result<Vec<u8>, String>)
    ensures
        res is Ok,
        res matches Ok(t) ==> t@ == hmac_sha512_of(key@, msg@) && t@.len() == 64,
{
    match hmac::Hmac::<sha2::Sha512>::new_from_slice(key) {
        Ok(mut m) => {
            m.update(msg);
            Ok(m.finalize().into_bytes().to_vec())
        },
        Err(e) => Err(e.to_string()),
    }
}

/// The string member `key` of a JSON object text, when the text is a JSON
/// object that has such a member holding a string.
pub uninterp spec fn json_str_member_of(text: Seq<char>, key: Seq<char>) -> Option<Seq<char>>;

/// Calls `serde_json::from_str::<Value>`, `Value::get` and `Value::as_str`;
/// the result is named.
#[verifier::external_body]
fn json_str_member(text: &str, key: &str) -> (res: Option<String>)
    ensures
        match res {
            Some(s) => json_str_member_of(text@, key@) == Some(s@),
            None => json_str_member_of(text@, key@) is None,
        },
{
    match serde_json::from_str::<serde_json::Value>(text) {
        Ok(v) => match v.get(key) {
            Some(m) => m.as_str().map(|s| s.to_string()),
            None => None,
        },
        Err(_) => None,
    }
}

/// The algorithm that a decoded header names (upper-cased), if any.
pub open spec fn header_alg(header_json: Seq<char>) -> Option<Seq<char>> {
    match json_str_member_of(header_json, "alg"@) {
        Some(a) => Some(ascii_upper(a)),
        None => None,
    }
}

fn algorithm_from_header(header_json: &str) -> (res: Option<String>)
    ensures
        match res {
            Some(s) => header_alg(header_json@) == Some(s@),
            None => header_alg(header_json@) is None,
        },
{
    match json_str_member(header_json, "alg") {
        Some(a) => {
            let ac = chars_of(a.as_str());
            Some(string_of(to_ascii_upper(ac.as_slice()).as_slice()))
        },
        None => None,
    }
}

/// Unpadded URL-safe Base64 of bytes.
fn base64url_encode(bytes: &[u8]) -> (res: String)
    requires
        bytes@.len() <= isize::MAX,
    ensures
        res@ == b64_encode(bytes@, true, false),
{
    url_safe_no_pad_encode(bytes)
}

/// The signature that an HMAC algorithm gives for a signing input and a
/// secret, in unpadded URL-safe Base64.
/// The HMAC tag of `input` under `secret` for an algorithm name: SHA-256
/// for `HS256`, SHA-384 for `HS384`, SHA-512 otherwise.
pub open spec fn hmac_tag(alg: Seq<char>, secret: Seq<char>, input: Seq<char>) -> Seq<u8> {
    let k = encode_utf8(secret);
    let m = encode_utf8(input);
    if alg == "HS256"@ {
        hmac_sha256_of(k, m)
    } else if alg == "HS384"@ {
        hmac_sha384_of(k, m)
    } else {
        hmac_sha512_of(k, m)
    }
}

pub open spec fn hmac_signature(alg: Seq<char>, secret: Seq<char>, input: Seq<char>) -> Seq<char> {
    let k = encode_utf8(secret);
    let m = encode_utf8(input);
    if alg == "HS256"@ {
        b64_encode(hmac_sha256_of(k, m), true, false)
    } else if alg == "HS384"@ {
        b64_encode(hmac_sha384_of(k, m), true, false)
    } else {
        b64_encode(hmac_sha512_of(k, m), true, false)
    }
}

/// What `verify_signature` returns for a token and a secret.
pub open spec fn verify_spec(token: Seq<char>, secret: Seq<char>) -> Result<bool, Seq<char>> {
    let parts = split_on(compact_token(token), '.');
    if parts.len() != 3 {
        Err("JWT must have three parts"@)
    } else {
        let alg = match header_alg(decode_part_spec(parts[0])) {
            Some(a) => a,
            None => "HS256"@,
        };
        let input = parts[0] + "."@ + parts[1];
        if alg == "HS256"@ || alg == "HS384"@ || alg == "HS512"@ {
            Ok(parts[2] == hmac_signature(alg, secret, input))
        } else if alg == "NONE"@ {
            Ok(parts[2].len() == 0)
        } else {
            Err("Unsupported algorithm: "@ + alg)
        }
    }
}

/// Checks the HMAC signature of a token (HS256, HS384 or HS512 as the header
/// names, HS256 when it names none; `none` requires an empty signature).
pub fn verify_signature(token: &str, secret: &str) -> (res: Result<bool, String>)
    ensures
        match res {
            Ok(b) => verify_spec(token@, secret@) == Ok::<bool, Seq<char>>(b),
            Err(e) => verify_spec(token@, secret@) == Err::<bool, Seq<char>>(e@),
        },
{
    let text = compact_chars(token);
    let parts = split_char(text.as_slice(), '.');
    if parts.len() != 3 {
        return Err(string_of(chars_of("JWT must have three parts").as_slice()));
    }
    assert(parts.deep_view()[0] =~= parts[0]@);
    assert(parts.deep_view()[1] =~= parts[1]@);
    assert(parts.deep_view()[2] =~= parts[2]@);
    let header_decoded = decode_part(string_of(parts[0].as_slice()).as_str());
    let alg_s = match algorithm_from_header(header_decoded.as_str()) {
        Some(a) => a,
        None => string_of(chars_of("HS256").as_slice()),
    };
    let alg = chars_of(alg_s.as_str());
    let mut input = crate::text::slice_to_vec(parts[0].as_slice(), 0, parts[0].len());
    push_str(&mut input, ".");
    append_chars(&mut input, parts[1].as_slice());
    assert(input@ =~= parts[0]@ + "."@ + parts[1]@);
    let input_s = string_of(input.as_slice());
    let key = secret.as_bytes();
    let msg = input_s.as_str().as_bytes();
    let tag = if chars_eq_str(alg.as_slice(), "HS256") {
        hmac_sha256(key, msg)
    } else if chars_eq_str(alg.as_slice(), "HS384") {
        hmac_sha384(key, msg)
    } else if chars_eq_str(alg.as_slice(), "HS512") {
        hmac_sha512(key, msg)
    } else if chars_eq_str(alg.as_slice(), "NONE") {
        return Ok(parts[2].len() == 0);
    } else {
        let mut msg = chars_of("Unsupported algorithm: ");
        append_chars(&mut msg, alg.as_slice());
        return Err(string_of(msg.as_slice()));
    };
    let expected = match tag {
        Ok(t) => base64url_encode(t.as_slice()),
        Err(e) => {
            let mut m = chars_of("Invalid key: ");
            push_str(&mut m, e.as_str());
            return Err(string_of(m.as_slice()));
        },
    };
    let ec = chars_of(expected.as_str());
    Ok(chars_eq(parts[2].as_slice(), ec.as_slice()))
}


/// The line the interface shows under the secret: nothing while the secret
/// is empty, otherwise whether the signature verifies or why it could not
/// be checked.
pub open spec fn signature_status_spec(token: Seq<char>, secret: Seq<char>) -> Seq<char> {
    if secret.len() == 0 {
        Seq::empty()
    } else {
        match verify_spec(token, secret) {
            Ok(true) => "Signature valid"@,
            Ok(false) => "Signature invalid"@,
            Err(e) => "Verify error: "@ + e,
        }
    }
}

/// Computes the signature line of the interface for a token and a secret.
pub fn signature_status(token: &str, secret: &str) -> (res: String)
    ensures
        res@ == signature_status_spec(token@, secret@),
{
    let sc = chars_of(secret);
    if sc.len() == 0 {
        return string_of(sc.as_slice());
    }
    proof {
        reveal_strlit("Signature valid");
        reveal_strlit("Signature invalid");
    }
    match verify_signature(token, secret) {
        Ok(true) => string_of(chars_of("Signature valid").as_slice()),
        Ok(false) => string_of(chars_of("Signature invalid").as_slice()),
        Err(e) => {
            let mut m = chars_of("Verify error: ");
            push_str(&mut m, e.as_str());
            string_of(m.as_slice())
        },
    }
}

/// A token made of a header and payload segment and the HMAC signature of
/// `header.payload` under the secret verifies: when neither segment holds a
/// full stop, line break or space, and the decoded header names the
/// algorithm (or names none, for HS256), `verify_signature` returns
/// `Ok(true)`; with any other secret whose HMAC tag differs it returns
/// `Ok(false)`.
pub proof fn signed_token_verifies(header: Seq<char>, payload: Seq<char>, secret: Seq<char>, alg: Seq<char>, other: Seq<char>)
    requires
        alg == "HS256"@ || alg == "HS384"@ || alg == "HS512"@,
        header_alg(decode_part_spec(header)) == Some(alg) || (header_alg(decode_part_spec(header)) is None
            && alg == "HS256"@),
        forall|i: int| 0 <= i < header.len() ==> #[trigger] header[i] != '.' && none_of(blank_chars())(header[i]),
        forall|i: int| 0 <= i < payload.len() ==> #[trigger] payload[i] != '.' && none_of(blank_chars())(payload[i]),
    ensures
        verify_spec(
            header + "."@ + payload + "."@ + hmac_signature(alg, secret, header + "."@ + payload),
            secret,
        ) == Ok::<bool, Seq<char>>(true),
        hmac_tag(alg, other, header + "."@ + payload) != hmac_tag(alg, secret, header + "."@ + payload)
            ==> verify_spec(
            header + "."@ + payload + "."@ + hmac_signature(alg, secret, header + "."@ + payload),
            other,
        ) == Ok::<bool, Seq<char>>(false),
{
    reveal_strlit(".");
    let sig = hmac_signature(alg, secret, header + "."@ + payload);
    let k = encode_utf8(secret);
    let m = encode_utf8(header + "."@ + payload);
    let bytes = if alg == "HS256"@ {
        hmac_sha256_of(k, m)
    } else if alg == "HS384"@ {
        hmac_sha384_of(k, m)
    } else {
        hmac_sha512_of(k, m)
    };
    assert(sig == b64_encode(bytes, true, false));
    crate::tools::base64_encoder::lemma_b64_no_dot(bytes, true, false);
    crate::tools::base64_encoder::lemma_b64_no_blank(bytes, true, false);
    let token = header + "."@ + payload + "."@ + sig;
    assert(token =~= header + seq!['.'] + payload + seq!['.'] + sig);
    assert forall|i: int| 0 <= i < token.len() implies #[trigger] none_of(blank_chars())(token[i]) by {
        if i < header.len() {
            assert(token[i] == header[i]);
        } else if i == header.len() {
        } else if i < header.len() + 1 + payload.len() {
            assert(token[i] == payload[i - header.len() - 1]);
        } else if i == header.len() + 1 + payload.len() {
        } else {
            assert(token[i] == sig[i - header.len() - 2 - payload.len()]);
        }
    }
    crate::text::lemma_keep_all(token, none_of(blank_chars()));
    assert forall|i: int| 0 <= i < header.len() implies #[trigger] header[i] != '.' by {}
    assert forall|i: int| 0 <= i < payload.len() implies #[trigger] payload[i] != '.' by {}
    crate::text::lemma_split_three(header, payload, sig, '.');
    reveal_strlit("HS256");
    reveal_strlit("HS384");
    reveal_strlit("HS512");
    reveal_strlit("NONE");
    let input = header + "."@ + payload;
    let t1 = hmac_tag(alg, secret, input);
    let t2 = hmac_tag(alg, other, input);
    assert(hmac_signature(alg, secret, input) == b64_encode(t1, true, false));
    assert(hmac_signature(alg, other, input) == b64_encode(t2, true, false));
    if t1 != t2 && hmac_signature(alg, other, input) == hmac_signature(alg, secret, input) {
        crate::tools::base64_encoder::lemma_b64_injective(t1, t2, true, false);
    }
}

} // verus!
