//! MD5, SHA-256 and SHA-512 digests of text, in lower-case hexadecimal.
use crate::text::string_of;
use sha2::Digest as _;
use vstd::prelude::*;
use vstd::utf8::encode_utf8;

verus! {

/// The MD5 digest of bytes.
pub uninterp spec fn md5_of(bytes: Seq<u8>) -> Seq<u8>;

/// The SHA-256 digest of bytes.
pub uninterp spec fn sha256_of(bytes: Seq<u8>) -> Seq<u8>;

/// The SHA-512 digest of bytes.
pub uninterp spec fn sha512_of(bytes: Seq<u8>) -> Seq<u8>;

/// Calls `md5::compute`; the digest is named and has 16 bytes.
#[verifier::external_body]
fn md5_digest(bytes: &[u8]) -> (res: Vec<u8>)
    ensures
        res@ == md5_of(bytes@),
        res@.len() == 16,
{
    md5::compute(bytes).0.to_vec()
}

/// Calls `sha2::Sha256::digest`; the digest is named and has 32 bytes.
#[verifier::external_body]
fn sha256_digest(bytes: &[u8]) -> (res: Vec<u8>)
    ensures
        res@ == sha256_of(bytes@),
        res@.len() == 32,
{
    sha2::Sha256::digest(bytes).to_vec()
}

/// Calls `sha2::Sha512::digest`; the digest is named and has 64 bytes.
#[verifier::external_body]
fn sha512_digest(bytes: &[u8]) -> (res: Vec<u8>)
    ensures
        res@ == sha512_of(bytes@),
        res@.len() == 64,
{
    sha2::Sha512::digest(bytes).to_vec()
}

/// The lower-case hex digit of a value below 16.
pub open spec fn lower_hex_digit(d: u8) -> char {
    if d < 10 {
        (48 + d) as char
    } else {
        (87 + d) as char
    }
}

/// Two lower-case hex digits per byte (`{:x}` of a digest).
pub open spec fn lower_hex(bytes: Seq<u8>) -> Seq<char>
    decreases bytes.len(),
{
    if bytes.len() == 0 {
        Seq::empty()
    } else {
        lower_hex(bytes.drop_last()) + seq![
            lower_hex_digit(bytes.last() / 16),
            lower_hex_digit(bytes.last() % 16),
        ]
    }
}

fn hex_digit(d: u8) -> (c: char)
    requires
        d < 16,
    ensures
        c == lower_hex_digit(d),
{
    if d < 10 {
        (48 + d) as char
    } else {
        (87 + d) as char
    }
}

/// The lower-case hex text of bytes.
pub fn to_lower_hex(bytes: &[u8]) -> (res: String)
    ensures
        res@ == lower_hex(bytes@),
        res@.len() == 2 * bytes@.len(),
{
    let mut out: Vec<char> = Vec::new();
    let mut i: usize = 0;
    while i < bytes.len()
        invariant
            i <= bytes.len(),
            out@ == lower_hex(bytes@.take(i as int)),
            out@.len() == 2 * i,
        decreases bytes.len() - i,
    {
        assert(bytes@.take(i + 1).drop_last() == bytes@.take(i as int));
        out.push(hex_digit(bytes[i] / 16));
        out.push(hex_digit(bytes[i] % 16));
        i = i + 1;
        assert(out@ =~= lower_hex(bytes@.take(i as int)));
    }
    assert(bytes@.take(bytes.len() as int) == bytes@);
    string_of(out.as_slice())
}

/// The MD5, SHA-256 and SHA-512 digests of the UTF-8 bytes of `text` in
/// lower-case hexadecimal; three empty texts for an empty input.
pub fn hash_text(text: &str) -> (res: (String, String, String))
    ensures
        text@.len() == 0 ==> res.0@.len() == 0 && res.1@.len() == 0 && res.2@.len() == 0,
        text@.len() > 0 ==> res.0@ == lower_hex(md5_of(encode_utf8(text@)))
            && res.1@ == lower_hex(sha256_of(encode_utf8(text@)))
            && res.2@ == lower_hex(sha512_of(encode_utf8(text@))),
        text@.len() > 0 ==> res.0@.len() == 32 && res.1@.len() == 64 && res.2@.len() == 128,
{
    if text.is_empty() {
        let e: Vec<char> = Vec::new();
        return (string_of(e.as_slice()), string_of(e.as_slice()), string_of(e.as_slice()));
    }
    let bytes = text.as_bytes();
    let m = md5_digest(bytes);
    let s256 = sha256_digest(bytes);
    let s512 = sha512_digest(bytes);
    (to_lower_hex(m.as_slice()), to_lower_hex(s256.as_slice()), to_lower_hex(s512.as_slice()))
}

/// The lower-case hex digit of each value below 16, as `{:x}` writes it.
proof fn lemma_hex_digit_char(d: u8)
    requires
        d < 16,
    ensures
        lower_hex_digit(d) == "0123456789abcdef"@[d as int],
{
    reveal_strlit("0123456789abcdef");
}

/// `{:x}` of a digest, position by position: for every byte `i`, characters
/// `2i` and `2i + 1` are the lower-case hex digits of its high and low
/// halves, and there are no other characters.
pub proof fn lower_hex_positions(bytes: Seq<u8>)
    ensures
        lower_hex(bytes).len() == 2 * bytes.len(),
        forall|i: int| 0 <= i < bytes.len() ==> {
            &&& #[trigger] lower_hex(bytes)[2 * i] == "0123456789abcdef"@[(bytes[i] / 16) as int]
            &&& lower_hex(bytes)[2 * i + 1] == "0123456789abcdef"@[(bytes[i] % 16) as int]
        },
    decreases bytes.len(),
{
    if bytes.len() > 0 {
        let init = bytes.drop_last();
        lower_hex_positions(init);
        let last = bytes.last();
        lemma_hex_digit_char(last / 16);
        lemma_hex_digit_char(last % 16);
        assert forall|i: int| 0 <= i < bytes.len() implies {
            &&& #[trigger] lower_hex(bytes)[2 * i] == "0123456789abcdef"@[(bytes[i] / 16) as int]
            &&& lower_hex(bytes)[2 * i + 1] == "0123456789abcdef"@[(bytes[i] % 16) as int]
        } by {
            if i < init.len() {
                assert(bytes[i] == init[i]);
                assert(lower_hex(bytes)[2 * i] == lower_hex(init)[2 * i]);
                assert(lower_hex(bytes)[2 * i + 1] == lower_hex(init)[2 * i + 1]);
            } else {
                assert(bytes[i] == last);
            }
        }
    }
}

} // verus!
