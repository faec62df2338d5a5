//! What the headless commands print, as text: the reports that the command
//! line shows for hashes, tokens, statistics and URLs, and the names that
//! select a number base.
use crate::radix::{digits_of, format_radix};
use crate::text::{
    append_chars, ascii_lower, chars_eq_str, chars_of, join, join_chars, push_str, string_of,
    to_ascii_lower,
};
use crate::tools::hash_generator::{hash_text, lower_hex, md5_of, sha256_of, sha512_of};
use crate::tools::jwt_parser::{decode_jwt, decode_jwt_spec, verify_signature, verify_spec};
use crate::text::{keep, not_ws, words};
use crate::tools::text_stats::{analyze, line_count};
use crate::tools::url_parser::{parts_view, UrlParts};
use vstd::prelude::*;
use vstd::utf8::encode_utf8;

verus! {

/// The base that a name selects (ASCII case ignored).
pub open spec fn base_of_name(name: Seq<char>) -> Option<u32> {
    let n = ascii_lower(name);
    if n == "2"@ || n == "bin"@ || n == "binary"@ {
        Some(2)
    } else if n == "8"@ || n == "oct"@ || n == "octal"@ {
        Some(8)
    } else if n == "10"@ || n == "dec"@ || n == "decimal"@ {
        Some(10)
    } else if n == "16"@ || n == "hex"@ || n == "hexadecimal"@ {
        Some(16)
    } else {
        None
    }
}

/// The base that `2`, `bin`, `binary`, `8`, `oct`, `octal`, `10`, `dec`,
/// `decimal`, `16`, `hex` or `hexadecimal` selects.
pub fn number_base_of_name(name: &str) -> (res: Option<u32>)
    ensures
        res == base_of_name(name@),
{
    let n = to_ascii_lower(chars_of(name).as_slice());
    let s = n.as_slice();
    if chars_eq_str(s, "2") || chars_eq_str(s, "bin") || chars_eq_str(s, "binary") {
        Some(2)
    } else if chars_eq_str(s, "8") || chars_eq_str(s, "oct") || chars_eq_str(s, "octal") {
        Some(8)
    } else if chars_eq_str(s, "10") || chars_eq_str(s, "dec") || chars_eq_str(s, "decimal") {
        Some(10)
    } else if chars_eq_str(s, "16") || chars_eq_str(s, "hex") || chars_eq_str(s, "hexadecimal") {
        Some(16)
    } else {
        None
    }
}

/// The MD5 (`k == 0`), SHA-256 (`k == 1`) or SHA-512 digest of the UTF-8
/// bytes of a text in lower-case hex; empty for an empty text.
pub open spec fn digest_hex(text: Seq<char>, k: int) -> Seq<char> {
    if text.len() == 0 {
        Seq::empty()
    } else if k == 0 {
        lower_hex(md5_of(encode_utf8(text)))
    } else if k == 1 {
        lower_hex(sha256_of(encode_utf8(text)))
    } else {
        lower_hex(sha512_of(encode_utf8(text)))
    }
}

/// The three digest lines of the `hash` command.
pub fn hash_report(text: &str) -> (res: String)
    ensures
        res@ == "MD5: "@ + digest_hex(text@, 0) + "\nSHA256: "@ + digest_hex(text@, 1) + "\nSHA512: "@
            + digest_hex(text@, 2),
{
    let (m, a, b) = hash_text(text);
    assert(m@ == digest_hex(text@, 0) && a@ == digest_hex(text@, 1) && b@ == digest_hex(text@, 2));
    let mut out = chars_of("MD5: ");
    push_str(&mut out, m.as_str());
    push_str(&mut out, "\nSHA256: ");
    push_str(&mut out, a.as_str());
    push_str(&mut out, "\nSHA512: ");
    push_str(&mut out, b.as_str());
    assert(out@ =~= "MD5: "@ + m@ + "\nSHA256: "@ + a@ + "\nSHA512: "@ + b@);
    string_of(out.as_slice())
}

/// The five count lines of the `stats` command.
pub open spec fn stats_text(c: (usize, usize, usize, usize, usize)) -> Seq<char> {
    "Characters (total): "@ + digits_of(c.0 as nat, 10) + "\nCharacters (no spaces): "@
        + digits_of(c.1 as nat, 10) + "\nWords: "@ + digits_of(c.2 as nat, 10) + "\nLines: "@
        + digits_of(c.3 as nat, 10) + "\nBytes: "@ + digits_of(c.4 as nat, 10)
}

/// The report of the `stats` command for a text.
pub fn stats_report(text: &str) -> (res: String)
    ensures
        res@ == stats_text(
            (
                text@.len() as usize,
                keep(text@, not_ws()).len() as usize,
                words(text@).len() as usize,
                line_count(text@) as usize,
                encode_utf8(text@).len() as usize,
            ),
        ),
{
    let c = analyze(text);
    let mut out = chars_of("Characters (total): ");
    append_chars(&mut out, format_radix(c.0 as u128, 10).as_slice());
    push_str(&mut out, "\nCharacters (no spaces): ");
    append_chars(&mut out, format_radix(c.1 as u128, 10).as_slice());
    push_str(&mut out, "\nWords: ");
    append_chars(&mut out, format_radix(c.2 as u128, 10).as_slice());
    push_str(&mut out, "\nLines: ");
    append_chars(&mut out, format_radix(c.3 as u128, 10).as_slice());
    push_str(&mut out, "\nBytes: ");
    append_chars(&mut out, format_radix(c.4 as u128, 10).as_slice());
    assert(out@ =~= stats_text(c));
    string_of(out.as_slice())
}

/// The six lines of the `url-parser` command.
pub open spec fn url_text(p: (Seq<char>, Seq<char>, Seq<char>, Seq<char>, Seq<char>, Seq<char>)) -> Seq<char> {
    "Scheme:   "@ + p.0 + "\nHost:     "@ + p.1 + "\nPort:     "@ + p.2 + "\nPath:     "@ + p.3
        + "\nQuery:    "@ + p.4 + "\nFragment: "@ + p.5
}

/// The report of the `url-parser` command for the parts of a URL.
pub fn url_report(parts: &UrlParts) -> (res: String)
    ensures
        res@ == url_text(parts_view(*parts)),
{
    let mut out = chars_of("Scheme:   ");
    push_str(&mut out, parts.scheme.as_str());
    push_str(&mut out, "\nHost:     ");
    push_str(&mut out, parts.host.as_str());
    push_str(&mut out, "\nPort:     ");
    push_str(&mut out, parts.port.as_str());
    push_str(&mut out, "\nPath:     ");
    push_str(&mut out, parts.path.as_str());
    push_str(&mut out, "\nQuery:    ");
    push_str(&mut out, parts.query.as_str());
    push_str(&mut out, "\nFragment: ");
    push_str(&mut out, parts.fragment.as_str());
    assert(out@ =~= url_text(parts_view(*parts)));
    string_of(out.as_slice())
}

/// The line that reports a signature check.
pub open spec fn verification_line(r: Result<bool, Seq<char>>) -> Seq<char> {
    match r {
        Ok(true) => "Signature: valid"@,
        Ok(false) => "Signature: invalid"@,
        Err(e) => "Signature verification error: "@ + e,
    }
}

/// The lines of the `jwt` command: the header, payload and signature that
/// are present, then the result of checking the signature when a secret is
/// given.
pub open spec fn jwt_lines(token: Seq<char>, secret: Option<Seq<char>>) -> Seq<Seq<char>> {
    let (h, p, s) = decode_jwt_spec(token);
    let a: Seq<Seq<char>> = if h.len() > 0 { seq!["Header:\n"@ + h] } else { Seq::empty() };
    let b: Seq<Seq<char>> = if p.len() > 0 { seq!["Payload:\n"@ + p] } else { Seq::empty() };
    let c: Seq<Seq<char>> = if s.len() > 0 { seq!["Signature:\n"@ + s] } else { Seq::empty() };
    let d: Seq<Seq<char>> = match secret {
        Some(k) => seq![verification_line(verify_spec(token, k))],
        None => Seq::empty(),
    };
    a + b + c + d
}

fn push_line(lines: &mut Vec<Vec<char>>, line: Vec<char>)
    ensures
        final(lines).deep_view() == old(lines).deep_view().push(line@),
{
    let ghost before = lines.deep_view();
    let ghost lv = line@;
    assert(line.deep_view() =~= line@);
    lines.push(line);
    assert(lines.deep_view() =~= before.push(lv));
}

/// The report of the `jwt` command.
pub fn jwt_report(token: &str, secret: Option<&str>) -> (res: String)
    ensures
        res@ == join(
            jwt_lines(
                token@,
                match secret {
                    Some(k) => Some(k@),
                    None => None,
                },
            ),
            seq!['\n'],
        ),
{
    let (h, p, s) = decode_jwt(token);
    let mut lines: Vec<Vec<char>> = Vec::new();
    let hc = chars_of(h.as_str());
    if hc.len() > 0 {
        let mut l = chars_of("Header:\n");
        append_chars(&mut l, hc.as_slice());
        push_line(&mut lines, l);
    }
    let pc = chars_of(p.as_str());
    if pc.len() > 0 {
        let mut l = chars_of("Payload:\n");
        append_chars(&mut l, pc.as_slice());
        push_line(&mut lines, l);
    }
    let sc = chars_of(s.as_str());
    if sc.len() > 0 {
        let mut l = chars_of("Signature:\n");
        append_chars(&mut l, sc.as_slice());
        push_line(&mut lines, l);
    }
    match secret {
        Some(k) => {
            let l = match verify_signature(token, k) {
                Ok(true) => chars_of("Signature: valid"),
                Ok(false) => chars_of("Signature: invalid"),
                Err(e) => {
                    let mut l = chars_of("Signature verification error: ");
                    push_str(&mut l, e.as_str());
                    l
                },
            };
            push_line(&mut lines, l);
        },
        None => {},
    }
    assert(lines.deep_view() =~= jwt_lines(
        token@,
        match secret {
            Some(k) => Some(k@),
            None => None,
        },
    ));
    let nl = ['\n'];
    assert(nl@ == seq!['\n']);
    string_of(join_chars(&lines, &nl).as_slice())
}

} // verus!
