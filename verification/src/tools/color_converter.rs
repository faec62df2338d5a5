//! Reading colors written in HEX, RGB or HSL notation, and showing a color
//! in all three.
use crate::radix::{digit_char, digits_of, format_radix, parse_radix, parse_unsigned};
use crate::text::{
    append_chars, chars_of, eq_pred, is_ascii_hexdigit, is_hex_digit, keep, none_of, push_str,
    remove_chars, split_trimmed, starts_with, starts_with_str, strip_end, strip_end_char,
    strip_prefix, strip_prefix_str, strip_start, strip_start_char, string_of, trim, trim_chars,
    trimmed_fields,
};
use vstd::prelude::*;
use vstd::utf8::encode_utf8;

verus! {

/// The notation that an input is written in.
#[derive(Clone, Copy, Debug, PartialEq, Eq, Structural)]
pub enum ColorInput {
    Hex,
    Rgb,
    Hsl,
}

/// Which notation the (trimmed) input starts like.
pub open spec fn detect_spec(value: Seq<char>) -> Option<ColorInput> {
    let t = trim(value);
    if starts_with(t, "rgb("@) || starts_with(t, "rgba("@) {
        Some(ColorInput::Rgb)
    } else if starts_with(t, "hsl("@) {
        Some(ColorInput::Hsl)
    } else if starts_with(t, "#"@) || (forall|i: int| 0 <= i < t.len() ==> is_hex_digit(#[trigger] t[i])) {
        Some(ColorInput::Hex)
    } else {
        None
    }
}

/// A decimal field that fits in the given maximum.
pub open spec fn dec_field(p: Seq<char>, max: nat) -> Option<nat> {
    match parse_unsigned(p, 10, max) {
        Ok(v) => Some(v),
        Err(_) => None,
    }
}

/// A hexadecimal byte.
pub open spec fn hex_field(p: Seq<char>) -> Option<nat> {
    match parse_unsigned(p, 16, 255) {
        Ok(v) => Some(v),
        Err(_) => None,
    }
}

pub open spec fn first_some(a: Option<Seq<char>>, b: Option<Seq<char>>) -> Option<Seq<char>> {
    match a {
        Some(x) => Some(x),
        None => b,
    }
}

/// The text between `rgb(` (or `RGBA(`, `rgba(`, `RGB(`) and the closing parentheses.
pub open spec fn rgb_body(t: Seq<char>) -> Option<Seq<char>> {
    match first_some(
        first_some(strip_prefix(t, "rgb("@), strip_prefix(t, "RGBA("@)),
        first_some(strip_prefix(t, "rgba("@), strip_prefix(t, "RGB("@)),
    ) {
        Some(r) => Some(strip_end(r, eq_pred(')'))),
        None => None,
    }
}

/// What `parse_rgb` returns: three decimal bytes among the comma-separated
/// fields (further fields are ignored).
pub open spec fn parse_rgb_spec(text: Seq<char>) -> Option<(nat, nat, nat)> {
    match rgb_body(trim(text)) {
        None => None,
        Some(body) => {
            let parts = trimmed_fields(body);
            if parts.len() < 3 {
                None
            } else {
                match (dec_field(parts[0], 255), dec_field(parts[1], 255), dec_field(parts[2], 255)) {
                    (Some(r), Some(g), Some(b)) => Some((r, g, b)),
                    _ => None,
                }
            }
        }
    }
}

/// The text between `hsl(` (or `HSL(`) and the closing parentheses, without `%` signs.
pub open spec fn hsl_body(t: Seq<char>) -> Option<Seq<char>> {
    match first_some(strip_prefix(t, "hsl("@), strip_prefix(t, "HSL("@)) {
        Some(r) => Some(keep(strip_end(r, eq_pred(')')), none_of(seq!['%']))),
        None => None,
    }
}

/// What `parse_hsl` returns: exactly three fields, hue at most 360,
/// saturation and lightness at most 100.
pub open spec fn parse_hsl_spec(text: Seq<char>) -> Option<(nat, nat, nat)> {
    match hsl_body(trim(text)) {
        None => None,
        Some(body) => {
            let parts = trimmed_fields(body);
            if parts.len() != 3 {
                None
            } else {
                match (dec_field(parts[0], 65535), dec_field(parts[1], 255), dec_field(parts[2], 255)) {
                    (Some(h), Some(s), Some(l)) => if h > 360 || s > 100 || l > 100 {
                        None
                    } else {
                        Some((h, s, l))
                    },
                    _ => None,
                }
            }
        }
    }
}

pub open spec fn is_ascii_char(c: char) -> bool {
    (c as u32) < 0x80
}

pub open spec fn is_two_byte_char(c: char) -> bool {
    0x80 <= (c as u32) && (c as u32) < 0x800
}

/// Three hex digits, each doubled (`#RGB`).
pub open spec fn hex3_spec(s: Seq<char>) -> Option<(nat, nat, nat)> {
    if s.len() == 3 {
        match (hex_field(seq![s[0], s[0]]), hex_field(seq![s[1], s[1]]), hex_field(seq![s[2], s[2]])) {
            (Some(r), Some(g), Some(b)) => Some((r, g, b)),
            _ => None,
        }
    } else {
        None
    }
}

/// Six bytes cut at byte offsets 2 and 4 (`#RRGGBB`). The outer `None` is
/// the case in which a cut falls inside a character.
pub open spec fn hex6_spec(s: Seq<char>) -> Option<Option<(nat, nat, nat)>> {
    if s.len() >= 2 && is_ascii_char(s[0]) && is_ascii_char(s[1]) {
        match hex_field(s.take(2)) {
            None => Some(None),
            Some(r) => {
                let t = s.skip(2);
                if t.len() >= 2 && is_ascii_char(t[0]) && is_ascii_char(t[1]) {
                    match hex_field(t.take(2)) {
                        None => Some(None),
                        Some(g) => match hex_field(t.skip(2)) {
                            None => Some(None),
                            Some(b) => Some(Some((r, g, b))),
                        },
                    }
                } else if t.len() >= 1 && is_two_byte_char(t[0]) {
                    Some(None)
                } else {
                    None
                }
            }
        }
    } else if s.len() >= 1 && is_two_byte_char(s[0]) {
        Some(None)
    } else {
        None
    }
}

/// The digits of a HEX input: trimmed, without leading `#`.
pub open spec fn hex_digits(value: Seq<char>) -> Seq<char> {
    strip_start(trim(value), eq_pred('#'))
}

/// What `parse_hex` returns; the outer `None` marks the inputs on which the
/// byte-offset slicing would cut inside a character.
pub open spec fn parse_hex_spec(value: Seq<char>) -> Option<Option<(nat, nat, nat)>> {
    let s = hex_digits(value);
    let n = encode_utf8(s).len();
    if n == 3 {
        Some(hex3_spec(s))
    } else if n == 6 {
        hex6_spec(s)
    } else {
        Some(None)
    }
}

/// Two upper-case hex digits of a byte (`{:02X}`).
pub open spec fn hex2(v: int) -> Seq<char> {
    seq![digit_char((v / 16) as nat), digit_char((v % 16) as nat)]
}

pub open spec fn dec(v: int) -> Seq<char> {
    digits_of(v as nat, 10)
}

/// The three lines that show a color in every notation, given its RGB
/// components and its hue (degrees), saturation and lightness (percent).
pub open spec fn color_text(r: int, g: int, b: int, h: int, sat: int, l: int) -> Seq<char> {
    "HEX: #"@ + hex2(r) + hex2(g) + hex2(b) + "\nRGB: rgb("@ + dec(r) + ", "@ + dec(g) + ", "@
        + dec(b) + ")\nHSL: hsl("@ + dec(h) + ", "@ + dec(sat) + "%, "@ + dec(l) + "%)"@
}

/// The inputs on which reading a six-byte HEX color by byte offsets would
/// cut inside a character (the converter is not defined there).
pub open spec fn hex_input_cuts_char(value: Seq<char>) -> bool {
    let t = trim(value);
    t.len() > 0 && detect_spec(t) == Some(ColorInput::Hex) && parse_hex_spec(t) is None
}

/// A color as read from the input: nothing (blank input), RGB components,
/// or hue (degrees), saturation and lightness (percent).
#[derive(Clone, Copy, Debug, PartialEq, Eq, Structural)]
pub enum ColorSource {
    Blank,
    Rgb(u8, u8, u8),
    Hsl(u16, u8, u8),
}

/// What `color_source` returns: the color that the trimmed input writes, or
/// the message for its notation.
pub open spec fn color_source_spec(value: Seq<char>) -> Result<ColorSource, Seq<char>> {
    let t = trim(value);
    if t.len() == 0 {
        Ok(ColorSource::Blank)
    } else {
        match detect_spec(t) {
            None => Err("Unsupported input. Use HEX, RGB, or HSL."@),
            Some(ColorInput::Hex) => match parse_hex_spec(t) {
                Some(Some((r, g, b))) => Ok(ColorSource::Rgb(r as u8, g as u8, b as u8)),
                _ => Err("Invalid HEX color. Use #RGB or #RRGGBB."@),
            },
            Some(ColorInput::Rgb) => match parse_rgb_spec(t) {
                Some((r, g, b)) => Ok(ColorSource::Rgb(r as u8, g as u8, b as u8)),
                None => Err("Invalid RGB color. Use rgb(r, g, b)."@),
            },
            Some(ColorInput::Hsl) => match parse_hsl_spec(t) {
                Some((h, sat, l)) => Ok(ColorSource::Hsl(h as u16, sat as u8, l as u8)),
                None => Err("Invalid HSL color. Use hsl(h, s%, l%)."@),
            },
        }
    }
}


fn detect_input_type(value: &str) -> (res: Option<ColorInput>)
    ensures
        res == detect_spec(value@),
{
    let cs = chars_of(value);
    let t = trim_chars(cs.as_slice());
    if starts_with_str(t.as_slice(), "rgb(") || starts_with_str(t.as_slice(), "rgba(") {
        return Some(ColorInput::Rgb);
    }
    if starts_with_str(t.as_slice(), "hsl(") {
        return Some(ColorInput::Hsl);
    }
    if starts_with_str(t.as_slice(), "#") {
        return Some(ColorInput::Hex);
    }
    let mut i: usize = 0;
    while i < t.len()
        invariant
            i <= t.len(),
            forall|j: int| 0 <= j < i ==> is_hex_digit(#[trigger] t@[j]),
            t@ == trim(value@),
            !starts_with(t@, "rgb("@) && !starts_with(t@, "rgba("@),
            !starts_with(t@, "hsl("@) && !starts_with(t@, "#"@),
        decreases t.len() - i,
    {
        if !is_ascii_hexdigit(t[i]) {
            assert(!is_hex_digit(t@[i as int]));
            return None;
        }
        i = i + 1;
    }
    Some(ColorInput::Hex)
}

fn dec_u8(p: &[char]) -> (res: Option<u8>)
    ensures
        match res {
            Some(v) => dec_field(p@, 255) == Some(v as nat),
            None => dec_field(p@, 255) is None,
        },
{
    match parse_radix(p, 10, 255) {
        Ok(v) => Some(v as u8),
        Err(_) => None,
    }
}

fn hex_u8(p: &[char]) -> (res: Option<u8>)
    ensures
        match res {
            Some(v) => hex_field(p@) == Some(v as nat),
            None => hex_field(p@) is None,
        },
{
    match parse_radix(p, 16, 255) {
        Ok(v) => Some(v as u8),
        Err(_) => None,
    }
}

fn parse_rgb(text: &str) -> (res: Option<(u8, u8, u8)>)
    ensures
        match res {
            Some((r, g, b)) => parse_rgb_spec(text@) == Some((r as nat, g as nat, b as nat)),
            None => parse_rgb_spec(text@) is None,
        },
{
    let cs = chars_of(text);
    let t = trim_chars(cs.as_slice());
    let rest = match strip_prefix_str(t.as_slice(), "rgb(") {
        Some(r) => r,
        None => match strip_prefix_str(t.as_slice(), "RGBA(") {
            Some(r) => r,
            None => match strip_prefix_str(t.as_slice(), "rgba(") {
                Some(r) => r,
                None => match strip_prefix_str(t.as_slice(), "RGB(") {
                    Some(r) => r,
                    None => return None,
                },
            },
        },
    };
    let body = strip_end_char(rest.as_slice(), ')');
    let parts = split_trimmed(body.as_slice());
    if parts.len() < 3 {
        return None;
    }
    assert(parts.deep_view()[0] =~= parts[0]@);
    assert(parts.deep_view()[1] =~= parts[1]@);
    assert(parts.deep_view()[2] =~= parts[2]@);
    let r = match dec_u8(parts[0].as_slice()) {
        Some(v) => v,
        None => return None,
    };
    let g = match dec_u8(parts[1].as_slice()) {
        Some(v) => v,
        None => return None,
    };
    let b = match dec_u8(parts[2].as_slice()) {
        Some(v) => v,
        None => return None,
    };
    Some((r, g, b))
}

fn parse_hsl(text: &str) -> (res: Option<(u16, u8, u8)>)
    ensures
        match res {
            Some((h, s, l)) => parse_hsl_spec(text@) == Some((h as nat, s as nat, l as nat)),
            None => parse_hsl_spec(text@) is None,
        },
{
    let cs = chars_of(text);
    let t = trim_chars(cs.as_slice());
    let rest = match strip_prefix_str(t.as_slice(), "hsl(") {
        Some(r) => r,
        None => match strip_prefix_str(t.as_slice(), "HSL(") {
            Some(r) => r,
            None => return None,
        },
    };
    let closed = strip_end_char(rest.as_slice(), ')');
    let percent = ['%'];
    assert(percent@ == seq!['%']);
    let body = remove_chars(closed.as_slice(), &percent);
    let parts = split_trimmed(body.as_slice());
    if parts.len() != 3 {
        return None;
    }
    assert(parts.deep_view()[0] =~= parts[0]@);
    assert(parts.deep_view()[1] =~= parts[1]@);
    assert(parts.deep_view()[2] =~= parts[2]@);
    let h = match parse_radix(parts[0].as_slice(), 10, 65535) {
        Ok(v) => v as u16,
        Err(_) => return None,
    };
    let s = match dec_u8(parts[1].as_slice()) {
        Some(v) => v,
        None => return None,
    };
    let l = match dec_u8(parts[2].as_slice()) {
        Some(v) => v,
        None => return None,
    };
    if h > 360 || s > 100 || l > 100 {
        return None;
    }
    Some((h, s, l))
}

fn is_ascii_code(c: char) -> (res: bool)
    ensures
        res == is_ascii_char(c),
{
    (c as u32) < 0x80
}

fn is_two_byte_code(c: char) -> (res: bool)
    ensures
        res == is_two_byte_char(c),
{
    0x80 <= (c as u32) && (c as u32) < 0x800
}

fn pair(a: char, b: char) -> (res: Vec<char>)
    ensures
        res@ == seq![a, b],
{
    let mut v: Vec<char> = Vec::new();
    v.push(a);
    v.push(b);
    v
}

/// Reads `#RGB` or `#RRGGBB` (the `#` optional).
/// The outer `None` marks the inputs on which slicing at byte offsets 2 and 4
/// would cut inside a character.
fn parse_hex_outcome(value: &str) -> (res: Option<Option<(u8, u8, u8)>>)
    ensures
        match res {
            Some(Some((r, g, b))) => parse_hex_spec(value@) == Some(Some((r as nat, g as nat, b as nat))),
            Some(None) => parse_hex_spec(value@) == Some(None::<(nat, nat, nat)>),
            None => parse_hex_spec(value@) is None,
        },
{
    let cs = chars_of(value);
    let t = trim_chars(cs.as_slice());
    let s = strip_start_char(t.as_slice(), '#');
    let st = string_of(s.as_slice());
    let n = st.as_str().as_bytes().len();
    if n == 3 {
        if s.len() != 3 {
            return Some(None);
        }
        let r = match hex_u8(pair(s[0], s[0]).as_slice()) {
            Some(v) => v,
            None => return Some(None),
        };
        let g = match hex_u8(pair(s[1], s[1]).as_slice()) {
            Some(v) => v,
            None => return Some(None),
        };
        let b = match hex_u8(pair(s[2], s[2]).as_slice()) {
            Some(v) => v,
            None => return Some(None),
        };
        Some(Some((r, g, b)))
    } else if n == 6 {
        if s.len() >= 2 && is_ascii_code(s[0]) && is_ascii_code(s[1]) {
            assert(s@.take(2) =~= seq![s@[0], s@[1]]);
            let r = match hex_u8(pair(s[0], s[1]).as_slice()) {
                Some(v) => v,
                None => return Some(None),
            };
            let t2 = crate::text::slice_to_vec(s.as_slice(), 2, s.len());
            assert(t2@ == s@.skip(2));
            if t2.len() >= 2 && is_ascii_code(t2[0]) && is_ascii_code(t2[1]) {
                assert(t2@.take(2) =~= seq![t2@[0], t2@[1]]);
                assert(t2@.skip(2) == s@.skip(2).skip(2));
                let g = match hex_u8(pair(t2[0], t2[1]).as_slice()) {
                    Some(v) => v,
                    None => return Some(None),
                };
                let t3 = crate::text::slice_to_vec(t2.as_slice(), 2, t2.len());
                let b = match hex_u8(t3.as_slice()) {
                    Some(v) => v,
                    None => return Some(None),
                };
                Some(Some((r, g, b)))
            } else if t2.len() >= 1 && is_two_byte_code(t2[0]) {
                Some(None)
            } else {
                None
            }
        } else if s.len() >= 1 && is_two_byte_code(s[0]) {
            Some(None)
        } else {
            None
        }
    } else {
        Some(None)
    }
}


/// Reads `#RGB` or `#RRGGBB` (the `#` optional).
fn parse_hex(value: &str) -> (res: Option<(u8, u8, u8)>)
    requires
        parse_hex_spec(value@) is Some,
    ensures
        match res {
            Some((r, g, b)) => parse_hex_spec(value@) == Some(Some((r as nat, g as nat, b as nat))),
            None => parse_hex_spec(value@) == Some(None::<(nat, nat, nat)>),
        },
{
    match parse_hex_outcome(value) {
        Some(r) => r,
        None => None,
    }
}

/// Whether `color_source` cannot take `value`: a six-byte HEX input whose
/// slicing at byte offsets 2 or 4 would cut inside a character.
pub fn color_input_cuts_char(value: &str) -> (res: bool)
    ensures
        res == hex_input_cuts_char(value@),
{
    let cs = chars_of(value);
    let tc = trim_chars(cs.as_slice());
    if tc.len() == 0 {
        return false;
    }
    let trimmed = string_of(tc.as_slice());
    let t = trimmed.as_str();
    match detect_input_type(t) {
        Some(ColorInput::Hex) => parse_hex_outcome(t).is_none(),
        _ => false,
    }
}

fn hex_byte(v: u8) -> (res: Vec<char>)
    ensures
        res@ == hex2(v as int),
{
    pair(crate::radix::digit_to_char((v / 16) as u32), crate::radix::digit_to_char((v % 16) as u32))
}

/// The three lines that show a color: `HEX: #RRGGBB`, `RGB: rgb(r, g, b)`
/// and `HSL: hsl(h, s%, l%)`.
pub fn color_text_of(r: u8, g: u8, b: u8, h: u16, sat: u8, l: u8) -> (res: String)
    ensures
        res@ == color_text(r as int, g as int, b as int, h as int, sat as int, l as int),
{
    let mut out: Vec<char> = Vec::new();
    push_str(&mut out, "HEX: #");
    append_chars(&mut out, hex_byte(r).as_slice());
    append_chars(&mut out, hex_byte(g).as_slice());
    append_chars(&mut out, hex_byte(b).as_slice());
    push_str(&mut out, "\nRGB: rgb(");
    append_chars(&mut out, format_radix(r as u128, 10).as_slice());
    push_str(&mut out, ", ");
    append_chars(&mut out, format_radix(g as u128, 10).as_slice());
    push_str(&mut out, ", ");
    append_chars(&mut out, format_radix(b as u128, 10).as_slice());
    push_str(&mut out, ")\nHSL: hsl(");
    append_chars(&mut out, format_radix(h as u128, 10).as_slice());
    push_str(&mut out, ", ");
    append_chars(&mut out, format_radix(sat as u128, 10).as_slice());
    push_str(&mut out, "%, ");
    append_chars(&mut out, format_radix(l as u128, 10).as_slice());
    push_str(&mut out, "%)");
    assert(out@ =~= color_text(r as int, g as int, b as int, h as int, sat as int, l as int));
    string_of(out.as_slice())
}

fn message(s: &str) -> (res: String)
    ensures
        res@ == s@,
{
    string_of(chars_of(s).as_slice())
}

/// Reads a color written as `#RGB`, `#RRGGBB` (the `#` may be left out),
/// `rgb(r, g, b)` (or `rgba(..)`) or `hsl(h, s%, l%)`; blank input reads as
/// no color.
pub fn color_source(value: &str) -> (res: Result<ColorSource, String>)
    requires
        !hex_input_cuts_char(value@),
    ensures
        match res {
            Ok(c) => color_source_spec(value@) == Ok::<ColorSource, Seq<char>>(c),
            Err(e) => color_source_spec(value@) == Err::<ColorSource, Seq<char>>(e@),
        },
{
    let cs = chars_of(value);
    let tc = trim_chars(cs.as_slice());
    if tc.len() == 0 {
        return Ok(ColorSource::Blank);
    }
    let trimmed = string_of(tc.as_slice());
    let t = trimmed.as_str();
    let input_type = match detect_input_type(t) {
        Some(k) => k,
        None => return Err(message("Unsupported input. Use HEX, RGB, or HSL.")),
    };
    match input_type {
        ColorInput::Hex => match parse_hex(t) {
            Some((r, g, b)) => Ok(ColorSource::Rgb(r, g, b)),
            None => Err(message("Invalid HEX color. Use #RGB or #RRGGBB.")),
        },
        ColorInput::Rgb => match parse_rgb(t) {
            Some((r, g, b)) => Ok(ColorSource::Rgb(r, g, b)),
            None => Err(message("Invalid RGB color. Use rgb(r, g, b).")),
        },
        ColorInput::Hsl => match parse_hsl(t) {
            Some((h, sat, l)) => Ok(ColorSource::Hsl(h, sat, l)),
            None => Err(message("Invalid HSL color. Use hsl(h, s%, l%).")),
        },
    }
}

proof fn lemma_hex_char(c: char)
    requires
        is_hex_digit(c),
    ensures
        crate::radix::digit_value(c, 16) matches Some(v) && v < 16 && digit_char(v) == crate::text::ascii_upper_char(c),
{
}

proof fn lemma_hex_pair(c0: char, c1: char)
    requires
        is_hex_digit(c0),
        is_hex_digit(c1),
    ensures
        hex_field(seq![c0, c1]) matches Some(v) && v < 256 && hex2(v as int) == seq![
            crate::text::ascii_upper_char(c0),
            crate::text::ascii_upper_char(c1),
        ],
{
    lemma_hex_char(c0);
    lemma_hex_char(c1);
    let s = seq![c0, c1];
    let v0 = crate::radix::digit_value(c0, 16)->0;
    let v1 = crate::radix::digit_value(c1, 16)->0;
    assert(s.drop_last() =~= seq![c0]);
    assert(s.drop_last().drop_last() =~= Seq::<char>::empty());
    assert(seq![c0].drop_last() =~= Seq::<char>::empty());
    assert(crate::radix::digits_value(Seq::<char>::empty(), 16, 255) == Ok::<nat, crate::radix::IntErrorKind>(0));
    assert(seq![c0].last() == c0);
    assert(0 * 16 + v0 == v0) by (nonlinear_arith);
    assert(crate::radix::digits_value(seq![c0], 16, 255) == Ok::<nat, crate::radix::IntErrorKind>(v0));
    assert(s.last() == c1);
    let v = v0 * 16 + v1;
    assert(v < 256 && v / 16 == v0 && v % 16 == v1) by (nonlinear_arith)
        requires
            v0 < 16,
            v1 < 16,
            v == v0 * 16 + v1,
    ;
    assert(crate::radix::digits_value(s, 16, 255) == Ok::<nat, crate::radix::IntErrorKind>(v));
    assert(c0 != '+' && c0 != '-');
}

proof fn lemma_no_ws_trim(s: Seq<char>)
    requires
        s.len() > 0,
        !crate::text::is_ws(s[0]),
        !crate::text::is_ws(s.last()),
    ensures
        trim(s) == s,
{
    crate::text::lemma_lead_count(s, crate::text::ws_pred(), 0);
    assert(s.skip(0) =~= s);
    crate::text::lemma_trail_count(s, crate::text::ws_pred(), 0);
    assert(s.take(s.len() as int) =~= s);
}

proof fn lemma_hex_input_detected(d: Seq<char>)
    requires
        d.len() > 0,
        forall|i: int| 0 <= i < d.len() ==> is_hex_digit(#[trigger] d[i]),
    ensures
        trim(seq!['#'] + d) == seq!['#'] + d,
        detect_spec(seq!['#'] + d) == Some(ColorInput::Hex),
        hex_digits(seq!['#'] + d) == d,
        detect_spec(d) == Some(ColorInput::Hex),
        hex_digits(d) == d,
        trim(d) == d,
{
    let v = seq!['#'] + d;
    assert(is_hex_digit(d[d.len() - 1]));
    assert(v.last() == d[d.len() - 1]);
    assert(is_hex_digit(d[0]));
    lemma_no_ws_trim(d);
    assert(!starts_with(d, "rgb("@)) by {
        reveal_strlit("rgb(");
        assert(d[0] != "rgb("@[0]);
    }
    assert(!starts_with(d, "rgba("@)) by {
        reveal_strlit("rgba(");
        assert(d[0] != "rgba("@[0]);
    }
    assert(!starts_with(d, "hsl("@)) by {
        reveal_strlit("hsl(");
        assert(d[0] != "hsl("@[0]);
    }
    crate::text::lemma_lead_count(d, eq_pred('#'), 0);
    assert(d.skip(0) =~= d);
    lemma_no_ws_trim(v);
    reveal_strlit("#");
    reveal_strlit("rgb(");
    reveal_strlit("rgba(");
    reveal_strlit("hsl(");
    assert(v.take(1) =~= "#"@);
    assert(!starts_with(v, "rgb("@)) by {
        assert(v[0] != "rgb("@[0]);
    }
    assert(!starts_with(v, "rgba("@)) by {
        assert(v[0] != "rgba("@[0]);
    }
    assert(!starts_with(v, "hsl("@)) by {
        assert(v[0] != "hsl("@[0]);
    }
    assert(is_hex_digit(d[0]) && v[1] == d[0]);
    crate::text::lemma_lead_count(v, eq_pred('#'), 1);
    assert(v.skip(1) =~= d);
}

proof fn lemma_hex_input_parsed(d: Seq<char>)
    requires
        d.len() == 6,
        forall|i: int| 0 <= i < 6 ==> is_hex_digit(#[trigger] d[i]),
    ensures
        ({
            let v = seq!['#'] + d;
            parse_hex_spec(v) matches Some(Some((r, g, b))) && r < 256 && g < 256 && b < 256
                && hex2(r as int) + hex2(g as int) + hex2(b as int) == crate::text::ascii_upper(d)
        }),
{
    lemma_hex_input_detected(d);
    assert(is_hex_digit(d[0]) && is_hex_digit(d[1]) && is_hex_digit(d[2]) && is_hex_digit(d[3])
        && is_hex_digit(d[4]) && is_hex_digit(d[5]));
    assert(vstd::utf8::is_ascii_chars(d));
    vstd::utf8::is_ascii_chars_encode_utf8(d);
    assert(encode_utf8(d).len() == 6);
    lemma_hex_pair(d[0], d[1]);
    lemma_hex_pair(d[2], d[3]);
    lemma_hex_pair(d[4], d[5]);
    assert(d.take(2) =~= seq![d[0], d[1]]);
    assert(d.skip(2).take(2) =~= seq![d[2], d[3]]);
    assert(d.skip(2).skip(2) =~= seq![d[4], d[5]]);
    let (r, g, b) = parse_hex_spec(seq!['#'] + d)->Some_0->Some_0;
    assert(hex2(r as int) + hex2(g as int) + hex2(b as int) =~= crate::text::ascii_upper(d));
}

proof fn lemma_short_hex(x: char, y: char, z: char)
    requires
        is_hex_digit(x),
        is_hex_digit(y),
        is_hex_digit(z),
    ensures
        color_source_spec(seq!['#', x, y, z]) == color_source_spec(seq!['#', x, x, y, y, z, z]),
        color_source_spec(seq!['#', x, y, z]) is Ok,
        !hex_input_cuts_char(seq!['#', x, y, z]),
{
    let short = seq![x, y, z];
    let long = seq![x, x, y, y, z, z];
    assert(seq!['#', x, y, z] =~= seq!['#'] + short);
    assert(seq!['#', x, x, y, y, z, z] =~= seq!['#'] + long);
    assert(forall|i: int| 0 <= i < 3 ==> is_hex_digit(#[trigger] short[i])) by {
        assert(short[0] == x && short[1] == y && short[2] == z);
    }
    assert forall|i: int| 0 <= i < 6 implies is_hex_digit(#[trigger] long[i]) by {
        assert(long[0] == x && long[1] == x && long[2] == y && long[3] == y && long[4] == z && long[5] == z);
    }
    lemma_hex_input_detected(short);
    lemma_hex_input_detected(long);
    assert(vstd::utf8::is_ascii_chars(short));
    vstd::utf8::is_ascii_chars_encode_utf8(short);
    assert(vstd::utf8::is_ascii_chars(long));
    vstd::utf8::is_ascii_chars_encode_utf8(long);
    assert(encode_utf8(short).len() == 3);
    assert(encode_utf8(long).len() == 6);
    lemma_hex_pair(x, x);
    lemma_hex_pair(y, y);
    lemma_hex_pair(z, z);
    assert(long.take(2) =~= seq![x, x]);
    assert(long.skip(2).take(2) =~= seq![y, y]);
    assert(long.skip(2).skip(2) =~= seq![z, z]);
    assert(seq![short[0], short[0]] =~= seq![x, x]);
    assert(seq![short[1], short[1]] =~= seq![y, y]);
    assert(seq![short[2], short[2]] =~= seq![z, z]);
}

proof fn lemma_bare_hex(d: Seq<char>)
    requires
        d.len() == 6,
        forall|i: int| 0 <= i < 6 ==> is_hex_digit(#[trigger] d[i]),
    ensures
        color_source_spec(d) == color_source_spec(seq!['#'] + d),
        !hex_input_cuts_char(d),
{
    lemma_hex_input_detected(d);
    lemma_hex_input_parsed(d);
}

/// The HEX notations of one color read alike: `#xyz` reads as `#xxyyzz`,
/// and six hex digits read the same with or without `#`.
pub proof fn hex_notations_agree(x: char, y: char, z: char, d: Seq<char>)
    requires
        is_hex_digit(x),
        is_hex_digit(y),
        is_hex_digit(z),
        d.len() == 6,
        forall|i: int| 0 <= i < 6 ==> is_hex_digit(#[trigger] d[i]),
    ensures
        color_source_spec(seq!['#', x, y, z]) == color_source_spec(seq!['#', x, x, y, y, z, z]),
        color_source_spec(seq!['#', x, y, z]) is Ok,
        color_source_spec(d) == color_source_spec(seq!['#'] + d),
        !hex_input_cuts_char(seq!['#', x, y, z]) && !hex_input_cuts_char(d),
{
    lemma_short_hex(x, y, z);
    lemma_bare_hex(d);
}

/// The text of one decimal byte in an `rgb(..)` field reads back as the byte.
proof fn lemma_dec_byte(v: nat)
    requires
        v < 256,
    ensures
        dec_field(digits_of(v, 10), 255) == Some(v),
        trim(digits_of(v, 10)) == digits_of(v, 10),
        trim(seq![' '] + digits_of(v, 10)) == digits_of(v, 10),
        forall|i: int| 0 <= i < digits_of(v, 10).len() ==> #[trigger] digits_of(v, 10)[i] != ',' && digits_of(v, 10)[i] != ')',
{
    let a = digits_of(v, 10);
    crate::radix::radix_round_trip(v, 10, 255);
    crate::radix::lemma_decimal_digits(v);
    assert(!crate::text::is_ws(a[0]) && !crate::text::is_ws(a.last()));
    lemma_no_ws_trim(a);
    let b = seq![' '] + a;
    assert(b[1] == a[0]);
    assert(crate::text::is_ws(' '));
    crate::text::lemma_lead_count(b, crate::text::ws_pred(), 1);
    assert(b.skip(1) =~= a);
    crate::text::lemma_trail_count(a, crate::text::ws_pred(), 0);
    assert(a.take(a.len() as int) =~= a);
}

/// Two upper-case hex digits of a byte are hex digits, and they determine
/// the byte.
proof fn lemma_hex2(v: nat)
    requires
        v < 256,
    ensures
        is_hex_digit(hex2(v as int)[0]),
        is_hex_digit(hex2(v as int)[1]),
        crate::text::ascii_upper_char(hex2(v as int)[0]) == hex2(v as int)[0],
        crate::text::ascii_upper_char(hex2(v as int)[1]) == hex2(v as int)[1],
        forall|w: nat| w < 256 && #[trigger] hex2(w as int) == hex2(v as int) ==> w == v,
{
    assert forall|w: nat| w < 256 && #[trigger] hex2(w as int) == hex2(v as int) implies w == v by {
        assert(hex2(w as int)[0] == hex2(v as int)[0]);
        assert(hex2(w as int)[1] == hex2(v as int)[1]);
        assert(w == (w / 16) * 16 + w % 16 && v == (v / 16) * 16 + v % 16) by (nonlinear_arith);
    }
}

/// `#RRGGBB` written from a color reads back as that color.
proof fn lemma_hex_text_reads_back(r: u8, g: u8, b: u8)
    ensures
        color_source_spec(seq!['#'] + hex2(r as int) + hex2(g as int) + hex2(b as int))
            == Ok::<ColorSource, Seq<char>>(ColorSource::Rgb(r, g, b)),
{
    let d = hex2(r as int) + hex2(g as int) + hex2(b as int);
    lemma_hex2(r as nat);
    lemma_hex2(g as nat);
    lemma_hex2(b as nat);
    assert(d.len() == 6);
    assert forall|i: int| 0 <= i < 6 implies is_hex_digit(#[trigger] d[i]) by {
        if i < 2 {
            assert(d[i] == hex2(r as int)[i]);
        } else if i < 4 {
            assert(d[i] == hex2(g as int)[i - 2]);
        } else {
            assert(d[i] == hex2(b as int)[i - 4]);
        }
    }
    assert(seq!['#'] + hex2(r as int) + hex2(g as int) + hex2(b as int) =~= seq!['#'] + d);
    lemma_hex_input_detected(d);
    lemma_hex_input_parsed(d);
    let up = crate::text::ascii_upper(d);
    assert(up =~= d) by {
        assert forall|i: int| 0 <= i < d.len() implies #[trigger] up[i] == d[i] by {
            if i < 2 {
                assert(d[i] == hex2(r as int)[i]);
            } else if i < 4 {
                assert(d[i] == hex2(g as int)[i - 2]);
            } else {
                assert(d[i] == hex2(b as int)[i - 4]);
            }
        }
    }
    let (r2, g2, b2) = parse_hex_spec(seq!['#'] + d)->Some_0->Some_0;
    assert(hex2(r2 as int) + hex2(g2 as int) + hex2(b2 as int) == d);
    assert(hex2(r2 as int) =~= d.take(2));
    assert(hex2(r as int) =~= d.take(2));
    assert(hex2(g2 as int) =~= d.skip(2).take(2));
    assert(hex2(g as int) =~= d.skip(2).take(2));
    assert(hex2(b2 as int) =~= d.skip(4));
    assert(hex2(b as int) =~= d.skip(4));
}

/// A decimal number up to `max` in an `hsl(..)` field reads back as itself.
proof fn lemma_dec_number(v: nat, max: nat)
    requires
        v <= max,
    ensures
        dec_field(digits_of(v, 10), max) == Some(v),
        trim(digits_of(v, 10)) == digits_of(v, 10),
        trim(seq![' '] + digits_of(v, 10)) == digits_of(v, 10),
        forall|i: int| 0 <= i < digits_of(v, 10).len() ==> '0' <= #[trigger] digits_of(v, 10)[i] <= '9',
{
    let a = digits_of(v, 10);
    crate::radix::radix_round_trip(v, 10, max);
    crate::radix::lemma_decimal_digits(v);
    assert(!crate::text::is_ws(a[0]) && !crate::text::is_ws(a.last()));
    lemma_no_ws_trim(a);
    let b = seq![' '] + a;
    assert(b[1] == a[0]);
    assert(crate::text::is_ws(' '));
    crate::text::lemma_lead_count(b, crate::text::ws_pred(), 1);
    assert(b.skip(1) =~= a);
    crate::text::lemma_trail_count(a, crate::text::ws_pred(), 0);
    assert(a.take(a.len() as int) =~= a);
}

/// The body of `hsl(h, s%, l%)`, without its `%` signs, is `h, s, l`.
proof fn lemma_hsl_body_fields(a: Seq<char>, b: Seq<char>, c: Seq<char>)
    requires
        forall|i: int| 0 <= i < a.len() ==> '0' <= #[trigger] a[i] <= '9',
        forall|i: int| 0 <= i < b.len() ==> '0' <= #[trigger] b[i] <= '9',
        forall|i: int| 0 <= i < c.len() ==> '0' <= #[trigger] c[i] <= '9',
    ensures
        keep(a + seq![',', ' '] + b + seq!['%', ',', ' '] + c + seq!['%'], none_of(seq!['%']))
            == a + seq![','] + (seq![' '] + b) + seq![','] + (seq![' '] + c),
{
    let p = none_of(seq!['%']);
    assert forall|i: int| 0 <= i < a.len() implies #[trigger] p(a[i]) by { assert('0' <= a[i] <= '9'); }
    assert forall|i: int| 0 <= i < b.len() implies #[trigger] p(b[i]) by { assert('0' <= b[i] <= '9'); }
    assert forall|i: int| 0 <= i < c.len() implies #[trigger] p(c[i]) by { assert('0' <= c[i] <= '9'); }
    crate::text::lemma_keep_all(a, p);
    crate::text::lemma_keep_all(b, p);
    crate::text::lemma_keep_all(c, p);
    let s1 = seq![',', ' '];
    let s2 = seq!['%', ',', ' '];
    let s3 = seq!['%'];
    assert forall|i: int| 0 <= i < s1.len() implies #[trigger] p(s1[i]) by {}
    crate::text::lemma_keep_all(s1, p);
    assert(seq!['%'][0] == '%');
    assert(!p('%'));
    assert(p(',') && p(' '));
    let e = Seq::<char>::empty();
    assert(keep(e, p) =~= e);
    assert(seq!['%'].drop_last() =~= e);
    assert(seq!['%'].last() == '%');
    assert(keep(seq!['%'], p) =~= e);
    assert(seq!['%', ','].drop_last() =~= seq!['%']);
    assert(keep(seq!['%', ','], p) =~= seq![',']);
    assert(s2.drop_last() =~= seq!['%', ',']);
    assert(keep(s2, p) =~= seq![',', ' ']);
    assert(keep(s3, p) =~= e);
    crate::text::lemma_keep_append(a, s1, p);
    crate::text::lemma_keep_append(a + s1, b, p);
    crate::text::lemma_keep_append(a + s1 + b, s2, p);
    crate::text::lemma_keep_append(a + s1 + b + s2, c, p);
    crate::text::lemma_keep_append(a + s1 + b + s2 + c, s3, p);
    assert(a + s1 + b + seq![',', ' '] + c =~= a + seq![','] + (seq![' '] + b) + seq![','] + (seq![' '] + c));
}

/// `hsl(a, b%, c%)` with digit fields is already trimmed, reads as HSL, and
/// has the body `a, b, c` once its `%` signs are dropped.
#[verifier::rlimit(30)]
proof fn lemma_hsl_text_body(a: Seq<char>, b: Seq<char>, c: Seq<char>)
    requires
        a.len() > 0,
        c.len() > 0,
    ensures
        ({
            let u = "hsl("@ + a + ", "@ + b + "%, "@ + c + "%)"@;
            &&& trim(u) == u
            &&& detect_spec(u) == Some(ColorInput::Hsl)
            &&& first_some(strip_prefix(u, "hsl("@), strip_prefix(u, "HSL("@))
                == Some(a + seq![',', ' '] + b + seq!['%', ',', ' '] + c + seq!['%'] + seq![')'])
            &&& strip_end(a + seq![',', ' '] + b + seq!['%', ',', ' '] + c + seq!['%'] + seq![')'], eq_pred(')'))
                == a + seq![',', ' '] + b + seq!['%', ',', ' '] + c + seq!['%']
        }),
{
    reveal_strlit("hsl(");
    reveal_strlit(", ");
    reveal_strlit("%, ");
    reveal_strlit("%)");
    reveal_strlit("rgb(");
    reveal_strlit("rgba(");
    let u = "hsl("@ + a + ", "@ + b + "%, "@ + c + "%)"@;
    let raw = a + seq![',', ' '] + b + seq!['%', ',', ' '] + c + seq!['%'];
    assert(u =~= seq!['h', 's', 'l', '('] + raw + seq![')']);
    assert(u[0] == 'h' && u.last() == ')');
    assert(!crate::text::is_ws('h') && !crate::text::is_ws(')'));
    lemma_no_ws_trim(u);
    assert(!starts_with(u, "rgb("@)) by {
        assert(u[0] != "rgb("@[0]);
    }
    assert(!starts_with(u, "rgba("@)) by {
        assert(u[0] != "rgba("@[0]);
    }
    assert(u.take(4) =~= "hsl("@);
    assert(starts_with(u, "hsl("@));
    assert(u.skip(4) =~= raw + seq![')']);
    let rest = raw + seq![')'];
    assert(raw.last() == '%');
    crate::text::lemma_trail_count(rest, eq_pred(')'), 1);
    assert(rest.take(rest.len() - 1) =~= raw);
}

/// An HSL color written as `hsl(h, s%, l%)`, with the hue at most 360 and
/// the saturation and lightness at most 100, reads back as that color.
#[verifier::rlimit(30)]
pub proof fn hsl_notation_reads_back(h: u16, sat: u8, l: u8)
    requires
        h <= 360,
        sat <= 100,
        l <= 100,
    ensures
        color_source_spec("hsl("@ + dec(h as int) + ", "@ + dec(sat as int) + "%, "@ + dec(l as int) + "%)"@)
            == Ok::<ColorSource, Seq<char>>(ColorSource::Hsl(h, sat, l)),
{
    let (a, b, c) = (dec(h as int), dec(sat as int), dec(l as int));
    lemma_dec_number(h as nat, 65535);
    lemma_dec_number(sat as nat, 255);
    lemma_dec_number(l as nat, 255);
    reveal_strlit("hsl(");
    reveal_strlit(", ");
    reveal_strlit("%, ");
    reveal_strlit("%)");
    reveal_strlit("rgb(");
    reveal_strlit("rgba(");
    reveal_strlit("HSL(");
    lemma_hsl_text_body(a, b, c);
    lemma_hsl_body_fields(a, b, c);
    let u = "hsl("@ + a + ", "@ + b + "%, "@ + c + "%)"@;
    let body = a + seq![','] + (seq![' '] + b) + seq![','] + (seq![' '] + c);
    assert(hsl_body(u) == Some(body));
    assert forall|i: int| 0 <= i < (seq![' '] + b).len() implies #[trigger] (seq![' '] + b)[i] != ',' by {
        if i > 0 {
            assert((seq![' '] + b)[i] == b[i - 1]);
            assert('0' <= b[i - 1] <= '9');
        }
    }
    assert forall|i: int| 0 <= i < (seq![' '] + c).len() implies #[trigger] (seq![' '] + c)[i] != ',' by {
        if i > 0 {
            assert((seq![' '] + c)[i] == c[i - 1]);
            assert('0' <= c[i - 1] <= '9');
        }
    }
    assert forall|i: int| 0 <= i < a.len() implies #[trigger] a[i] != ',' by {
        assert('0' <= a[i] <= '9');
    }
    crate::text::lemma_split_three(a, seq![' '] + b, seq![' '] + c, ',');
    assert(trimmed_fields(body) =~= seq![a, b, c]);
}

/// An RGB color written as `rgb(r, g, b)` or as `#RRGGBB` reads back as
/// that color: the two notations of one color read alike.
pub proof fn rgb_notation_reads_back(r: u8, g: u8, b: u8)
    ensures
        color_source_spec("rgb("@ + dec(r as int) + ", "@ + dec(g as int) + ", "@ + dec(b as int) + ")"@)
            == Ok::<ColorSource, Seq<char>>(ColorSource::Rgb(r, g, b)),
        color_source_spec(seq!['#'] + hex2(r as int) + hex2(g as int) + hex2(b as int))
            == Ok::<ColorSource, Seq<char>>(ColorSource::Rgb(r, g, b)),
{
    lemma_hex_text_reads_back(r, g, b);
    lemma_rgb_text_reads_back(r, g, b);
}

/// `rgb(r, g, b)` reads back as the color.
#[verifier::rlimit(100)]
proof fn lemma_rgb_text_reads_back(r: u8, g: u8, b: u8)
    ensures
        color_source_spec("rgb("@ + dec(r as int) + ", "@ + dec(g as int) + ", "@ + dec(b as int) + ")"@)
            == Ok::<ColorSource, Seq<char>>(ColorSource::Rgb(r, g, b)),
{
    let (a, bb, c) = (dec(r as int), dec(g as int), dec(b as int));
    lemma_dec_byte(r as nat);
    lemma_dec_byte(g as nat);
    lemma_dec_byte(b as nat);
    reveal_strlit("rgb(");
    reveal_strlit(", ");
    reveal_strlit(")");
    reveal_strlit("rgba(");
    reveal_strlit("hsl(");
    reveal_strlit("RGBA(");
    reveal_strlit("RGB(");
    let u = "rgb("@ + a + ", "@ + bb + ", "@ + c + ")"@;
    let body = a + seq![','] + (seq![' '] + bb) + seq![','] + (seq![' '] + c);
    assert(u =~= seq!['r', 'g', 'b', '('] + body + seq![')']);
    assert(u[0] == 'r' && u.last() == ')');
    assert(!crate::text::is_ws('r') && !crate::text::is_ws(')'));
    lemma_no_ws_trim(u);
    assert(u.take(4) =~= "rgb("@);
    assert(starts_with(u, "rgb("@));
    assert(u.skip(4) =~= body + seq![')']);
    let rest = body + seq![')'];
    assert(c.last() == body.last());
    assert(body.last() != ')');
    crate::text::lemma_trail_count(rest, eq_pred(')'), 1);
    assert(rest.take(rest.len() - 1) =~= body);
    assert(rgb_body(u) == Some(body));
    assert forall|i: int| 0 <= i < (seq![' '] + bb).len() implies #[trigger] (seq![' '] + bb)[i] != ',' by {
        if i > 0 {
            assert((seq![' '] + bb)[i] == bb[i - 1]);
        }
    }
    assert forall|i: int| 0 <= i < (seq![' '] + c).len() implies #[trigger] (seq![' '] + c)[i] != ',' by {
        if i > 0 {
            assert((seq![' '] + c)[i] == c[i - 1]);
        }
    }
    assert forall|i: int| 0 <= i < a.len() implies #[trigger] a[i] != ',' by {}
    crate::text::lemma_split_three(a, seq![' '] + bb, seq![' '] + c, ',');
    assert(trimmed_fields(body) =~= seq![a, bb, c]);
}

/// A six-digit HEX color is shown back as it was written, in upper case:
/// `#` followed by six hex digits reads as the RGB color whose HEX line
/// repeats those digits.
pub proof fn hex_color_round_trip(d: Seq<char>)
    requires
        d.len() == 6,
        forall|i: int| 0 <= i < 6 ==> is_hex_digit(#[trigger] d[i]),
    ensures
        !hex_input_cuts_char(seq!['#'] + d),
        color_source_spec(seq!['#'] + d) matches Ok(ColorSource::Rgb(r, g, b))
            && hex2(r as int) + hex2(g as int) + hex2(b as int) == crate::text::ascii_upper(d),
{
    lemma_hex_input_detected(d);
    lemma_hex_input_parsed(d);
}

} // verus!
