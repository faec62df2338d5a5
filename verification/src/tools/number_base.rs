//! Conversion of signed 64-bit integers typed in one of four bases.
use crate::radix::{digits_of, digits_value, format_radix, parse_radix, parse_unsigned, IntErrorKind};
use crate::text::{append_chars, chars_of, push_str, string_of, trim, trim_chars};
use vstd::prelude::*;

verus! {

/// The base that input is read in.
#[derive(Clone, Copy, Debug, PartialEq, Eq, Structural)]
pub enum NumberMode {
    Decimal,
    Hexadecimal,
    Binary,
    Octal,
}

/// The mode after Tab: decimal, hexadecimal, binary, octal, then decimal again.
pub open spec fn next_mode_spec(m: NumberMode) -> NumberMode {
    match m {
        NumberMode::Decimal => NumberMode::Hexadecimal,
        NumberMode::Hexadecimal => NumberMode::Binary,
        NumberMode::Binary => NumberMode::Octal,
        NumberMode::Octal => NumberMode::Decimal,
    }
}

pub fn next_mode(m: NumberMode) -> (res: NumberMode)
    ensures
        res == next_mode_spec(m),
{
    match m {
        NumberMode::Decimal => NumberMode::Hexadecimal,
        NumberMode::Hexadecimal => NumberMode::Binary,
        NumberMode::Binary => NumberMode::Octal,
        NumberMode::Octal => NumberMode::Decimal,
    }
}

pub open spec fn mode_radix(m: NumberMode) -> nat {
    match m {
        NumberMode::Decimal => 10,
        NumberMode::Hexadecimal => 16,
        NumberMode::Binary => 2,
        NumberMode::Octal => 8,
    }
}

/// The prefix that is removed from input in a mode (none for decimal).
pub open spec fn mode_prefix(m: NumberMode) -> Seq<char> {
    match m {
        NumberMode::Decimal => Seq::empty(),
        NumberMode::Hexadecimal => "0x"@,
        NumberMode::Binary => "0b"@,
        NumberMode::Octal => "0o"@,
    }
}

/// `str::replace(p, "")` for a two-character pattern: every occurrence,
/// found from left to right without overlap, removed.
pub open spec fn remove_pair(s: Seq<char>, p: Seq<char>) -> Seq<char>
    decreases s.len(),
{
    if s.len() == 0 {
        Seq::empty()
    } else if p.len() == 2 && s.len() >= 2 && s[0] == p[0] && s[1] == p[1] {
        remove_pair(s.skip(2), p)
    } else {
        seq![s[0]] + remove_pair(s.drop_first(), p)
    }
}

/// `i64::from_str_radix`: an optional sign, then digits; the value must fit.
pub open spec fn parse_i64(s: Seq<char>, radix: nat) -> Option<int> {
    if s.len() > 1 && s[0] == '-' {
        match digits_value(s.drop_first(), radix, 0x8000_0000_0000_0000) {
            Ok(n) => Some(-n),
            Err(_) => None,
        }
    } else {
        match parse_unsigned(s, radix, 0x7fff_ffff_ffff_ffff) {
            Ok(n) => Some(n as int),
            Err(_) => None,
        }
    }
}

/// The 64-bit two's-complement pattern of `v`.
pub open spec fn pattern64(v: int) -> nat {
    if v < 0 {
        (v + 0x1_0000_0000_0000_0000) as nat
    } else {
        v as nat
    }
}

pub open spec fn signed_text(v: int) -> Seq<char> {
    if v < 0 {
        seq!['-'] + digits_of((-v) as nat, 10)
    } else {
        digits_of(v as nat, 10)
    }
}

/// What the converter shows for trimmed input in a mode: nothing for blank
/// input, the decimal, hexadecimal, binary and octal forms (the last three
/// as 64-bit patterns), or an error.
pub open spec fn number_base_spec(text: Seq<char>, m: NumberMode) -> Option<(Seq<char>, Seq<char>, Seq<char>, Seq<char>)> {
    let t = trim(text);
    match parse_i64(if m == NumberMode::Decimal { t } else { remove_pair(t, mode_prefix(m)) }, mode_radix(m)) {
        Some(v) => Some((signed_text(v), digits_of(pattern64(v), 16), digits_of(pattern64(v), 2), digits_of(pattern64(v), 8))),
        None => None,
    }
}

fn remove_prefix_pairs(s: &[char], p0: char, p1: char) -> (res: Vec<char>)
    ensures
        res@ == remove_pair(s@, seq![p0, p1]),
{
    let mut res: Vec<char> = Vec::new();
    let mut i: usize = 0;
    assert(s@.skip(0) =~= s@);
    while i < s.len()
        invariant
            i <= s.len(),
            res@ + remove_pair(s@.skip(i as int), seq![p0, p1]) == remove_pair(s@, seq![p0, p1]),
        decreases s.len() - i,
    {
        let ghost rest = s@.skip(i as int);
        if s.len() - i >= 2 && s[i] == p0 && s[i + 1] == p1 {
            assert(rest.skip(2) =~= s@.skip(i + 2));
            i = i + 2;
        } else {
            assert(rest.drop_first() =~= s@.skip(i + 1));
            let ghost before = res@;
            res.push(s[i]);
            assert(res@ + remove_pair(s@.skip(i + 1), seq![p0, p1]) =~= before + remove_pair(rest, seq![p0, p1]));
            i = i + 1;
        }
    }
    assert(s@.skip(s.len() as int) =~= Seq::<char>::empty());
    assert(res@ + Seq::<char>::empty() =~= res@);
    res
}

fn parse_signed(s: &[char], radix: u32) -> (res: Option<i64>)
    requires
        2 <= radix <= 36,
    ensures
        match res {
            Some(v) => parse_i64(s@, radix as nat) == Some(v as int),
            None => parse_i64(s@, radix as nat) is None,
        },
{
    if s.len() > 1 && s[0] == '-' {
        let digits = crate::text::slice_to_vec(s, 1, s.len());
        assert(digits@ == s@.drop_first());
        // a leading sign after the minus is a digit error, as for any other character
        if digits.len() > 0 && (digits[0] == '+' || digits[0] == '-') {
            proof {
                assert(crate::radix::digit_value(digits@[0], radix as nat) is None);
                lemma_first_char_error(digits@, radix as nat, 0x8000_0000_0000_0000);
            }
            return None;
        }
        match parse_radix(digits.as_slice(), radix, 0x8000_0000_0000_0000) {
            Ok(n) => {
                if n == 0x8000_0000_0000_0000 {
                    Some(i64::MIN)
                } else {
                    Some(-(n as i64))
                }
            },
            Err(_) => None,
        }
    } else {
        match parse_radix(s, radix, 0x7fff_ffff_ffff_ffff) {
            Ok(n) => Some(n as i64),
            Err(_) => None,
        }
    }
}

/// A sequence whose first character is no digit does not read.
proof fn lemma_first_char_error(ds: Seq<char>, radix: nat, max: nat)
    requires
        ds.len() > 0,
        crate::radix::digit_value(ds[0], radix) is None,
    ensures
        digits_value(ds, radix, max) is Err,
{
    let one = ds.take(1);
    assert(one.drop_last() =~= Seq::<char>::empty());
    assert(one.last() == ds[0]);
    assert(digits_value(one, radix, max) is Err);
    crate::radix::lemma_digits_value_prefix_err(ds, radix, max, 1);
}

/// Reads trimmed input in a mode and returns its decimal, hexadecimal,
/// binary and octal forms, or `None` when it is not a 64-bit integer in that
/// base (the interface shows "Invalid number for selected base.").
pub fn convert_in_mode(text: &str, m: NumberMode) -> (res: Option<(String, String, String, String)>)
    ensures
        match res {
            Some((d, h, b, o)) => number_base_spec(text@, m) == Some((d@, h@, b@, o@)),
            None => number_base_spec(text@, m) is None,
        },
{
    let cs = chars_of(text);
    let t = trim_chars(cs.as_slice());
    let input = match m {
        NumberMode::Decimal => t,
        NumberMode::Hexadecimal => remove_prefix_pairs(t.as_slice(), '0', 'x'),
        NumberMode::Binary => remove_prefix_pairs(t.as_slice(), '0', 'b'),
        NumberMode::Octal => remove_prefix_pairs(t.as_slice(), '0', 'o'),
    };
    proof {
        reveal_strlit("0x");
        reveal_strlit("0b");
        reveal_strlit("0o");
        assert("0x"@ =~= seq!['0', 'x']);
        assert("0b"@ =~= seq!['0', 'b']);
        assert("0o"@ =~= seq!['0', 'o']);
    }
    let radix: u32 = match m {
        NumberMode::Decimal => 10,
        NumberMode::Hexadecimal => 16,
        NumberMode::Binary => 2,
        NumberMode::Octal => 8,
    };
    let v = match parse_signed(input.as_slice(), radix) {
        Some(v) => v,
        None => return None,
    };
    let (pattern, magnitude): (u128, u128) = if v < 0 {
        ((0x1_0000_0000_0000_0000i128 + v as i128) as u128, (-(v as i128)) as u128)
    } else {
        (v as u128, v as u128)
    };
    let mut dec: Vec<char> = Vec::new();
    if v < 0 {
        dec.push('-');
    }
    append_chars(&mut dec, format_radix(magnitude, 10).as_slice());
    assert(dec@ =~= signed_text(v as int));
    Some((
        string_of(dec.as_slice()),
        string_of(format_radix(pattern, 16).as_slice()),
        string_of(format_radix(pattern, 2).as_slice()),
        string_of(format_radix(pattern, 8).as_slice()),
    ))
}

/// The five fields the number tool shows (decimal, hexadecimal, binary,
/// octal, error): all empty for blank input, the four forms when the input
/// reads in the mode, and otherwise only the error.
pub open spec fn mode_fields_spec(text: Seq<char>, m: NumberMode) -> (Seq<char>, Seq<char>, Seq<char>, Seq<char>, Seq<char>) {
    if trim(text).len() == 0 {
        (Seq::empty(), Seq::empty(), Seq::empty(), Seq::empty(), Seq::empty())
    } else {
        match number_base_spec(text, m) {
            Some((d, h, b, o)) => (d, h, b, o, Seq::empty()),
            None => (Seq::empty(), Seq::empty(), Seq::empty(), Seq::empty(), "Invalid number for selected base."@),
        }
    }
}

/// Computes the fields of the number tool for an input and a mode.
pub fn mode_fields(text: &str, m: NumberMode) -> (res: (String, String, String, String, String))
    ensures
        (res.0@, res.1@, res.2@, res.3@, res.4@) == mode_fields_spec(text@, m),
{
    let cs = chars_of(text);
    let empty: Vec<char> = Vec::new();
    if trim_chars(cs.as_slice()).len() == 0 {
        return (
            string_of(empty.as_slice()),
            string_of(empty.as_slice()),
            string_of(empty.as_slice()),
            string_of(empty.as_slice()),
            string_of(empty.as_slice()),
        );
    }
    match convert_in_mode(text, m) {
        Some((d, h, b, o)) => (d, h, b, o, string_of(empty.as_slice())),
        None => (
            string_of(empty.as_slice()),
            string_of(empty.as_slice()),
            string_of(empty.as_slice()),
            string_of(empty.as_slice()),
            string_of(chars_of("Invalid number for selected base.").as_slice()),
        ),
    }
}

} // verus!
