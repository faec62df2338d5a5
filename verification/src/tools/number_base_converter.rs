//! Conversion of signed 128-bit integers between bases.
use crate::radix::{digits_of, format_radix, parse_radix, parse_unsigned, IntErrorKind};
use crate::text::{
    chars_of, eq_pred, is_ws, keep, lemma_keep_all, lemma_keep_from, lemma_trim_no_ws, lemma_trim_padded,
    none_of, push_str, remove_chars, strip_start, strip_start_char, string_of, trim, trim_chars, append_chars,
};
use vstd::prelude::*;

verus! {

pub open spec fn two_128() -> nat {
    u128::MAX as nat + 1
}

pub open spec fn i128_max() -> nat {
    0x7fff_ffff_ffff_ffff_ffff_ffff_ffff_ffff
}

/// The text that the number is read from: trimmed, without underscores.
pub open spec fn cleaned_number(value: Seq<char>) -> Seq<char> {
    keep(trim(value), none_of(seq!['_']))
}

/// The signed value that a magnitude `n` (at most `u128::MAX`) stands for:
/// negated when a minus sign was given, otherwise the 128-bit pattern read as
/// a two's-complement number.
pub open spec fn signed_value(n: nat, negative: bool) -> int {
    if negative {
        -n
    } else if n > i128_max() {
        n - two_128()
    } else {
        n as int
    }
}

/// The 128-bit two's-complement pattern of `v`.
pub open spec fn bit_pattern(v: int) -> nat {
    if v < 0 {
        (v + two_128()) as nat
    } else {
        v as nat
    }
}

/// Decimal digits of `v` with a leading minus sign when it is negative.
pub open spec fn signed_decimal(v: int) -> Seq<char> {
    if v < 0 {
        seq!['-'] + digits_of((-v) as nat, 10)
    } else {
        digits_of(v as nat, 10)
    }
}

/// The four lines that show a value in binary, octal, decimal and hexadecimal.
pub open spec fn conversions_text(v: int) -> Seq<char> {
    "Binary: "@ + digits_of(bit_pattern(v), 2) + "\nOctal: "@ + digits_of(bit_pattern(v), 8)
        + "\nDecimal: "@ + signed_decimal(v) + "\nHex: "@ + digits_of(bit_pattern(v), 16)
}

/// What `convert_number` returns for `value` read in `base`.
pub open spec fn convert_number_spec(value: Seq<char>, base: nat) -> Result<Seq<char>, Seq<char>> {
    let cleaned = cleaned_number(value);
    if cleaned.len() == 0 {
        Ok(Seq::empty())
    } else {
        let negative = cleaned[0] == '-';
        let ds = strip_start(cleaned, eq_pred('-'));
        match parse_unsigned(ds, base, u128::MAX as nat) {
            Err(e) => Err("Invalid base-"@ + digits_of(base, 10) + " number: "@ + e.spec_message()),
            Ok(n) => if negative && n > i128_max() + 1 {
                Err("Number too large for signed 128-bit range"@)
            } else {
                Ok(conversions_text(signed_value(n, negative)))
            },
        }
    }
}

fn error_message(e: IntErrorKind) -> (res: &'static str)
    ensures
        res@ == e.spec_message(),
{
    match e {
        IntErrorKind::Empty => "cannot parse integer from empty string",
        IntErrorKind::InvalidDigit => "invalid digit found in string",
        IntErrorKind::PosOverflow => "number too large to fit in target type",
    }
}

/// Reads `value` as an integer in `base` (surrounding whitespace and `_`
/// separators ignored, a leading `-` negates down to `i128::MIN`) and shows
/// it in binary, octal,
/// decimal and hexadecimal. Unsigned values above `i128::MAX` are read as
/// two's-complement patterns; binary, octal and hexadecimal show the 128-bit
/// pattern of negative values.
pub fn convert_number(value: &str, base: u32) -> (res: Result<String, String>)
    requires
        2 <= base <= 36,
    ensures
        match res {
            Ok(s) => convert_number_spec(value@, base as nat) == Ok::<Seq<char>, Seq<char>>(s@),
            Err(e) => convert_number_spec(value@, base as nat) == Err::<Seq<char>, Seq<char>>(e@),
        },
{
    let chars = chars_of(value);
    let trimmed = trim_chars(chars.as_slice());
    let underscore = ['_'];
    let cleaned = remove_chars(trimmed.as_slice(), &underscore);
    assert(underscore@ == seq!['_']);
    if cleaned.len() == 0 {
        let empty: Vec<char> = Vec::new();
        return Ok(string_of(empty.as_slice()));
    }
    let negative = cleaned[0] == '-';
    let digits = strip_start_char(cleaned.as_slice(), '-');
    let n = match parse_radix(digits.as_slice(), base, u128::MAX) {
        Ok(n) => n,
        Err(e) => {
            let mut msg: Vec<char> = Vec::new();
            push_str(&mut msg, "Invalid base-");
            let b = format_radix(base as u128, 10);
            append_chars(&mut msg, b.as_slice());
            push_str(&mut msg, " number: ");
            push_str(&mut msg, error_message(e));
            return Err(string_of(msg.as_slice()));
        },
    };
    if negative && n > i128::MAX as u128 + 1 {
        return Err(string_of(chars_of("Number too large for signed 128-bit range").as_slice()));
    }
    let ghost v = signed_value(n as nat, negative);
    // the 128-bit pattern, and the magnitude shown in decimal
    let (bits, is_neg, magnitude): (u128, bool, u128) = if negative {
        if n == 0 {
            (0, false, 0)
        } else {
            (u128::MAX - n + 1, true, n)
        }
    } else if n > i128::MAX as u128 {
        (n, true, u128::MAX - n + 1)
    } else {
        (n, false, n)
    };
    assert(bits as nat == bit_pattern(v));
    let mut out: Vec<char> = Vec::new();
    push_str(&mut out, "Binary: ");
    append_chars(&mut out, format_radix(bits, 2).as_slice());
    push_str(&mut out, "\nOctal: ");
    append_chars(&mut out, format_radix(bits, 8).as_slice());
    push_str(&mut out, "\nDecimal: ");
    if is_neg {
        push_str(&mut out, "-");
        proof { reveal_strlit("-"); }
    }
    append_chars(&mut out, format_radix(magnitude, 10).as_slice());
    assert(signed_decimal(v) == (if is_neg { "-"@ } else { Seq::empty() }) + digits_of(magnitude as nat, 10));
    push_str(&mut out, "\nHex: ");
    append_chars(&mut out, format_radix(bits, 16).as_slice());
    assert(out@ =~= conversions_text(v));
    Ok(string_of(out.as_slice()))
}

/// Underscores and surrounding whitespace do not change a conversion: for
/// text without whitespace, removing its underscores, or putting a space
/// before it and a line break after it, gives the same result; text of
/// underscores alone converts to an empty text.
pub proof fn number_input_cleaning(t: Seq<char>, base: nat)
    requires
        forall|i: int| 0 <= i < t.len() ==> !#[trigger] is_ws(t[i]),
    ensures
        convert_number_spec(keep(t, none_of(seq!['_'])), base) == convert_number_spec(t, base),
        convert_number_spec(seq![' '] + t + seq!['\n'], base) == convert_number_spec(t, base),
        keep(t, none_of(seq!['_'])).len() == 0 ==> convert_number_spec(t, base) == Ok::<Seq<char>, Seq<char>>(Seq::empty()),
{
    let p = none_of(seq!['_']);
    let k = keep(t, p);
    lemma_trim_no_ws(t);
    lemma_trim_padded(t);
    assert forall|i: int| 0 <= i < t.len() implies #[trigger] crate::text::not_ws()(t[i]) by {}
    lemma_keep_from(t, p, crate::text::not_ws());
    assert forall|i: int| 0 <= i < k.len() implies !#[trigger] is_ws(k[i]) by {
        assert(crate::text::not_ws()(k[i]));
    }
    lemma_trim_no_ws(k);
    assert forall|i: int| 0 <= i < k.len() implies #[trigger] p(k[i]) by {}
    lemma_keep_all(k, p);
    assert(cleaned_number(k) == cleaned_number(t));
}

/// Digits of a number in a base, read back in that base by `convert_number`,
/// give the report of the number as an unsigned 128-bit pattern.
proof fn lemma_digits_read_back(n: nat, base: nat)
    requires
        2 <= base <= 36,
        n <= u128::MAX,
    ensures
        convert_number_spec(digits_of(n, base), base) == Ok::<Seq<char>, Seq<char>>(conversions_text(signed_value(n, false))),
{
    let d = digits_of(n, base);
    crate::radix::lemma_digit_chars(n, base);
    crate::radix::radix_round_trip(n, base, u128::MAX as nat);
    assert forall|i: int| 0 <= i < d.len() implies !#[trigger] is_ws(d[i]) && none_of(seq!['_'])(d[i]) by {
        assert(('0' <= d[i] <= '9') || ('A' <= d[i] <= 'Z'));
    }
    lemma_trim_no_ws(d);
    lemma_keep_all(d, none_of(seq!['_']));
    assert(cleaned_number(d) == d);
    assert(d[0] != '-');
    crate::text::lemma_lead_count(d, eq_pred('-'), 0);
    assert(d.skip(0) =~= d);
}

/// The report of a signed 128-bit number reads back from each of its lines:
/// the decimal line in base 10, and the binary, octal and hexadecimal
/// patterns in bases 2, 8 and 16, each give the same report.
pub proof fn printed_lines_read_back(v: int)
    requires
        -(i128_max() + 1) <= v <= i128_max(),
    ensures
        convert_number_spec(signed_decimal(v), 10) == Ok::<Seq<char>, Seq<char>>(conversions_text(v)),
        convert_number_spec(digits_of(bit_pattern(v), 2), 2) == Ok::<Seq<char>, Seq<char>>(conversions_text(v)),
        convert_number_spec(digits_of(bit_pattern(v), 8), 8) == Ok::<Seq<char>, Seq<char>>(conversions_text(v)),
        convert_number_spec(digits_of(bit_pattern(v), 16), 16) == Ok::<Seq<char>, Seq<char>>(conversions_text(v)),
{
    let p = bit_pattern(v);
    assert(signed_value(p, false) == v);
    lemma_digits_read_back(p, 2);
    lemma_digits_read_back(p, 8);
    lemma_digits_read_back(p, 16);
    if v >= 0 {
        lemma_digits_read_back(v as nat, 10);
    } else {
        let m = (-v) as nat;
        let d = digits_of(m, 10);
        let s = seq!['-'] + d;
        assert(signed_decimal(v) == s);
        crate::radix::lemma_digit_chars(m, 10);
        crate::radix::radix_round_trip(m, 10, u128::MAX as nat);
        assert forall|i: int| 0 <= i < s.len() implies !#[trigger] is_ws(s[i]) && none_of(seq!['_'])(s[i]) by {
            if i > 0 {
                assert(s[i] == d[i - 1]);
                assert(('0' <= d[i - 1] <= '9') || ('A' <= d[i - 1] <= 'Z'));
            }
        }
        lemma_trim_no_ws(s);
        lemma_keep_all(s, none_of(seq!['_']));
        assert(cleaned_number(s) == s);
        assert(s[1] == d[0]);
        assert(('0' <= d[0] <= '9') || ('A' <= d[0] <= 'Z'));
        crate::text::lemma_lead_count(s, eq_pred('-'), 1);
        assert(s.skip(1) =~= d);
        assert(signed_value(m, true) == v);
    }
}

} // verus!
