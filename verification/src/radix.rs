//! Integer parsing and printing in a radix: the semantics of the standard
//! library's `from_str_radix` for unsigned types, and digit strings with
//! upper-case letters for digits above nine.
use vstd::prelude::*;

verus! {

/// Why a string is not an unsigned integer in a radix.
#[derive(Clone, Copy, Debug, PartialEq, Eq)]
pub enum IntErrorKind {
    Empty,
    InvalidDigit,
    PosOverflow,
}

impl IntErrorKind {
    /// The message that the standard library's `ParseIntError` displays.
    pub open spec fn spec_message(self) -> Seq<char> {
        match self {
            IntErrorKind::Empty => "cannot parse integer from empty string"@,
            IntErrorKind::InvalidDigit => "invalid digit found in string"@,
            IntErrorKind::PosOverflow => "number too large to fit in target type"@,
        }
    }
}

/// `char::to_digit(radix)`.
pub open spec fn digit_value(c: char, radix: nat) -> Option<nat> {
    let u = c as u32;
    let v: nat = if 48 <= u && u <= 57 {
        (u - 48) as nat
    } else if 97 <= u && u <= 122 {
        (u - 97 + 10) as nat
    } else if 65 <= u && u <= 90 {
        (u - 65 + 10) as nat
    } else {
        36
    };
    if v < radix {
        Some(v)
    } else {
        None
    }
}

/// Left-to-right accumulation of the digits `ds`, failing on the first
/// character that is no digit or as soon as the value would exceed `max`.
pub open spec fn digits_value(ds: Seq<char>, radix: nat, max: nat) -> Result<nat, IntErrorKind>
    decreases ds.len(),
{
    if ds.len() == 0 {
        Ok(0)
    } else {
        match digits_value(ds.drop_last(), radix, max) {
            Err(e) => Err(e),
            Ok(acc) => match digit_value(ds.last(), radix) {
                None => Err(IntErrorKind::InvalidDigit),
                Some(d) => if acc * radix + d > max {
                    Err(IntErrorKind::PosOverflow)
                } else {
                    Ok(acc * radix + d)
                },
            },
        }
    }
}

/// `from_str_radix` of an unsigned integer type whose largest value is `max`.
pub open spec fn parse_unsigned(s: Seq<char>, radix: nat, max: nat) -> Result<nat, IntErrorKind> {
    if s.len() == 0 {
        Err(IntErrorKind::Empty)
    } else if (s[0] == '+' || s[0] == '-') && s.len() == 1 {
        Err(IntErrorKind::InvalidDigit)
    } else if s[0] == '+' {
        digits_value(s.drop_first(), radix, max)
    } else {
        digits_value(s, radix, max)
    }
}

pub fn to_digit(c: char, radix: u32) -> (res: Option<u32>)
    requires
        2 <= radix <= 36,
    ensures
        match res {
            Some(d) => digit_value(c, radix as nat) == Some(d as nat),
            None => digit_value(c, radix as nat) is None,
        },
{
    let u = c as u32;
    let v: u32 = if 48 <= u && u <= 57 {
        u - 48
    } else if 97 <= u && u <= 122 {
        u - 97 + 10
    } else if 65 <= u && u <= 90 {
        u - 65 + 10
    } else {
        36
    };
    if v < radix {
        Some(v)
    } else {
        None
    }
}

proof fn lemma_digits_value_bound(ds: Seq<char>, radix: nat, max: nat)
    ensures
        digits_value(ds, radix, max) matches Ok(v) ==> v <= max,
    decreases ds.len(),
{
    if ds.len() > 0 {
        lemma_digits_value_bound(ds.drop_last(), radix, max);
    }
}

/// Parses `s` as an unsigned integer in `radix` that is at most `max`.
pub fn parse_radix(s: &[char], radix: u32, max: u128) -> (res: Result<u128, IntErrorKind>)
    requires
        2 <= radix <= 36,
    ensures
        match res {
            Ok(v) => parse_unsigned(s@, radix as nat, max as nat) == Ok::<nat, IntErrorKind>(v as nat),
            Err(e) => parse_unsigned(s@, radix as nat, max as nat) == Err::<nat, IntErrorKind>(e),
        },
{
    if s.len() == 0 {
        return Err(IntErrorKind::Empty);
    }
    if (s[0] == '+' || s[0] == '-') && s.len() == 1 {
        return Err(IntErrorKind::InvalidDigit);
    }
    let start: usize = if s[0] == '+' { 1 } else { 0 };
    let ghost ds = s@.skip(start as int);
    assert(s[0] == '+' ==> ds == s@.drop_first());
    assert(s[0] != '+' ==> ds == s@);
    let mut acc: u128 = 0;
    let mut i: usize = start;
    while i < s.len()
        invariant
            start <= i <= s.len(),
            ds == s@.skip(start as int),
            2 <= radix <= 36,
            digits_value(ds.take(i - start), radix as nat, max as nat) == Ok::<nat, IntErrorKind>(acc as nat),
            parse_unsigned(s@, radix as nat, max as nat) == digits_value(ds, radix as nat, max as nat),
        decreases s.len() - i,
    {
        assert(ds.take(i - start + 1).drop_last() == ds.take(i - start));
        assert(ds.take(i - start + 1).last() == s@[i as int]);
        let d = match to_digit(s[i], radix) {
            Some(d) => d,
            None => {
                proof { lemma_digits_value_prefix_err(ds, radix as nat, max as nat, i - start + 1); }
                return Err(IntErrorKind::InvalidDigit);
            }
        };
        let next = match acc.checked_mul(radix as u128) {
            Some(m) => m.checked_add(d as u128),
            None => None,
        };
        match next {
            Some(n) => {
                if n > max {
                    proof { lemma_digits_value_prefix_err(ds, radix as nat, max as nat, i - start + 1); }
                    return Err(IntErrorKind::PosOverflow);
                }
                acc = n;
            }
            None => {
                proof {
                    lemma_digits_value_bound(ds.take(i - start), radix as nat, max as nat);
                    lemma_digits_value_prefix_err(ds, radix as nat, max as nat, i - start + 1);
                }
                return Err(IntErrorKind::PosOverflow);
            }
        }
        i = i + 1;
    }
    assert(ds.take(s.len() - start) == ds);
    Ok(acc)
}

/// An error on a prefix of the digits is the error of the whole.
pub proof fn lemma_digits_value_prefix_err(ds: Seq<char>, radix: nat, max: nat, k: int)
    requires
        0 <= k <= ds.len(),
        digits_value(ds.take(k), radix, max) is Err,
    ensures
        digits_value(ds, radix, max) == digits_value(ds.take(k), radix, max),
    decreases ds.len() - k,
{
    if k < ds.len() {
        assert(ds.take(k + 1).drop_last() == ds.take(k));
        lemma_digits_value_prefix_err(ds, radix, max, k + 1);
    } else {
        assert(ds.take(k) == ds);
    }
}

/// The digit character for `d < 36`: `0`-`9`, then `A`-`Z`.
pub open spec fn digit_char(d: nat) -> char {
    if d < 10 {
        (48 + d) as char
    } else {
        (55 + d) as char
    }
}

/// The digits of `n` in `radix`, most significant first, without leading zeros
/// (`"0"` for zero).
pub open spec fn digits_of(n: nat, radix: nat) -> Seq<char>
    decreases n,
{
    if radix < 2 || n < radix {
        seq![digit_char(n)]
    } else {
        proof {
            assert(n / radix < n) by (nonlinear_arith)
                requires
                    radix >= 2,
                    n >= radix,
            ;
        }
        digits_of(n / radix, radix).push(digit_char(n % radix))
    }
}

/// The digits of a number are the characters `0` to `9` and `A` to `Z`.
pub proof fn lemma_digit_chars(n: nat, radix: nat)
    requires
        2 <= radix <= 36,
    ensures
        digits_of(n, radix).len() >= 1,
        forall|i: int| 0 <= i < digits_of(n, radix).len() ==> ('0' <= #[trigger] digits_of(n, radix)[i] <= '9')
            || ('A' <= digits_of(n, radix)[i] <= 'Z'),
    decreases n,
{
    if n >= radix {
        assert(n / radix < n) by (nonlinear_arith)
            requires
                radix >= 2,
                n >= radix,
        ;
        lemma_digit_chars(n / radix, radix);
        let a = digits_of(n / radix, radix);
        assert(n % radix < radix);
        assert forall|i: int| 0 <= i < digits_of(n, radix).len() implies ('0' <= #[trigger] digits_of(n, radix)[i] <= '9')
            || ('A' <= digits_of(n, radix)[i] <= 'Z') by {
            if i < a.len() {
                assert(digits_of(n, radix)[i] == a[i]);
            }
        }
    }
}

/// Decimal digits are the characters `0` to `9`.
pub proof fn lemma_decimal_digits(n: nat)
    ensures
        forall|i: int| 0 <= i < digits_of(n, 10).len() ==> '0' <= #[trigger] digits_of(n, 10)[i] <= '9',
        digits_of(n, 10).len() >= 1,
    decreases n,
{
    if n >= 10 {
        lemma_decimal_digits(n / 10);
        let a = digits_of(n / 10, 10);
        assert(n % 10 < 10);
        assert forall|i: int| 0 <= i < digits_of(n, 10).len() implies '0' <= #[trigger] digits_of(n, 10)[i] <= '9' by {
            if i < a.len() {
                assert(digits_of(n, 10)[i] == a[i]);
            }
        }
    }
}

pub fn digit_to_char(d: u32) -> (c: char)
    requires
        d < 36,
    ensures
        c == digit_char(d as nat),
{
    if d < 10 {
        ((48 + d) as u8) as char
    } else {
        ((55 + d) as u8) as char
    }
}

/// The digits of `n` in `radix` (upper-case letters).
pub fn format_radix(n: u128, radix: u32) -> (res: Vec<char>)
    requires
        2 <= radix <= 36,
    ensures
        res@ == digits_of(n as nat, radix as nat),
    decreases n,
{
    let r = radix as u128;
    if n < r {
        let mut v: Vec<char> = Vec::new();
        v.push(digit_to_char(n as u32));
        v
    } else {
        assert(n / r < n) by (nonlinear_arith)
            requires
                r >= 2,
                n >= r,
        ;
        let mut v = format_radix(n / r, radix);
        v.push(digit_to_char((n % r) as u32));
        v
    }
}


proof fn lemma_digit_char_value(d: nat, radix: nat)
    requires
        d < radix <= 36,
    ensures
        digit_value(digit_char(d), radix) == Some(d),
        digit_char(d) != '+' && digit_char(d) != '-',
{
}

proof fn lemma_digits_of_len(n: nat, radix: nat)
    requires
        2 <= radix,
    ensures
        digits_of(n, radix).len() >= 1,
        digits_of(n, radix)[0] == digit_char(digits_first(n, radix)),
    decreases n,
{
    if n >= radix {
        assert(digits_first(n, radix) == digits_first(n / radix, radix));
        assert(n / radix < n) by (nonlinear_arith)
            requires
                radix >= 2,
                n >= radix,
        ;
        lemma_digits_of_len(n / radix, radix);
        assert(digits_of(n, radix)[0] == digits_of(n / radix, radix)[0]);
    }
}

/// The leading digit of `n` in `radix`.
pub open spec fn digits_first(n: nat, radix: nat) -> nat
    decreases n,
{
    if radix < 2 || n < radix {
        n
    } else {
        proof {
            assert(n / radix < n) by (nonlinear_arith)
                requires
                    radix >= 2,
                    n >= radix,
            ;
        }
        digits_first(n / radix, radix)
    }
}

proof fn lemma_digits_first_small(n: nat, radix: nat)
    requires
        2 <= radix,
    ensures
        digits_first(n, radix) < radix,
    decreases n,
{
    if n >= radix {
        assert(n / radix < n) by (nonlinear_arith)
            requires
                radix >= 2,
                n >= radix,
        ;
        lemma_digits_first_small(n / radix, radix);
    }
}

proof fn lemma_digits_value_of(n: nat, radix: nat, max: nat)
    requires
        2 <= radix <= 36,
        n <= max,
    ensures
        digits_value(digits_of(n, radix), radix, max) == Ok::<nat, IntErrorKind>(n),
    decreases n,
{
    let s = digits_of(n, radix);
    if n < radix {
        lemma_digit_char_value(n, radix);
        assert(s.drop_last() =~= Seq::<char>::empty());
        assert(s.last() == digit_char(n));
        assert(digits_value(s.drop_last(), radix, max) == Ok::<nat, IntErrorKind>(0));
        assert(0 * radix + n == n) by (nonlinear_arith);
    } else {
        let q = n / radix;
        let r = n % radix;
        assert(q < n && q * radix + r == n && r < radix) by (nonlinear_arith)
            requires
                radix >= 2,
                n >= radix,
                q == n / radix,
                r == n % radix,
        ;
        lemma_digits_value_of(q, radix, max);
        lemma_digit_char_value(r, radix);
        assert(s.drop_last() =~= digits_of(q, radix));
        assert(s.last() == digit_char(r));
    }
}

/// Reading the printed digits of a number gives the number back: for every
/// `n` up to `max`, `from_str_radix` semantics on `digits_of(n, radix)` yield `n`.
pub proof fn radix_round_trip(n: nat, radix: nat, max: nat)
    requires
        2 <= radix <= 36,
        n <= max,
    ensures
        parse_unsigned(digits_of(n, radix), radix, max) == Ok::<nat, IntErrorKind>(n),
{
    lemma_digits_value_of(n, radix, max);
    lemma_digits_of_len(n, radix);
    lemma_digits_first_small(n, radix);
    lemma_digit_char_value(digits_first(n, radix), radix);
}

} // verus!
