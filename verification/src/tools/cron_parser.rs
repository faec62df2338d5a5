//! Validation, explanation and run-time preview of five-field cron expressions.
use crate::radix::{parse_radix, parse_unsigned};
use crate::text::{
    chars_eq_str, chars_of, join, push_str, split_char, split_on, split_once, split_once_char,
    split_ws, starts_with_str, strip_prefix, strip_prefix_str, string_of, words, append_chars,
};
use chrono::{Datelike, Timelike};
use vstd::prelude::*;

verus! {

/// The value of a decimal field that fits in a `u8`.
pub open spec fn u8_of(p: Seq<char>) -> Option<nat> {
    match parse_unsigned(p, 10, 255) {
        Ok(v) => Some(v),
        Err(_) => None,
    }
}

pub open spec fn within(v: Option<nat>, lo: nat, hi: nat) -> bool {
    match v {
        Some(x) => lo <= x && x <= hi,
        None => false,
    }
}

/// Whether one comma-separated part of a field is `*`, a value, or a range of
/// two values within bounds, optionally followed by `/` and a positive step.
pub open spec fn part_ok(part: Seq<char>, lo: nat, hi: nat) -> bool {
    let core = match split_once(part, '/') {
        Some((a, b)) => if (u8_of(b) matches Some(n) && n > 0) {
            a
        } else {
            "!"@
        },
        None => part,
    };
    if core == "*"@ {
        true
    } else {
        match split_once(core, '-') {
            Some((a, b)) => within(u8_of(a), lo, hi) && within(u8_of(b), lo, hi),
            None => within(u8_of(core), lo, hi),
        }
    }
}

/// Whether every comma-separated part of a field is well formed.
pub open spec fn field_ok(field: Seq<char>, lo: nat, hi: nat) -> bool {
    forall|i: int| 0 <= i < split_on(field, ',').len() ==> part_ok(#[trigger] split_on(field, ',')[i], lo, hi)
}

fn u8_field(p: &[char]) -> (res: Option<u8>)
    ensures
        match res {
            Some(v) => u8_of(p@) == Some(v as nat),
            None => u8_of(p@) is None,
        },
{
    match parse_radix(p, 10, 255) {
        Ok(v) => Some(v as u8),
        Err(_) => None,
    }
}

fn within_exec(v: Option<u8>, lo: u8, hi: u8) -> (res: bool)
    ensures
        res == within(
            match v {
                Some(x) => Some(x as nat),
                None => None,
            },
            lo as nat,
            hi as nat,
        ),
{
    match v {
        Some(x) => lo <= x && x <= hi,
        None => false,
    }
}

fn part_valid(part: &[char], lo: u8, hi: u8) -> (res: bool)
    ensures
        res == part_ok(part@, lo as nat, hi as nat),
{
    let core: Vec<char> = match split_once_char(part, '/') {
        Some((a, b)) => {
            match u8_field(b.as_slice()) {
                Some(n) => if n > 0 {
                    a
                } else {
                    chars_of("!")
                },
                None => chars_of("!"),
            }
        },
        None => crate::text::slice_to_vec(part, 0, part.len()),
    };
    assert(part@.subrange(0, part@.len() as int) == part@);
    if chars_eq_str(core.as_slice(), "*") {
        return true;
    }
    match split_once_char(core.as_slice(), '-') {
        Some((a, b)) => within_exec(u8_field(a.as_slice()), lo, hi) && within_exec(u8_field(b.as_slice()), lo, hi),
        None => within_exec(u8_field(core.as_slice()), lo, hi),
    }
}

/// Whether a field is well formed for values between `range.0` and `range.1`:
/// every comma-separated part is `*`, a value, or a range of two values
/// within bounds, optionally followed by `/` and a positive step.
pub fn validate_field(field: &str, range: (u8, u8)) -> (res: bool)
    ensures
        res == field_ok(field@, range.0 as nat, range.1 as nat),
{
    let lo = range.0;
    let hi = range.1;
    let cs = chars_of(field);
    let parts = split_char(cs.as_slice(), ',');
    let mut i: usize = 0;
    while i < parts.len()
        invariant
            i <= parts.len(),
            parts.deep_view() == split_on(field@, ','),
            lo == range.0 && hi == range.1,
            forall|j: int| 0 <= j < i ==> part_ok(#[trigger] split_on(field@, ',')[j], lo as nat, hi as nat),
        decreases parts.len() - i,
    {
        assert(parts.deep_view()[i as int] =~= parts[i as int]@);
        if !part_valid(parts[i].as_slice(), lo, hi) {
            assert(i < split_on(field@, ',').len());
            assert(!part_ok(split_on(field@, ',')[i as int], lo as nat, hi as nat));
            assert(!field_ok(field@, lo as nat, hi as nat));
            return false;
        }
        i = i + 1;
    }
    true
}

/// The values `a`, `a + 1`, ..., `b` (none when `a > b`).
pub open spec fn range_values(a: nat, b: nat) -> Seq<nat> {
    Seq::new(if a <= b { (b - a + 1) as nat } else { 0 }, |i: int| (a + i) as nat)
}

/// `x.max(lo).min(hi)`.
pub open spec fn clamp(x: nat, lo: nat, hi: nat) -> nat {
    let y = if x < lo { lo } else { x };
    if y > hi { hi } else { y }
}

pub open spec fn unwrap_or(v: Option<nat>, d: nat) -> nat {
    match v {
        Some(x) => x,
        None => d,
    }
}

/// The step of a part: the number after `/`, at least 1, 1 when absent or
/// unreadable.
pub open spec fn field_step(part: Seq<char>) -> nat {
    match split_once(part, '/') {
        Some((_, b)) => match u8_of(b) {
            Some(n) => if n >= 1 { n } else { 1 },
            None => 1,
        },
        None => 1,
    }
}

/// The part without its step.
pub open spec fn field_core(part: Seq<char>) -> Seq<char> {
    match split_once(part, '/') {
        Some((a, _)) => a,
        None => part,
    }
}

/// The first and last value that the core of a part stands for: all values
/// for `*`, the clamped bounds of a range `a-b`, the value itself for `n`
/// within bounds; `first > last` when it stands for none.
pub open spec fn part_bounds(core: Seq<char>, lo: nat, hi: nat) -> (nat, nat) {
    if core == "*"@ {
        (lo, hi)
    } else {
        match split_once(core, '-') {
            Some((a, b)) => (clamp(unwrap_or(u8_of(a), lo), lo, hi), clamp(unwrap_or(u8_of(b), hi), lo, hi)),
            None => match u8_of(core) {
                Some(v) => if lo <= v && v <= hi { (v, v) } else { (1, 0) },
                None => (1, 0),
            },
        }
    }
}

/// Whether one comma-separated part selects `v`: `v` lies between the
/// part's first and last value, and with a step `/k` it is one of every
/// `k`-th values counted from the first.
pub open spec fn part_selects(part: Seq<char>, lo: nat, hi: nat, v: nat) -> bool {
    let (first, last) = part_bounds(field_core(part), lo, hi);
    first <= v && v <= last && (v - first) % (field_step(part) as int) == 0
}

/// Whether some comma-separated part of a field selects `v`.
pub open spec fn field_selects(field: Seq<char>, lo: nat, hi: nat, v: nat) -> bool {
    exists|i: int| 0 <= i < split_on(field, ',').len() && #[trigger] part_selects(split_on(field, ',')[i], lo, hi, v)
}

pub open spec fn selected_by(field: Seq<char>, lo: nat, hi: nat) -> spec_fn(nat) -> bool {
    |v: nat| field_selects(field, lo, hi, v)
}

/// The values that a field selects, in increasing order: the union of what
/// its comma-separated parts select.
pub open spec fn expand_spec(field: Seq<char>, lo: nat, hi: nat) -> Seq<nat> {
    range_values(lo, hi).filter(selected_by(field, lo, hi))
}

/// The values `a`, `a + 1`, ..., `b - 1`.
pub open spec fn range_upto(a: nat, b: nat) -> Seq<nat> {
    Seq::new(if a <= b { (b - a) as nat } else { 0 }, |i: int| (a + i) as nat)
}

/// The first value, last value and step computed for a part.
pub open spec fn shape_of(sh: (u8, u8, u8), part: Seq<char>, lo: u8, hi: u8) -> bool {
    &&& (sh.0 as nat, sh.1 as nat) == part_bounds(field_core(part), lo as nat, hi as nat)
    &&& sh.2 as nat == field_step(part)
    &&& sh.2 >= 1
}

pub open spec fn as_nats(v: Seq<u8>) -> Seq<nat> {
    v.map_values(|x: u8| x as nat)
}

fn clamp_exec(x: u8, lo: u8, hi: u8) -> (res: u8)
    ensures
        res as nat == clamp(x as nat, lo as nat, hi as nat),
{
    let y = if x < lo { lo } else { x };
    if y > hi { hi } else { y }
}

/// The first value, last value and step of one part.
fn part_shape(part: &[char], lo: u8, hi: u8) -> (res: (u8, u8, u8))
    ensures
        (res.0 as nat, res.1 as nat) == part_bounds(field_core(part@), lo as nat, hi as nat),
        res.2 as nat == field_step(part@),
        res.2 >= 1,
{
    let (core, step): (Vec<char>, u8) = match split_once_char(part, '/') {
        Some((a, b)) => {
            let st = match u8_field(b.as_slice()) {
                Some(n) => if n >= 1 { n } else { 1 },
                None => 1,
            };
            (a, st)
        },
        None => (crate::text::slice_to_vec(part, 0, part.len()), 1),
    };
    assert(part@.subrange(0, part@.len() as int) == part@);
    assert(core@ == field_core(part@));
    if chars_eq_str(core.as_slice(), "*") {
        return (lo, hi, step);
    }
    match split_once_char(core.as_slice(), '-') {
        Some((a, b)) => {
            let first = clamp_exec(match u8_field(a.as_slice()) { Some(v) => v, None => lo }, lo, hi);
            let last = clamp_exec(match u8_field(b.as_slice()) { Some(v) => v, None => hi }, lo, hi);
            (first, last, step)
        },
        None => match u8_field(core.as_slice()) {
            Some(v) => if lo <= v && v <= hi { (v, v, step) } else { (1, 0, step) },
            None => (1, 0, step),
        },
    }
}

/// Every value that a field selects lies within the field's bounds.
pub proof fn lemma_expand_within(field: Seq<char>, lo: nat, hi: nat)
    ensures
        forall|i: int| 0 <= i < expand_spec(field, lo, hi).len() ==> lo <= #[trigger] expand_spec(field, lo, hi)[i] <= hi,
{
    let r = range_values(lo, hi);
    let f = expand_spec(field, lo, hi);
    assert forall|i: int| 0 <= i < f.len() implies lo <= #[trigger] f[i] <= hi by {
        assert(f.contains(f[i]));
        r.lemma_filter_contains_rev(selected_by(field, lo, hi), f[i]);
    }
}

/// The values that a field selects between `range.0` and `range.1`, in
/// increasing order: each comma-separated part is `*` (every value), `a-b`
/// (the clamped range) or `n`, and with `/k` keeps every `k`-th of its
/// values from the first.
pub fn expand_field(field: &str, range: (u8, u8)) -> (res: Vec<u8>)
    ensures
        as_nats(res@) == expand_spec(field@, range.0 as nat, range.1 as nat),
        forall|i: int, j: int| 0 <= i < j < res@.len() ==> res@[i] < res@[j],
        forall|v: nat| #[trigger] as_nats(res@).contains(v)
            <==> (range.0 <= v <= range.1 && field_selects(field@, range.0 as nat, range.1 as nat, v)),
{
    let lo = range.0;
    let hi = range.1;
    let ghost pred = selected_by(field@, lo as nat, hi as nat);
    let fc = chars_of(field);
    let parts = split_char(fc.as_slice(), ',');
    let mut shapes: Vec<(u8, u8, u8)> = Vec::new();
    let mut i: usize = 0;
    while i < parts.len()
        invariant
            i <= parts.len(),
            parts.deep_view() == split_on(field@, ','),
            shapes@.len() == i,
            forall|j: int| 0 <= j < i ==> #[trigger] shape_of(shapes@[j], split_on(field@, ',')[j], lo, hi),
        decreases parts.len() - i,
    {
        assert(parts.deep_view()[i as int] =~= parts[i as int]@);
        let sh = part_shape(parts[i].as_slice(), lo, hi);
        let ghost before = shapes@;
        shapes.push(sh);
        assert forall|j: int| 0 <= j < i + 1 implies #[trigger] shape_of(shapes@[j], split_on(field@, ',')[j], lo, hi) by {
            if j < i {
                assert(shapes@[j] == before[j]);
            }
        }
        i = i + 1;
    }
    let mut res: Vec<u8> = Vec::new();
    let mut v: u16 = lo as u16;
    if lo > hi {
        proof {
            assert(range_values(lo as nat, hi as nat) =~= Seq::<nat>::empty());
            reveal(Seq::filter);
            assert(as_nats(res@) =~= Seq::<nat>::empty());
        }
        return res;
    }
    proof {
        reveal(Seq::filter);
        assert(range_upto(lo as nat, v as nat) =~= Seq::<nat>::empty());
        assert(as_nats(res@) =~= Seq::<nat>::empty());
    }
    while v <= hi as u16
        invariant
            lo <= hi,
            lo <= v <= hi as u16 + 1,
            shapes@.len() == split_on(field@, ',').len(),
            pred == selected_by(field@, lo as nat, hi as nat),
            forall|j: int| 0 <= j < shapes@.len() ==> #[trigger] shape_of(shapes@[j], split_on(field@, ',')[j], lo, hi),
            as_nats(res@) == range_upto(lo as nat, v as nat).filter(pred),
            forall|a: int, b: int| 0 <= a < b < res@.len() ==> res@[a] < res@[b],
            forall|a: int| 0 <= a < res@.len() ==> res@[a] < v,
            forall|x: nat| #[trigger] as_nats(res@).contains(x)
                <==> (lo <= x < v && field_selects(field@, lo as nat, hi as nat, x)),
        decreases hi as u16 + 1 - v,
    {
        let mut hit = false;
        let mut j: usize = 0;
        while j < shapes.len()
            invariant
                j <= shapes.len(),
                lo <= v <= hi as u16,
                shapes@.len() == split_on(field@, ',').len(),
                forall|q: int| 0 <= q < shapes@.len() ==> #[trigger] shape_of(shapes@[q], split_on(field@, ',')[q], lo, hi),
                hit == exists|q: int| 0 <= q < j && #[trigger] part_selects(split_on(field@, ',')[q], lo as nat, hi as nat, v as nat),
            decreases shapes.len() - j,
        {
            let (first, last, step) = shapes[j];
            assert(shape_of(shapes@[j as int], split_on(field@, ',')[j as int], lo, hi));
            let here = first as u16 <= v && v <= last as u16 && (v - first as u16) % (step as u16) == 0;
            assert(here == part_selects(split_on(field@, ',')[j as int], lo as nat, hi as nat, v as nat));
            if here {
                hit = true;
            }
            j = j + 1;
        }
        assert(hit == field_selects(field@, lo as nat, hi as nat, v as nat));
        let ghost before = res@;
        let ghost r0 = range_upto(lo as nat, v as nat);
        let ghost r1 = range_upto(lo as nat, (v + 1) as nat);
        assert(r1.drop_last() =~= r0);
        assert(r1.last() == v as nat);
        proof {
            reveal(Seq::filter);
        }
        if hit {
            res.push(v as u8);
            assert(as_nats(res@) =~= as_nats(before).push(v as nat));
        } else {
            assert(as_nats(res@) =~= as_nats(before));
        }
        assert(as_nats(res@) == r1.filter(pred));
        assert forall|x: nat| #[trigger] as_nats(res@).contains(x)
            <==> (lo <= x < v + 1 && field_selects(field@, lo as nat, hi as nat, x)) by {
            if as_nats(res@).contains(x) {
                let a = choose|a: int| 0 <= a < as_nats(res@).len() && as_nats(res@)[a] == x;
                if a < before.len() {
                    assert(as_nats(before)[a] == x);
                    assert(as_nats(before).contains(x));
                }
            }
            if lo <= x < v && field_selects(field@, lo as nat, hi as nat, x) {
                assert(as_nats(before).contains(x));
                let a = choose|a: int| 0 <= a < as_nats(before).len() && as_nats(before)[a] == x;
                assert(as_nats(res@)[a] == x);
            }
            if x == v && hit {
                assert(as_nats(res@)[res@.len() - 1] == x);
            }
        }
        v = v + 1;
    }
    assert(range_upto(lo as nat, v as nat) =~= range_values(lo as nat, hi as nat));
    res
}

/// The bounds of the five fields: minute, hour, day of month, month, day of
/// week. Day of week 7 is accepted, but weekdays are counted from Sunday as
/// 0 up to Saturday as 6, so 7 never matches.
pub open spec fn field_range(i: int) -> (nat, nat) {
    if i == 0 {
        (0, 59)
    } else if i == 1 {
        (0, 23)
    } else if i == 2 {
        (1, 31)
    } else if i == 3 {
        (1, 12)
    } else {
        (0, 7)
    }
}

/// The names of the five fields.
pub open spec fn field_name(i: int) -> Seq<char> {
    if i == 0 {
        "Minute"@
    } else if i == 1 {
        "Hour"@
    } else if i == 2 {
        "Day of month"@
    } else if i == 3 {
        "Month"@
    } else {
        "Day of week"@
    }
}

fn range_of(i: usize) -> (res: (u8, u8))
    requires
        i < 5,
    ensures
        (res.0 as nat, res.1 as nat) == field_range(i as int),
{
    if i == 0 {
        (0, 59)
    } else if i == 1 {
        (0, 23)
    } else if i == 2 {
        (1, 31)
    } else if i == 3 {
        (1, 12)
    } else {
        (0, 7)
    }
}

fn name_of(i: usize) -> (res: &'static str)
    requires
        i < 5,
    ensures
        res@ == field_name(i as int),
{
    if i == 0 {
        "Minute"
    } else if i == 1 {
        "Hour"
    } else if i == 2 {
        "Day of month"
    } else if i == 3 {
        "Month"
    } else {
        "Day of week"
    }
}

/// The first of the fields, from the `i`-th on, that is not well formed.
pub open spec fn first_bad_field(fields: Seq<Seq<char>>, i: int) -> Option<int>
    decreases 5 - i,
{
    if i >= 5 || i < 0 {
        None
    } else if !field_ok(fields[i], field_range(i).0, field_range(i).1) {
        Some(i)
    } else {
        first_bad_field(fields, i + 1)
    }
}

/// Why an expression is not a well-formed five-field cron expression, if it
/// is not one.
pub open spec fn cron_check(value: Seq<char>) -> Result<(), Seq<char>> {
    let f = words(value);
    if f.len() != 5 {
        Err("Expected five fields: minute hour day-of-month month day-of-week"@)
    } else {
        match first_bad_field(f, 0) {
            Some(i) => Err("Invalid "@ + field_name(i) + " field: "@ + f[i]),
            None => Ok(()),
        }
    }
}

/// Splits an expression into its five fields and checks each of them.
fn check_fields(value: &str) -> (res: Result<Vec<Vec<char>>, String>)
    ensures
        match res {
            Ok(f) => cron_check(value@) is Ok && f.deep_view() == words(value@),
            Err(e) => cron_check(value@) == Err::<(), Seq<char>>(e@),
        },
{
    let cs = chars_of(value);
    let fields = split_ws(cs.as_slice());
    if fields.len() != 5 {
        return Err(string_of(chars_of("Expected five fields: minute hour day-of-month month day-of-week").as_slice()));
    }
    let mut i: usize = 0;
    while i < 5
        invariant
            i <= 5,
            fields.len() == 5,
            fields.deep_view() == words(value@),
            first_bad_field(words(value@), 0) == first_bad_field(words(value@), i as int),
        decreases 5 - i,
    {
        assert(fields.deep_view()[i as int] =~= fields[i as int]@);
        let fs = string_of(fields[i].as_slice());
        if !validate_field(fs.as_str(), range_of(i)) {
            let mut msg: Vec<char> = Vec::new();
            push_str(&mut msg, "Invalid ");
            push_str(&mut msg, name_of(i));
            push_str(&mut msg, " field: ");
            append_chars(&mut msg, fields[i].as_slice());
            return Err(string_of(msg.as_slice()));
        }
        i = i + 1;
    }
    Ok(fields)
}

/// How a field is explained: `*` is every value, `*/n` every n-th value,
/// anything else is shown as written.
pub open spec fn describe_spec(v: Seq<char>) -> Seq<char> {
    if v == "*"@ {
        "every value"@
    } else {
        match strip_prefix(v, "*/"@) {
            Some(step) => "every "@ + step,
            None => v,
        }
    }
}

pub fn describe(v: &str) -> (res: String)
    ensures
        res@ == describe_spec(v@),
{
    let vc = chars_of(v);
    if chars_eq_str(vc.as_slice(), "*") {
        return string_of(chars_of("every value").as_slice());
    }
    match strip_prefix_str(vc.as_slice(), "*/") {
        Some(step) => {
            let mut out = chars_of("every ");
            append_chars(&mut out, step.as_slice());
            string_of(out.as_slice())
        },
        None => string_of(vc.as_slice()),
    }
}

/// The calendar fields (month, day of month, day of week counted from Sunday
/// as 0, hour, minute) of a UTC time given in seconds since the Unix epoch;
/// `None` outside the range of representable dates.
pub uninterp spec fn utc_fields_of(secs: int) -> Option<(u8, u8, u8, u8, u8)>;

/// The RFC 3339 text of a UTC time given in seconds since the Unix epoch;
/// `None` outside the range of representable dates.
pub uninterp spec fn rfc3339_of(secs: int) -> Option<Seq<char>>;

/// Calls `chrono::DateTime::from_timestamp` and reads the month, day, weekday
/// (`num_days_from_sunday`), hour and minute of the result. The contract
/// names the result, states the ranges that chrono documents for each field,
/// and that times within 8 * 10^12 seconds (about 253,000 years) of the
/// epoch are in range: chrono's dates reach the years -262143 and 262142.
#[verifier::external_body]
fn utc_fields(secs: i64) -> (res: Option<(u8, u8, u8, u8, u8)>)
    ensures
        res == utc_fields_of(secs as int),
        -8_000_000_000_000 <= secs <= 8_000_000_000_000 ==> res is Some,
        res matches Some((mo, d, wd, h, mi)) ==> 1 <= mo <= 12 && 1 <= d <= 31 && wd <= 6 && h <= 23 && mi <= 59,
{
    chrono::DateTime::from_timestamp(secs, 0).map(|dt| {
        (
            dt.month() as u8,
            dt.day() as u8,
            dt.weekday().num_days_from_sunday() as u8,
            dt.hour() as u8,
            dt.minute() as u8,
        )
    })
}

/// Calls `chrono::DateTime::from_timestamp` and `DateTime::to_rfc3339`. The
/// result is named; it is present exactly when `from_timestamp` succeeds,
/// as for `utc_fields`.
#[verifier::external_body]
fn rfc3339(secs: i64) -> (res: Option<String>)
    ensures
        match res {
            Some(s) => rfc3339_of(secs as int) == Some(s@),
            None => rfc3339_of(secs as int) is None,
        },
        res is Some <==> utc_fields_of(secs as int) is Some,
{
    chrono::DateTime::from_timestamp(secs, 0).map(|dt| dt.to_rfc3339())
}

#[verifier::external_type_specification]
#[verifier::external_body]
pub struct ExSystemTime(std::time::SystemTime);

#[verifier::external_type_specification]
#[verifier::external_body]
pub struct ExSystemTimeError(std::time::SystemTimeError);

/// Calls `std::time::SystemTime::now`. Nothing is promised of the reading:
/// it is the clock's.
#[verifier::external_body]
fn clock_now() -> (res: std::time::SystemTime) {
    std::time::SystemTime::now()
}

/// Calls `SystemTime::duration_since(UNIX_EPOCH)`: the time since the epoch,
/// or an error when the reading lies before it. Nothing is promised of the
/// span: it is the clock's.
#[verifier::external_body]
fn since_epoch(t: &std::time::SystemTime) -> (res: Result<core::time::Duration, std::time::SystemTimeError>) {
    t.duration_since(std::time::UNIX_EPOCH)
}

/// Calls `SystemTimeError::duration`: how far the reading lies before the
/// epoch.
#[verifier::external_body]
fn span_before(e: &std::time::SystemTimeError) -> (res: core::time::Duration) {
    e.duration()
}

/// Calls `Duration::as_secs`: the whole seconds of a span.
#[verifier::external_body]
fn whole_seconds(d: &core::time::Duration) -> (res: u64) {
    d.as_secs()
}

/// The current time in whole seconds since the Unix epoch, read from the
/// system clock: negative before the epoch, and held within the range of
/// `i64`. Reading the clock never fails.
fn now_seconds() -> (res: i64) {
    match since_epoch(&clock_now()) {
        Ok(d) => {
            let s = whole_seconds(&d);
            if s > i64::MAX as u64 {
                i64::MAX
            } else {
                s as i64
            }
        },
        Err(e) => {
            let s = whole_seconds(&span_before(&e));
            if s > i64::MAX as u64 {
                -i64::MAX
            } else {
                -(s as i64)
            }
        },
    }
}

/// The values that each of the five fields of a valid expression selects.
pub open spec fn cron_lists(value: Seq<char>) -> Seq<Seq<nat>> {
    let f = words(value);
    Seq::new(5, |i: int| expand_spec(f[i], field_range(i).0, field_range(i).1))
}

/// Whether calendar fields match the five value lists.
pub open spec fn fields_match(f: (u8, u8, u8, u8, u8), lists: Seq<Seq<nat>>) -> bool {
    let (mo, d, wd, h, mi) = f;
    &&& lists[0].contains(mi as nat)
    &&& lists[1].contains(h as nat)
    &&& lists[2].contains(d as nat)
    &&& lists[3].contains(mo as nat)
    &&& lists[4].contains(wd as nat)
}

/// Whether the minute `t` (counted from the Unix epoch) matches the lists.
#[verifier::opaque]
pub open spec fn minute_matches(t: int, lists: Seq<Seq<nat>>) -> bool {
    match utc_fields_of(t * 60) {
        Some(f) => fields_match(f, lists),
        None => false,
    }
}

/// What `next_runs` guarantees of the run times it finds: `count` times on
/// whole minutes, strictly increasing, each matching the expression, and
/// no matching minute skipped between two of them.
pub open spec fn runs_ok(value: Seq<char>, count: nat, runs: Seq<i64>) -> bool {
    let lists = cron_lists(value);
    &&& runs.len() == count
    &&& forall|i: int| 0 <= i < runs.len() ==> #[trigger] runs[i] % 60 == 0 && minute_matches(runs[i] / 60, lists)
    &&& forall|i: int| 0 <= i < runs.len() - 1 ==> #[trigger] runs[i] < runs[i + 1]
    &&& forall|i: int, t: int|
        #![trigger runs[i], minute_matches(t, lists)]
        0 <= i < runs.len() - 1 && runs[i] / 60 < t < runs[i + 1] / 60 ==> !minute_matches(t, lists)
}

pub open spec fn no_runs_message() -> Seq<char> {
    "No matching run time found in the next four years"@
}

pub open spec fn out_of_dates_message() -> Seq<char> {
    "Next run time lies beyond the supported date range"@
}

fn contains_u8(v: &Vec<u8>, x: u8) -> (res: bool)
    ensures
        res == as_nats(v@).contains(x as nat),
{
    let mut i: usize = 0;
    while i < v.len()
        invariant
            i <= v.len(),
            forall|j: int| 0 <= j < i ==> v@[j] != x,
        decreases v.len() - i,
    {
        if v[i] == x {
            assert(as_nats(v@)[i as int] == x as nat);
            return true;
        }
        i = i + 1;
    }
    assert forall|j: int| 0 <= j < as_nats(v@).len() implies as_nats(v@)[j] != x as nat by {
        assert(v@[j] != x);
    }
    false
}

/// Whether calendar fields (month, day, weekday, hour, minute) are each in
/// their list of allowed values.
fn matches_cron(f: (u8, u8, u8, u8, u8), minutes: &Vec<u8>, hours: &Vec<u8>, dom: &Vec<u8>, months: &Vec<u8>, dow: &Vec<u8>) -> (res: bool)
    ensures
        res == fields_match(f, seq![as_nats(minutes@), as_nats(hours@), as_nats(dom@), as_nats(months@), as_nats(dow@)]),
{
    let (mo, d, wd, h, mi) = f;
    contains_u8(minutes, mi) && contains_u8(hours, h) && contains_u8(dom, d) && contains_u8(months, mo)
        && contains_u8(dow, wd)
}

/// The minute (counted from the Unix epoch) that contains a second.
fn minute_of(secs: i64) -> (m: i64)
    ensures
        m * 60 <= secs < m * 60 + 60,
{
    if secs >= 0 {
        secs / 60
    } else {
        let q = (-(secs + 1)) / 60;
        -q - 1
    }
}

fn field_text(fields: &Vec<Vec<char>>, i: usize) -> (res: String)
    requires
        i < fields.len(),
    ensures
        res@ == fields.deep_view()[i as int],
{
    assert(fields.deep_view()[i as int] =~= fields[i as int]@);
    string_of(fields[i].as_slice())
}

/// The seconds in four years of 366 days: how far ahead the search for a
/// first run goes.
pub open spec fn four_years() -> int {
    86_400int * 366 * 4
}

/// The last minute (counted from the Unix epoch) that the search may try.
pub open spec fn search_limit() -> int {
    i64::MAX / 60 - 1
}

/// The minute that contains the second `now`; the search starts after it.
pub open spec fn start_minute(now: int) -> int {
    now / 60
}

/// The last minute that may hold the first run: the first minute that
/// starts more than four years after `now`.
pub open spec fn last_first_minute(now: int) -> int {
    (now + four_years()) / 60 + 1
}

/// Whether the search can read the calendar fields of minute `t`.
#[verifier::opaque]
pub open spec fn minute_known(t: int) -> bool {
    t <= search_limit() && utc_fields_of(t * 60) is Some
}

/// The search for run times after minute `cand`, with `runs` found so far:
/// minute by minute, each minute kept when it matches, until `count` runs
/// are found; it fails when a minute cannot be read, or when no run is
/// found by the first minute more than four years after `now`.
#[verifier::opaque]
pub open spec fn search(lists: Seq<Seq<nat>>, count: nat, now: int, cand: int, runs: Seq<i64>) -> Result<Seq<i64>, Seq<char>>
    decreases search_limit() - cand,
{
    if runs.len() >= count {
        Ok(runs)
    } else if cand >= search_limit() {
        Err(out_of_dates_message())
    } else {
        let t = cand + 1;
        match utc_fields_of(t * 60) {
            None => Err(out_of_dates_message()),
            Some(f) => {
                let found = if fields_match(f, lists) { runs.push((t * 60) as i64) } else { runs };
                if found.len() == 0 && t * 60 > now + four_years() {
                    Err(no_runs_message())
                } else {
                    search(lists, count, now, t, found)
                }
            },
        }
    }
}

/// One step of the search: done with `count` runs, out of dates at the
/// limit or at an unreadable minute, "no run" past the reach with none
/// found, and otherwise the search from the next minute.
proof fn lemma_search_step(lists: Seq<Seq<nat>>, count: nat, now: int, cand: int, runs: Seq<i64>)
    ensures
        runs.len() >= count ==> search(lists, count, now, cand, runs) == Ok::<Seq<i64>, Seq<char>>(runs),
        runs.len() < count && cand >= search_limit() ==> search(lists, count, now, cand, runs)
            == Err::<Seq<i64>, Seq<char>>(out_of_dates_message()),
        runs.len() < count && cand < search_limit() && utc_fields_of((cand + 1) * 60) is None ==> search(
            lists,
            count,
            now,
            cand,
            runs,
        ) == Err::<Seq<i64>, Seq<char>>(out_of_dates_message()),
        runs.len() < count ==> (cand < search_limit() ==> (utc_fields_of((cand + 1) * 60) matches Some(f) ==> {
            let found = if fields_match(f, lists) { runs.push(((cand + 1) * 60) as i64) } else { runs };
            search(lists, count, now, cand, runs) == if found.len() == 0 && (cand + 1) * 60 > now + four_years() {
                Err(no_runs_message())
            } else {
                search(lists, count, now, cand + 1, found)
            }
        })),
{
    reveal(search);
}

/// What `next_runs_from` returns.
pub open spec fn next_runs_from_spec(value: Seq<char>, count: nat, now: int) -> Result<Seq<i64>, Seq<char>> {
    match cron_check(value) {
        Err(m) => Err(m),
        Ok(_) => search(cron_lists(value), count, now, start_minute(now), Seq::empty()),
    }
}

/// No minute from the one after `now` to the last that may hold the first
/// run matches, and each of them can be read.
pub open spec fn no_run_in_reach(value: Seq<char>, now: int) -> bool {
    forall|t: int|
        #![trigger minute_known(t)]
        #![trigger minute_matches(t, cron_lists(value))]
        start_minute(now) < t <= last_first_minute(now) ==> minute_known(t) && !minute_matches(t, cron_lists(value))
}

/// There are `count` matching minutes after `now`, the first of them within
/// reach, and every minute up to the last of them can be read.
pub open spec fn runs_in_reach(value: Seq<char>, count: nat, now: int) -> bool {
    exists|ts: Seq<int>|
        #![trigger ts.len(), runs_in_reach_witness(value, count, now, ts)]
        runs_in_reach_witness(value, count, now, ts)
}

/// `ts` holds `count` increasing matching minutes after `now`, the first
/// within reach, with every minute up to the last readable.
pub open spec fn runs_in_reach_witness(value: Seq<char>, count: nat, now: int, ts: Seq<int>) -> bool {
    &&& ts.len() == count
    &&& forall|i: int, j: int| 0 <= i < j < ts.len() ==> ts[i] < ts[j]
    &&& forall|i: int| 0 <= i < ts.len() ==> start_minute(now) < #[trigger] ts[i] && minute_matches(ts[i], cron_lists(value))
    &&& count > 0 ==> ts[0] <= last_first_minute(now) && forall|t: int| start_minute(now) < t <= ts.last() ==> #[trigger] minute_known(t)
}

/// What the search guarantees of its outcome, besides equalling
/// `next_runs_from_spec`: the runs are the first `count` matching minutes
/// after `now` (none skipped, the first within reach, every minute up to the
/// last one readable); "no run" exactly when no minute within reach
/// matches; "beyond the supported date range" only at an unreadable minute
/// with every earlier minute readable.
pub open spec fn runs_from_ok(value: Seq<char>, count: nat, now: int, outcome: Result<Seq<i64>, Seq<char>>) -> bool {
    let lists = cron_lists(value);
    let m0 = start_minute(now);
    &&& outcome == next_runs_from_spec(value, count, now)
    &&& match outcome {
        Ok(runs) => {
            &&& cron_check(value) is Ok
            &&& runs_ok(value, count, runs)
            &&& count > 0 ==> {
                &&& m0 < runs[0] / 60 <= last_first_minute(now)
                &&& forall|t: int| m0 < t < runs[0] / 60 ==> !#[trigger] minute_matches(t, lists)
                &&& forall|t: int| m0 < t <= runs.last() / 60 ==> #[trigger] minute_known(t)
            }
        },
        Err(e) => match cron_check(value) {
            Err(m) => e == m,
            Ok(_) => count > 0 && ((e == no_runs_message() && no_run_in_reach(value, now)) || (e
                == out_of_dates_message() && exists|t: int|
                m0 < t && !#[trigger] minute_known(t) && forall|u: int| m0 < u < t ==> #[trigger] minute_known(u))),
        },
    }
    &&& (cron_check(value) is Ok && count > 0 && no_run_in_reach(value, now)) ==> outcome == Err::<Seq<i64>, Seq<char>>(no_runs_message())
    &&& (cron_check(value) is Ok && runs_in_reach(value, count, now)) ==> outcome is Ok
}

/// Every run time that the search finds lies on the calendar the expression
/// describes: read in UTC, its minute, hour, day of month, month and day of
/// the week (counted from Sunday as 0) are each among the values that the
/// matching field of the expression selects, and it falls on a whole minute.
pub proof fn runs_on_the_calendar(value: Seq<char>, count: nat, now: int, runs: Seq<i64>)
    requires
        runs_from_ok(value, count, now, Ok(runs)),
    ensures
        forall|i: int|
            0 <= i < runs.len() ==> #[trigger] runs[i] % 60 == 0 && match utc_fields_of(runs[i] as int) {
                Some((mo, d, wd, h, mi)) => {
                    &&& cron_lists(value)[0].contains(mi as nat)
                    &&& cron_lists(value)[1].contains(h as nat)
                    &&& cron_lists(value)[2].contains(d as nat)
                    &&& cron_lists(value)[3].contains(mo as nat)
                    &&& cron_lists(value)[4].contains(wd as nat)
                },
                None => false,
            },
{
    reveal(minute_matches);
    assert forall|i: int| 0 <= i < runs.len() implies #[trigger] runs[i] % 60 == 0 && match utc_fields_of(
        runs[i] as int,
    ) {
        Some((mo, d, wd, h, mi)) => {
            &&& cron_lists(value)[0].contains(mi as nat)
            &&& cron_lists(value)[1].contains(h as nat)
            &&& cron_lists(value)[2].contains(d as nat)
            &&& cron_lists(value)[3].contains(mo as nat)
            &&& cron_lists(value)[4].contains(wd as nat)
        },
        None => false,
    } by {
        let r: int = runs[i] as int;
        assert(r % 60 == 0 && minute_matches(r / 60, cron_lists(value)));
        assert((r / 60) * 60 == r) by (nonlinear_arith)
            requires
                r % 60 == 0,
        ;
    }
}

/// A minute within reach that cannot be read rules out "no run in reach".
proof fn lemma_unknown_out_of_reach(value: Seq<char>, now: int, t: int)
    requires
        start_minute(now) < t <= last_first_minute(now),
        !minute_known(t),
    ensures
        !no_run_in_reach(value, now),
{
    assert(!(minute_known(t) && !minute_matches(t, cron_lists(value))));
}

/// A matching minute within reach rules out "no run in reach".
proof fn lemma_match_in_reach(value: Seq<char>, now: int, t: int)
    requires
        start_minute(now) < t <= last_first_minute(now),
        minute_matches(t, cron_lists(value)),
    ensures
        !no_run_in_reach(value, now),
{
}

/// The values that each of the five fields of a valid expression selects.
fn value_lists(value: &str, fields: &Vec<Vec<char>>) -> (res: (Vec<u8>, Vec<u8>, Vec<u8>, Vec<u8>, Vec<u8>))
    requires
        cron_check(value@) is Ok,
        fields.deep_view() == words(value@),
    ensures
        as_nats(res.0@) == cron_lists(value@)[0],
        as_nats(res.1@) == cron_lists(value@)[1],
        as_nats(res.2@) == cron_lists(value@)[2],
        as_nats(res.3@) == cron_lists(value@)[3],
        as_nats(res.4@) == cron_lists(value@)[4],
{
    let ghost lists = cron_lists(value@);
    let minutes = expand_field(field_text(fields, 0).as_str(), (0, 59));
    let hours = expand_field(field_text(fields, 1).as_str(), (0, 23));
    let dom = expand_field(field_text(fields, 2).as_str(), (1, 31));
    let months = expand_field(field_text(fields, 3).as_str(), (1, 12));
    let dow = expand_field(field_text(fields, 4).as_str(), (0, 7));
    assert(as_nats(minutes@) == lists[0]);
    assert(as_nats(hours@) == lists[1]);
    assert(as_nats(dom@) == lists[2]);
    assert(as_nats(months@) == lists[3]);
    assert(as_nats(dow@) == lists[4]);
    (minutes, hours, dom, months, dow)
}

/// `ts` increasing with each element at position `idx` of increasing `ms`:
/// `ms` is at least as long.
proof fn lemma_count_le(ts: Seq<int>, ms: Seq<int>, idx: spec_fn(int) -> int)
    requires
        forall|i: int, j: int| 0 <= i < j < ts.len() ==> ts[i] < ts[j],
        forall|i: int, j: int| 0 <= i < j < ms.len() ==> ms[i] < ms[j],
        forall|i: int| 0 <= i < ts.len() ==> 0 <= #[trigger] idx(i) < ms.len() && ms[idx(i)] == ts[i],
    ensures
        ts.len() <= ms.len(),
    decreases ts.len(),
{
    if ts.len() > 0 {
        let n = ts.len() - 1;
        let k = idx(n);
        let ts2 = ts.drop_last();
        let ms2 = ms.take(k);
        assert forall|i: int| 0 <= i < ts2.len() implies 0 <= #[trigger] idx(i) < ms2.len() && ms2[idx(i)] == ts2[i] by {
            assert(ts2[i] == ts[i]);
            let q = idx(i);
            assert(ts[i] < ts[n]);
            if q > k {
                assert(ms[k] < ms[q]);
            }
            assert(q < k);
            assert(ms2[q] == ms[q]);
        }
        lemma_count_le(ts2, ms2, idx);
    }
}

/// With every matching minute up to `cand` recorded among fewer than
/// `count` runs, and minute `cand + 1` unreadable, there are not `count`
/// matching minutes within reach.
proof fn lemma_not_in_reach(value: Seq<char>, count: nat, now: int, cand: int, runs: Seq<i64>)
    requires
        runs.len() < count,
        start_minute(now) <= cand,
        !minute_known(cand + 1),
        forall|i: int, j: int| 0 <= i < j < runs.len() ==> runs[i] / 60 < runs[j] / 60,
        forall|t: int| start_minute(now) < t <= cand && #[trigger] minute_matches(t, cron_lists(value))
            ==> exists|k: int| 0 <= k < runs.len() && runs[k] / 60 == t,
    ensures
        !runs_in_reach(value, count, now),
{
    if runs_in_reach(value, count, now) {
        let ts = choose|ts: Seq<int>| #![trigger ts.len(), runs_in_reach_witness(value, count, now, ts)] runs_in_reach_witness(value, count, now, ts);
        assert(runs_in_reach_witness(value, count, now, ts));
        lemma_witness_recorded(value, count, now, cand, runs, ts);
    }
}

/// Every minute of a witness lies at most at `cand` and is recorded, so the
/// runs are at least as many.
proof fn lemma_witness_recorded(value: Seq<char>, count: nat, now: int, cand: int, runs: Seq<i64>, ts: Seq<int>)
    requires
        start_minute(now) <= cand,
        !minute_known(cand + 1),
        forall|i: int, j: int| 0 <= i < j < runs.len() ==> runs[i] / 60 < runs[j] / 60,
        forall|t: int| start_minute(now) < t <= cand && #[trigger] minute_matches(t, cron_lists(value))
            ==> exists|k: int| 0 <= k < runs.len() && runs[k] / 60 == t,
        runs_in_reach_witness(value, count, now, ts),
    ensures
        count <= runs.len(),
{
    if count > 0 {
        let last = ts[ts.len() - 1];
        if last > cand {
            assert(minute_known(cand + 1));
        }
        let ms = Seq::new(runs.len(), |k: int| runs[k] / 60);
        let idx = |i: int| choose|k: int| 0 <= k < runs.len() && runs[k] / 60 == ts[i];
        assert forall|i: int| 0 <= i < ts.len() implies 0 <= #[trigger] idx(i) < ms.len() && ms[idx(i)] == ts[i] by {
            assert(start_minute(now) < ts[i] && minute_matches(ts[i], cron_lists(value)));
            if i < ts.len() - 1 {
                assert(ts[i] < ts[ts.len() - 1]);
            }
            assert(ts[i] <= cand);
            assert(exists|k: int| 0 <= k < runs.len() && runs[k] / 60 == ts[i]);
        }
        lemma_count_le(ts, ms, idx);
    }
}

/// The outcome "beyond the supported date range" at an unreadable minute `t`
/// after every earlier minute was readable.
proof fn lemma_unreadable_outcome(value: Seq<char>, count: nat, now: int, t: int)
    requires
        cron_check(value) is Ok,
        count > 0,
        start_minute(now) < t,
        !minute_known(t),
        forall|u: int| start_minute(now) < u < t ==> #[trigger] minute_known(u),
        !no_run_in_reach(value, now),
        !runs_in_reach(value, count, now),
        next_runs_from_spec(value, count, now) == Err::<Seq<i64>, Seq<char>>(out_of_dates_message()),
    ensures
        runs_from_ok(value, count, now, Err(out_of_dates_message())),
{
    assert(exists|t1: int|
        start_minute(now) < t1 && !#[trigger] minute_known(t1) && forall|u: int| start_minute(now) < u < t1 ==> #[trigger] minute_known(u));
}

/// The outcome "no run" when no minute within reach matches.
proof fn lemma_no_run_outcome(value: Seq<char>, count: nat, now: int)
    requires
        cron_check(value) is Ok,
        count > 0,
        no_run_in_reach(value, now),
        next_runs_from_spec(value, count, now) == Err::<Seq<i64>, Seq<char>>(no_runs_message()),
    ensures
        runs_from_ok(value, count, now, Err(no_runs_message())),
{
    if runs_in_reach(value, count, now) {
        let ts = choose|ts: Seq<int>| #![trigger ts.len(), runs_in_reach_witness(value, count, now, ts)] runs_in_reach_witness(value, count, now, ts);
        assert(start_minute(now) < ts[0] && minute_matches(ts[0], cron_lists(value)));
        assert(!minute_matches(ts[0], cron_lists(value)));
    }
}

/// A minute `cand` that does not match keeps every matching minute up to it
/// recorded.
proof fn lemma_skip_minute(lists: Seq<Seq<nat>>, m0: int, cand: int, runs: Seq<i64>)
    requires
        !minute_matches(cand, lists),
        forall|t: int| m0 < t <= cand - 1 && #[trigger] minute_matches(t, lists)
            ==> exists|k: int| 0 <= k < runs.len() && runs[k] / 60 == t,
    ensures
        forall|t: int| m0 < t <= cand && #[trigger] minute_matches(t, lists)
            ==> exists|k: int| 0 <= k < runs.len() && runs[k] / 60 == t,
{
}

/// Appending the matching minute `cand` to runs that all lie before it
/// keeps them increasing with no matching minute skipped.
proof fn lemma_push_run(lists: Seq<Seq<nat>>, m0: int, cand: int, before: Seq<i64>, secs: i64)
    requires
        secs == cand * 60,
        forall|i: int| 0 <= i < before.len() ==> #[trigger] before[i] % 60 == 0 && minute_matches(before[i] / 60, lists) && m0 < before[i] / 60 <= cand - 1,
        forall|i: int, j: int| 0 <= i < j < before.len() ==> before[i] < before[j],
        forall|i: int, t: int|
            #![trigger before[i], minute_matches(t, lists)]
            0 <= i < before.len() - 1 && before[i] / 60 < t < before[i + 1] / 60 ==> !minute_matches(t, lists),
        before.len() > 0 ==> forall|t: int| before.last() / 60 < t <= cand - 1 ==> !#[trigger] minute_matches(t, lists),
        forall|t: int| m0 < t <= cand - 1 && #[trigger] minute_matches(t, lists)
            ==> exists|k: int| 0 <= k < before.len() && before[k] / 60 == t,
    ensures
        ({
            let runs = before.push(secs);
            &&& forall|i: int, j: int| 0 <= i < j < runs.len() ==> runs[i] / 60 < runs[j] / 60
            &&& forall|t: int| m0 < t <= cand && #[trigger] minute_matches(t, lists)
                ==> exists|k: int| 0 <= k < runs.len() && runs[k] / 60 == t
            &&& forall|i: int, j: int| 0 <= i < j < runs.len() ==> runs[i] < runs[j]
            &&& forall|i: int| 0 <= i < runs.len() - 1 ==> #[trigger] runs[i] < runs[i + 1]
            &&& forall|i: int, t: int|
                #![trigger runs[i], minute_matches(t, lists)]
                0 <= i < runs.len() - 1 && runs[i] / 60 < t < runs[i + 1] / 60 ==> !minute_matches(t, lists)
        }),
{
    let runs = before.push(secs);
    assert forall|i: int, t: int|
        #![trigger runs[i], minute_matches(t, lists)]
        0 <= i < runs.len() - 1 && runs[i] / 60 < t < runs[i + 1] / 60 implies !minute_matches(t, lists) by {
        if i == runs.len() - 2 {
            assert(runs[i] == before.last());
            assert(runs[i + 1] / 60 == cand) by (nonlinear_arith)
                requires
                    runs[i + 1] == cand * 60,
            ;
        } else {
            assert(runs[i] == before[i] && runs[i + 1] == before[i + 1]);
            assert(!minute_matches(t, lists));
        }
    }
    assert(secs / 60 == cand) by (nonlinear_arith)
        requires
            secs == cand * 60,
    ;
    assert forall|i: int, j: int| 0 <= i < j < runs.len() implies runs[i] / 60 < runs[j] / 60 by {
        if j == runs.len() - 1 {
            assert(before[i] / 60 <= cand - 1);
        } else {
            assert(runs[i] == before[i] && runs[j] == before[j]);
        }
    }
    assert forall|t: int| m0 < t <= cand && #[trigger] minute_matches(t, lists)
        implies exists|k: int| 0 <= k < runs.len() && runs[k] / 60 == t by {
        if t == cand {
            assert(runs[runs.len() - 1] / 60 == t);
        } else {
            let k = choose|k: int| 0 <= k < before.len() && before[k] / 60 == t;
            assert(runs[k] == before[k]);
        }
    }
    assert forall|i: int, j: int| 0 <= i < j < runs.len() implies runs[i] < runs[j] by {
        if j == runs.len() - 1 {
            assert(before[i] / 60 <= cand - 1);
            assert(before[i] < cand * 60) by (nonlinear_arith)
                requires
                    before[i] / 60 <= cand - 1,
                    before[i] % 60 == 0,
            ;
        } else {
            assert(runs[i] == before[i] && runs[j] == before[j]);
        }
    }
}

/// What holds after the search has looked at every minute up to `cand`:
/// `runs` are the matching minutes after `now` up to `cand`, in increasing
/// order, none skipped; each minute looked at was readable; and a first run,
/// if any, lies within reach.
#[verifier::opaque]
pub open spec fn search_state(value: Seq<char>, now: int, cand: int, runs: Seq<i64>) -> bool {
    let lists = cron_lists(value);
    let m0 = start_minute(now);
    &&& m0 <= cand
    &&& forall|i: int| 0 <= i < runs.len() ==> #[trigger] runs[i] % 60 == 0 && minute_matches(runs[i] / 60, lists) && m0 < runs[i] / 60 <= cand
    &&& forall|i: int, j: int| 0 <= i < j < runs.len() ==> runs[i] < runs[j]
    &&& forall|i: int, j: int| 0 <= i < j < runs.len() ==> runs[i] / 60 < runs[j] / 60
    &&& forall|i: int| 0 <= i < runs.len() - 1 ==> #[trigger] runs[i] < runs[i + 1]
    &&& forall|i: int, t: int|
        #![trigger runs[i], minute_matches(t, lists)]
        0 <= i < runs.len() - 1 && runs[i] / 60 < t < runs[i + 1] / 60 ==> !minute_matches(t, lists)
    &&& runs.len() > 0 ==> forall|t: int| runs.last() / 60 < t <= cand ==> !#[trigger] minute_matches(t, lists)
    &&& runs.len() == 0 ==> forall|t: int| m0 < t <= cand ==> !#[trigger] minute_matches(t, lists)
    &&& runs.len() > 0 ==> forall|t: int| m0 < t < runs[0] / 60 ==> !#[trigger] minute_matches(t, lists)
    &&& runs.len() > 0 ==> runs[0] / 60 <= last_first_minute(now)
    &&& runs.len() == 0 ==> cand < last_first_minute(now)
    &&& forall|t: int| m0 < t <= cand ==> #[trigger] minute_known(t)
    &&& forall|t: int| m0 < t <= cand && #[trigger] minute_matches(t, lists)
        ==> exists|k: int| 0 <= k < runs.len() && runs[k] / 60 == t
}

/// Before the search has looked at any minute.
proof fn lemma_state_start(value: Seq<char>, now: int)
    ensures
        search_state(value, now, start_minute(now), Seq::empty()),
{
    reveal(search_state);
    assert(start_minute(now) < last_first_minute(now)) by (nonlinear_arith);
}

/// Looking at the readable minute `cand`: it is kept when it matches.
proof fn lemma_state_next(value: Seq<char>, now: int, cand: int, runs: Seq<i64>, hit: bool, secs: i64)
    requires
        search_state(value, now, cand - 1, runs),
        minute_known(cand),
        hit == minute_matches(cand, cron_lists(value)),
        secs == cand * 60,
        !hit && runs.len() == 0 ==> cand < last_first_minute(now),
    ensures
        search_state(value, now, cand, if hit { runs.push(secs) } else { runs }),
{
    reveal(search_state);
    let lists = cron_lists(value);
    let m0 = start_minute(now);
    assert(secs / 60 == cand && secs % 60 == 0) by (nonlinear_arith)
        requires
            secs == cand * 60,
    ;
    if hit {
        lemma_push_run(lists, m0, cand, runs, secs);
        let after = runs.push(secs);
        assert(after.last() == secs);
        assert forall|i: int| 0 <= i < after.len() implies #[trigger] after[i] % 60 == 0 && minute_matches(after[i] / 60, lists) && m0 < after[i] / 60 <= cand by {
            if i < runs.len() {
                assert(after[i] == runs[i]);
            }
        }
        if runs.len() == 0 {
            assert(after[0] == secs);
        } else {
            assert(after[0] == runs[0]);
        }
    } else {
        lemma_skip_minute(lists, m0, cand, runs);
    }
}

/// The search stops at the unreadable minute `cand + 1` with fewer than
/// `count` runs: "beyond the supported date range".
proof fn lemma_state_unreadable(value: Seq<char>, count: nat, now: int, cand: int, runs: Seq<i64>)
    requires
        search_state(value, now, cand, runs),
        runs.len() < count,
        cron_check(value) is Ok,
        !minute_known(cand + 1),
        next_runs_from_spec(value, count, now) == Err::<Seq<i64>, Seq<char>>(out_of_dates_message()),
    ensures
        runs_from_ok(value, count, now, Err(out_of_dates_message())),
{
    reveal(search_state);
    if runs.len() == 0 {
        lemma_unknown_out_of_reach(value, now, cand + 1);
    } else {
        lemma_match_in_reach(value, now, runs[0] / 60);
    }
    lemma_not_in_reach(value, count, now, cand, runs);
    lemma_unreadable_outcome(value, count, now, cand + 1);
}

/// The search stops with no run at the first minute past the reach.
proof fn lemma_state_no_run(value: Seq<char>, count: nat, now: int, cand: int)
    requires
        search_state(value, now, cand - 1, Seq::empty()),
        minute_known(cand),
        !minute_matches(cand, cron_lists(value)),
        cand >= last_first_minute(now),
        count > 0,
        cron_check(value) is Ok,
        next_runs_from_spec(value, count, now) == Err::<Seq<i64>, Seq<char>>(no_runs_message()),
    ensures
        runs_from_ok(value, count, now, Err(no_runs_message())),
{
    reveal(search_state);
    assert(cand == last_first_minute(now));
    assert(no_run_in_reach(value, now));
    lemma_no_run_outcome(value, count, now);
}

/// The search stops with `count` runs.
#[verifier::rlimit(100)]
proof fn lemma_state_done(value: Seq<char>, count: nat, now: int, cand: int, runs: Seq<i64>)
    requires
        search_state(value, now, cand, runs),
        runs.len() == count,
        cron_check(value) is Ok,
        next_runs_from_spec(value, count, now) == search(cron_lists(value), count, now, cand, runs),
    ensures
        runs_from_ok(value, count, now, Ok(runs)),
{
    reveal(search_state);
    lemma_search_step(cron_lists(value), count, now, cand, runs);
    if count > 0 {
        let n = runs.len() - 1;
        assert(runs[n] / 60 <= cand);
        assert(minute_matches(runs[0] / 60, cron_lists(value)));
        lemma_match_in_reach(value, now, runs[0] / 60);
    }
}

/// The next `count` run times (Unix timestamps in seconds, UTC) of a
/// five-field cron expression after the second `now`, searched minute by
/// minute. No run within four years after `now` is an error. Day of week 7
/// is accepted but never matches (Sunday is 0).
#[verifier::rlimit(100)]
#[verifier::spinoff_prover]
pub fn next_runs_from(value: &str, count: usize, now: i64) -> (res: Result<Vec<i64>, String>)
    ensures
        runs_from_ok(value@, count as nat, now as int, outcome_view(res)),
{
    let fields = match check_fields(value) {
        Ok(f) => f,
        Err(e) => return Err(e),
    };
    let ghost lists = cron_lists(value@);
    let (minutes, hours, dom, months, dow) = value_lists(value, &fields);
    let limit: i64 = i64::MAX / 60 - 1;
    let four: i128 = 86_400 * 366 * 4;
    let mut runs: Vec<i64> = Vec::new();
    let start = minute_of(now);
    assert(start as int == start_minute(now as int)) by (nonlinear_arith)
        requires
            start * 60 <= now < start * 60 + 60,
    ;
    let mut cand = start;
    proof {
        lemma_state_start(value@, now as int);
    }
    assert(next_runs_from_spec(value@, count as nat, now as int) == search(lists, count as nat, now as int, start as int, Seq::empty()));
    let ghost total = search(lists, count as nat, now as int, start as int, Seq::empty());
    while runs.len() < count
        invariant
            cand <= limit + 1,
            start_minute(now as int) <= cand,
            limit == search_limit(),
            four == four_years(),
            i64::MIN <= (cand + 1) * 60,
            runs.len() <= count,
            lists == cron_lists(value@),
            cron_check(value@) is Ok,
            total == next_runs_from_spec(value@, count as nat, now as int),
            total == search(lists, count as nat, now as int, cand as int, runs@),
            as_nats(minutes@) == lists[0],
            as_nats(hours@) == lists[1],
            as_nats(dom@) == lists[2],
            as_nats(months@) == lists[3],
            as_nats(dow@) == lists[4],
            search_state(value@, now as int, cand as int, runs@),
        decreases limit + 1 - cand,
    {
        if cand >= limit {
            proof {
                reveal(minute_known);
                lemma_search_step(lists, count as nat, now as int, cand as int, runs@);
                lemma_state_unreadable(value@, count as nat, now as int, cand as int, runs@);
            }
            return Err(string_of(chars_of("Next run time lies beyond the supported date range").as_slice()));
        }
        let ghost prev = cand as int;
        proof {
            lemma_search_step(lists, count as nat, now as int, prev, runs@);
        }
        cand = cand + 1;
        let secs = cand * 60;
        match utc_fields(secs) {
            None => {
                proof {
                    reveal(minute_known);
                    lemma_state_unreadable(value@, count as nat, now as int, prev, runs@);
                }
                return Err(string_of(chars_of("Next run time lies beyond the supported date range").as_slice()));
            },
            Some(f) => {
                let hit = matches_cron(f, &minutes, &hours, &dom, &months, &dow);
                proof {
                    reveal(minute_matches);
                    reveal(minute_known);
                }
                assert(hit == minute_matches(cand as int, lists));
                assert(minute_known(cand as int));
                let ghost before = runs@;
                if hit {
                    runs.push(secs);
                }
                let past = secs as i128 > now as i128 + four;
                proof {
                    if past {
                        assert(cand >= last_first_minute(now as int)) by (nonlinear_arith)
                            requires
                                cand * 60 > now + 86_400 * 366 * 4,
                        ;
                    } else {
                        assert(cand < last_first_minute(now as int)) by (nonlinear_arith)
                            requires
                                cand * 60 <= now + 86_400 * 366 * 4,
                        ;
                    }
                }
                if runs.len() == 0 && past {
                    proof {
                        assert(before =~= Seq::<i64>::empty());
                        lemma_state_no_run(value@, count as nat, now as int, cand as int);
                    }
                    return Err(string_of(chars_of("No matching run time found in the next four years").as_slice()));
                }
                proof {
                    lemma_state_next(value@, now as int, cand as int, before, hit, secs);
                }
            },
        }
    }
    proof {
        lemma_state_done(value@, count as nat, now as int, cand as int, runs@);
    }
    Ok(runs)
}

/// The next `count` run times (Unix timestamps in seconds, UTC) of a
/// five-field cron expression, searched minute by minute after the current
/// time, which is read from the clock.
pub fn next_runs(value: &str, count: usize) -> (res: Result<Vec<i64>, String>)
    ensures
        exists|now: i64| #[trigger] runs_from_ok(value@, count as nat, now as int, outcome_view(res)),
{
    let now = now_seconds();
    let res = next_runs_from(value, count, now);
    assert(runs_from_ok(value@, count as nat, now as int, outcome_view(res)));
    res
}


/// The explanation of each of the five fields.
pub open spec fn field_lines(f: Seq<Seq<char>>) -> Seq<Seq<char>> {
    Seq::new(5, |i: int| field_name(i) + ": "@ + describe_spec(f[i]))
}

/// A run time as RFC 3339 text.
pub open spec fn run_line(secs: i64) -> Seq<char> {
    match rfc3339_of(secs as int) {
        Some(t) => t,
        None => Seq::empty(),
    }
}

/// The explanation of a valid expression followed by its next run times, or
/// by the reason they could not be found.
pub open spec fn report_spec(value: Seq<char>, outcome: Result<Seq<i64>, Seq<char>>) -> Seq<char> {
    let lines = field_lines(words(value));
    let all = match outcome {
        Ok(runs) => lines + seq![Seq::empty(), "Next runs (UTC):"@] + runs.map_values(|r: i64| run_line(r)),
        Err(e) => lines.push("\nCould not calculate next runs: "@ + e),
    };
    join(all, seq!['\n'])
}

pub open spec fn outcome_view(o: Result<Vec<i64>, String>) -> Result<Seq<i64>, Seq<char>> {
    match o {
        Ok(v) => Ok(v@),
        Err(e) => Err(e@),
    }
}

fn line_of(s: &str) -> (res: Vec<char>)
    ensures
        res@ == s@,
{
    chars_of(s)
}

/// The explanation of a valid five-field expression, followed by the run
/// times of `outcome` in RFC 3339 form or by the reason they are missing.
pub fn cron_report(value: &str, outcome: &Result<Vec<i64>, String>) -> (res: String)
    requires
        words(value@).len() == 5,
    ensures
        res@ == report_spec(value@, outcome_view(*outcome)),
{
    let cs = chars_of(value);
    let fields = split_ws(cs.as_slice());
    let mut lines: Vec<Vec<char>> = Vec::new();
    let mut i: usize = 0;
    while i < 5
        invariant
            i <= 5,
            fields.len() == 5,
            fields.deep_view() == words(value@),
            lines.deep_view() == field_lines(words(value@)).take(i as int),
        decreases 5 - i,
    {
        let d = describe(field_text(&fields, i).as_str());
        let mut line = line_of(name_of(i));
        push_str(&mut line, ": ");
        append_chars(&mut line, crate::text::chars_of(d.as_str()).as_slice());
        let ghost before = lines.deep_view();
        let ghost lv = line@;
        assert(line.deep_view() =~= line@);
        lines.push(line);
        assert(lines.deep_view() =~= before.push(lv));
        i = i + 1;
        assert(lines.deep_view() =~= field_lines(words(value@)).take(i as int));
    }
    assert(field_lines(words(value@)).take(5) == field_lines(words(value@)));
    match outcome {
        Ok(runs) => {
            let ghost base = lines.deep_view();
            let empty: Vec<char> = Vec::new();
            assert(empty.deep_view() =~= Seq::<char>::empty());
            lines.push(empty);
            assert(lines.deep_view() =~= base.push(Seq::<char>::empty()));
            let heading = line_of("Next runs (UTC):");
            let ghost hv = heading@;
            assert(heading.deep_view() =~= heading@);
            lines.push(heading);
            assert(lines.deep_view() =~= base.push(Seq::<char>::empty()).push(hv));
            assert(lines.deep_view() =~= base + seq![Seq::<char>::empty(), "Next runs (UTC):"@]);
            let ghost head = lines.deep_view();
            let mut j: usize = 0;
            while j < runs.len()
                invariant
                    j <= runs.len(),
                    lines.deep_view() == head + runs@.take(j as int).map_values(|r: i64| run_line(r)),
                decreases runs.len() - j,
            {
                let t: Vec<char> = match rfc3339(runs[j]) {
                    Some(s) => chars_of(s.as_str()),
                    None => Vec::new(),
                };
                let ghost before = lines.deep_view();
                let ghost tv = t@;
                assert(t.deep_view() =~= t@);
                lines.push(t);
                assert(lines.deep_view() =~= before.push(tv));
                j = j + 1;
                assert(lines.deep_view() =~= head + runs@.take(j as int).map_values(|r: i64| run_line(r)));
            }
            assert(runs@.take(runs.len() as int) == runs@);
        },
        Err(e) => {
            let mut last = line_of("\nCould not calculate next runs: ");
            append_chars(&mut last, chars_of(e.as_str()).as_slice());
            let ghost before = lines.deep_view();
            let ghost lv = last@;
            assert(last.deep_view() =~= last@);
            lines.push(last);
            assert(lines.deep_view() =~= before.push(lv));
        },
    }
    let nl = ['\n'];
    assert(nl@ == seq!['\n']);
    let text = crate::text::join_chars(&lines, &nl);
    string_of(text.as_slice())
}

/// What `parse_cron_at` returns: an empty text for blank input, the
/// message of the first invalid part, or the explanation followed by what
/// the search for five runs after `now` found.
pub open spec fn parse_cron_spec(value: Seq<char>, now: int) -> Result<Seq<char>, Seq<char>> {
    if words(value).len() == 0 {
        Ok(Seq::empty())
    } else {
        match cron_check(value) {
            Err(m) => Err(m),
            Ok(_) => Ok(report_spec(value, next_runs_from_spec(value, 5, now))),
        }
    }
}

/// Validates a five-field cron expression and explains it: one line per
/// field, then the next five run times (UTC) after the second `now`. Blank
/// input gives an empty text. Day of week 7 is accepted but never matches
/// (Sunday is 0).
pub fn parse_cron_at(value: &str, now: i64) -> (res: Result<String, String>)
    ensures
        match res {
            Ok(s) => parse_cron_spec(value@, now as int) == Ok::<Seq<char>, Seq<char>>(s@),
            Err(e) => parse_cron_spec(value@, now as int) == Err::<Seq<char>, Seq<char>>(e@),
        },
        runs_from_ok(value@, 5, now as int, next_runs_from_spec(value@, 5, now as int)),
{
    let cs = chars_of(value);
    let f = split_ws(cs.as_slice());
    if f.len() == 0 {
        let empty: Vec<char> = Vec::new();
        return Ok(string_of(empty.as_slice()));
    }
    match check_fields(value) {
        Ok(_) => {},
        Err(e) => return Err(e),
    }
    let outcome = next_runs_from(value, 5, now);
    Ok(cron_report(value, &outcome))
}

/// Validates a five-field cron expression and explains it: one line per
/// field, then the next five run times (UTC) after the current time, which
/// is read from the clock. Blank input gives an empty text. Day of week 7 is
/// accepted but never matches (Sunday is 0).
pub fn parse_cron(value: &str) -> (res: Result<String, String>)
    ensures
        exists|now: i64|
            match res {
                Ok(s) => parse_cron_spec(value@, now as int) == Ok::<Seq<char>, Seq<char>>(s@),
                Err(e) => parse_cron_spec(value@, now as int) == Err::<Seq<char>, Seq<char>>(e@),
            } && #[trigger] runs_from_ok(value@, 5, now as int, next_runs_from_spec(value@, 5, now as int)),
{
    let now = now_seconds();
    parse_cron_at(value, now)
}

} // verus!
