//! Conversion of text between common casings.
use crate::text::{
    ascii_lower, chars_eq_str, chars_of, concat, join, push_str, split_ws, string_of,
    to_ascii_lower, words, append_chars, concat_chars, join_chars,
};
use vstd::prelude::*;

verus! {

/// What `str::to_lowercase` returns for a text (full Unicode case mapping).
pub uninterp spec fn lowercase_of(s: Seq<char>) -> Seq<char>;

/// What `str::to_uppercase` returns for a text (full Unicode case mapping).
pub uninterp spec fn uppercase_of(s: Seq<char>) -> Seq<char>;

/// What `char::to_uppercase` yields for a character, collected into a text.
pub uninterp spec fn char_uppercase_of(c: char) -> Seq<char>;

/// Calls `str::to_lowercase`; its result is named `lowercase_of`.
#[verifier::external_body]
fn lowercase(s: &str) -> (res: String)
    ensures
        res@ == lowercase_of(s@),
{
    s.to_lowercase()
}

/// Calls `str::to_uppercase`; its result is named `uppercase_of`.
#[verifier::external_body]
fn uppercase(s: &str) -> (res: String)
    ensures
        res@ == uppercase_of(s@),
{
    s.to_uppercase()
}

/// Calls `char::to_uppercase` and collects the characters it yields; the
/// result is named `char_uppercase_of`.
#[verifier::external_body]
fn char_uppercase(c: char) -> (res: String)
    ensures
        res@ == char_uppercase_of(c),
{
    c.to_uppercase().collect()
}

/// A word with its first character upper-cased and the rest unchanged.
pub open spec fn capitalized(w: Seq<char>) -> Seq<char> {
    if w.len() == 0 {
        Seq::empty()
    } else {
        char_uppercase_of(w[0]) + w.drop_first()
    }
}

/// Title case: every word capitalized, words separated by single spaces.
pub open spec fn title_case(text: Seq<char>) -> Seq<char> {
    join(words(text).map_values(|w: Seq<char>| capitalized(w)), seq![' '])
}

/// One word of camel case: the first word lower-cased, the others lower-cased
/// and then capitalized.
pub open spec fn camel_word(i: int, w: Seq<char>) -> Seq<char> {
    if i == 0 {
        lowercase_of(w)
    } else {
        capitalized(lowercase_of(w))
    }
}

/// Camel case: the words converted by `camel_word` and concatenated.
pub open spec fn camel_case(text: Seq<char>) -> Seq<char> {
    concat(words(text).map(|i: int, w: Seq<char>| camel_word(i, w)))
}

/// The lower-cased text's words joined with `sep` (snake and kebab case).
pub open spec fn separated_case(text: Seq<char>, sep: char) -> Seq<char> {
    join(words(lowercase_of(text)), seq![sep])
}

/// What `convert_case` returns for a text and a mode name.
pub open spec fn convert_case_spec(text: Seq<char>, mode: Seq<char>) -> Result<Seq<char>, Seq<char>> {
    let m = ascii_lower(mode);
    if m == "lowercase"@ {
        Ok(lowercase_of(text))
    } else if m == "uppercase"@ {
        Ok(uppercase_of(text))
    } else if m == "title"@ || m == "title case"@ {
        Ok(title_case(text))
    } else if m == "camel"@ || m == "camel case"@ {
        Ok(camel_case(text))
    } else if m == "snake"@ || m == "snake case"@ {
        Ok(separated_case(text, '_'))
    } else if m == "kebab"@ || m == "kebab case"@ {
        Ok(separated_case(text, '-'))
    } else {
        Err("Unknown case mode: "@ + mode)
    }
}

fn capitalize(w: &[char]) -> (res: Vec<char>)
    ensures
        res@ == capitalized(w@),
{
    if w.len() == 0 {
        return Vec::new();
    }
    let first = char_uppercase(w[0]);
    let mut res = chars_of(first.as_str());
    let rest = crate::text::slice_to_vec(w, 1, w.len());
    append_chars(&mut res, rest.as_slice());
    res
}

fn lowercase_chars(w: &[char]) -> (res: Vec<char>)
    ensures
        res@ == lowercase_of(w@),
{
    let s = string_of(w);
    let l = lowercase(s.as_str());
    chars_of(l.as_str())
}

/// Converts `text` to the casing that `mode` names (ASCII case ignored):
/// lowercase, uppercase, title, camel, snake or kebab (each also with the
/// word "case" after it).
pub fn convert_case(text: &str, mode: &str) -> (res: Result<String, String>)
    ensures
        match res {
            Ok(s) => convert_case_spec(text@, mode@) == Ok::<Seq<char>, Seq<char>>(s@),
            Err(e) => convert_case_spec(text@, mode@) == Err::<Seq<char>, Seq<char>>(e@),
        },
{
    let mc = chars_of(mode);
    let m = to_ascii_lower(mc.as_slice());
    if chars_eq_str(m.as_slice(), "lowercase") {
        Ok(lowercase(text))
    } else if chars_eq_str(m.as_slice(), "uppercase") {
        Ok(uppercase(text))
    } else if chars_eq_str(m.as_slice(), "title") || chars_eq_str(m.as_slice(), "title case") {
        let tc = chars_of(text);
        let ws = split_ws(tc.as_slice());
        let mut caps: Vec<Vec<char>> = Vec::new();
        let mut i: usize = 0;
        while i < ws.len()
            invariant
                i <= ws.len(),
                ws.deep_view() == words(text@),
                caps.deep_view() == ws.deep_view().take(i as int).map_values(|w: Seq<char>| capitalized(w)),
            decreases ws.len() - i,
        {
            assert(ws.deep_view()[i as int] =~= ws[i as int]@);
            let c = capitalize(ws[i].as_slice());
            let ghost before = caps.deep_view();
            let ghost cv = c@;
            assert(c.deep_view() =~= c@);
            caps.push(c);
            assert(caps.deep_view() =~= before.push(cv));
            i = i + 1;
            assert(caps.deep_view() =~= ws.deep_view().take(i as int).map_values(|w: Seq<char>| capitalized(w)));
        }
        assert(ws.deep_view().take(ws.len() as int) == ws.deep_view());
        let space = [' '];
        assert(space@ == seq![' ']);
        let joined = join_chars(&caps, &space);
        Ok(string_of(joined.as_slice()))
    } else if chars_eq_str(m.as_slice(), "camel") || chars_eq_str(m.as_slice(), "camel case") {
        let tc = chars_of(text);
        let ws = split_ws(tc.as_slice());
        let mut parts: Vec<Vec<char>> = Vec::new();
        let mut i: usize = 0;
        while i < ws.len()
            invariant
                i <= ws.len(),
                ws.deep_view() == words(text@),
                parts.deep_view() == ws.deep_view().take(i as int).map(|j: int, w: Seq<char>| camel_word(j, w)),
            decreases ws.len() - i,
        {
            assert(ws.deep_view()[i as int] =~= ws[i as int]@);
            let lowered = lowercase_chars(ws[i].as_slice());
            let c = if i == 0 { lowered } else { capitalize(lowered.as_slice()) };
            let ghost before = parts.deep_view();
            let ghost cv = c@;
            assert(c.deep_view() =~= c@);
            parts.push(c);
            assert(parts.deep_view() =~= before.push(cv));
            i = i + 1;
            assert(parts.deep_view() =~= ws.deep_view().take(i as int).map(|j: int, w: Seq<char>| camel_word(j, w)));
        }
        assert(ws.deep_view().take(ws.len() as int) == ws.deep_view());
        let joined = concat_chars(&parts);
        Ok(string_of(joined.as_slice()))
    } else if chars_eq_str(m.as_slice(), "snake") || chars_eq_str(m.as_slice(), "snake case") {
        Ok(separated(text, '_'))
    } else if chars_eq_str(m.as_slice(), "kebab") || chars_eq_str(m.as_slice(), "kebab case") {
        Ok(separated(text, '-'))
    } else {
        let mut msg: Vec<char> = Vec::new();
        push_str(&mut msg, "Unknown case mode: ");
        push_str(&mut msg, mode);
        Err(string_of(msg.as_slice()))
    }
}

fn separated(text: &str, sep: char) -> (res: String)
    ensures
        res@ == separated_case(text@, sep),
{
    let l = lowercase(text);
    let lc = chars_of(l.as_str());
    let ws = split_ws(lc.as_slice());
    let s = [sep];
    assert(s@ == seq![sep]);
    let joined = join_chars(&ws, &s);
    string_of(joined.as_slice())
}


/// The casings offered in the interface, in order.
pub open spec fn case_mode_names() -> Seq<Seq<char>> {
    seq!["Lowercase"@, "Uppercase"@, "Title Case"@, "Camel Case"@, "Snake Case"@, "Kebab Case"@]
}

/// The name of the `i`-th casing offered in the interface.
pub fn case_mode_name(i: usize) -> (res: &'static str)
    requires
        i < 6,
    ensures
        res@ == case_mode_names()[i as int],
{
    if i == 0 {
        "Lowercase"
    } else if i == 1 {
        "Uppercase"
    } else if i == 2 {
        "Title Case"
    } else if i == 3 {
        "Camel Case"
    } else if i == 4 {
        "Snake Case"
    } else {
        "Kebab Case"
    }
}

/// The text converted to the `i`-th casing offered in the interface.
pub fn case_output(text: &str, i: usize) -> (res: String)
    requires
        i < 6,
    ensures
        convert_case_spec(text@, case_mode_names()[i as int]) == Ok::<Seq<char>, Seq<char>>(res@),
{
    let mode = case_mode_name(i);
    proof {
        reveal_strlit("Lowercase");
        reveal_strlit("lowercase");
        reveal_strlit("Uppercase");
        reveal_strlit("uppercase");
        reveal_strlit("Title Case");
        reveal_strlit("title case");
        reveal_strlit("Camel Case");
        reveal_strlit("camel case");
        reveal_strlit("Snake Case");
        reveal_strlit("snake case");
        reveal_strlit("Kebab Case");
        reveal_strlit("kebab case");
        assert(ascii_lower(mode@) =~= (if i == 0 { "lowercase"@ } else if i == 1 { "uppercase"@ } else if i == 2 {
            "title case"@ } else if i == 3 { "camel case"@ } else if i == 4 { "snake case"@ } else { "kebab case"@ }));
    }
    match convert_case(text, mode) {
        Ok(s) => s,
        Err(_) => {
            let e: Vec<char> = Vec::new();
            string_of(e.as_slice())
        },
    }
}

/// Mode names in lower case are their own ASCII lower case.
proof fn lemma_lower_names()
    ensures
        ascii_lower("lowercase"@) == "lowercase"@,
        ascii_lower("snake"@) == "snake"@,
        ascii_lower("kebab"@) == "kebab"@,
{
    reveal_strlit("lowercase");
    reveal_strlit("snake");
    reveal_strlit("kebab");
    assert(ascii_lower("lowercase"@) =~= "lowercase"@);
    assert(ascii_lower("snake"@) =~= "snake"@);
    assert(ascii_lower("kebab"@) =~= "kebab"@);
}

/// Snake and kebab case are the lower-case conversion of the whole text,
/// split into words at whitespace and joined with `_` or `-`: every
/// character of every word is the lower-cased text's own, none is left in
/// its original case.
pub proof fn separated_cases_are_lowercase(text: Seq<char>)
    ensures
        convert_case_spec(text, "lowercase"@) is Ok,
        convert_case_spec(text, "snake"@) == Ok::<Seq<char>, Seq<char>>(
            join(words(convert_case_spec(text, "lowercase"@)->Ok_0), seq!['_']),
        ),
        convert_case_spec(text, "kebab"@) == Ok::<Seq<char>, Seq<char>>(
            join(words(convert_case_spec(text, "lowercase"@)->Ok_0), seq!['-']),
        ),
{
    lemma_lower_names();
    reveal_strlit("lowercase");
    reveal_strlit("snake");
    reveal_strlit("kebab");
    reveal_strlit("uppercase");
    reveal_strlit("title");
    reveal_strlit("title case");
    reveal_strlit("camel");
    reveal_strlit("camel case");
    reveal_strlit("snake case");
    assert("snake"@.len() != "lowercase"@.len() && "snake"@.len() != "uppercase"@.len());
    assert("snake"@.len() != "title case"@.len() && "snake"@.len() != "camel case"@.len());
    assert("snake"@[0] != "title"@[0] && "snake"@[0] != "camel"@[0]);
    assert("kebab"@.len() != "lowercase"@.len() && "kebab"@.len() != "uppercase"@.len());
    assert("kebab"@.len() != "title case"@.len() && "kebab"@.len() != "camel case"@.len());
    assert("kebab"@.len() != "snake case"@.len());
    assert("kebab"@[0] != "title"@[0] && "kebab"@[0] != "camel"@[0] && "kebab"@[0] != "snake"@[0]);
}

} // verus!
