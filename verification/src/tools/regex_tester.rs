//! Listing the matches of a regular expression in a text.
use crate::radix::{digits_of, format_radix};
use crate::text::{append_chars, chars_of, join, join_chars, push_str, string_of};
use vstd::prelude::*;
use vstd::utf8::encode_utf8;

verus! {

/// What the `regex` crate finds: for a valid pattern, the successive
/// non-overlapping leftmost-first matches in the text, each as byte offsets
/// and matched text; otherwise the message of the pattern's error.
pub uninterp spec fn regex_matches_of(pattern: Seq<char>, text: Seq<char>) -> Result<Seq<(usize, usize, Seq<char>)>, Seq<char>>;

/// Calls `regex::Regex::new` and `Regex::find_iter`, keeping the start, end
/// and text of each match; the result is named. The `regex` documentation
/// promises byte offsets with `start <= end <= text.len()`.
#[verifier::external_body]
fn regex_find_all(pattern: &str, text: &str) -> (res: Result<Vec<(usize, usize, String)>, String>)
    ensures
        match res {
            Ok(v) => regex_matches_of(pattern@, text@) == Ok::<Seq<(usize, usize, Seq<char>)>, Seq<char>>(
                v@.map_values(|m: (usize, usize, String)| (m.0, m.1, m.2@)),
            ) && forall|i: int| 0 <= i < v@.len() ==> #[trigger] v@[i].0 <= v@[i].1 <= encode_utf8(text@).len(),
            Err(e) => regex_matches_of(pattern@, text@) == Err::<Seq<(usize, usize, Seq<char>)>, Seq<char>>(e@),
        },
{
    match regex::Regex::new(pattern) {
        Ok(re) => Ok(re.find_iter(text).map(|m| (m.start(), m.end(), m.as_str().to_string())).collect()),
        Err(e) => Err(e.to_string()),
    }
}

/// The line that shows the `i`-th match (counted from 1).
pub open spec fn match_line(i: int, m: (usize, usize, Seq<char>)) -> Seq<char> {
    digits_of((i + 1) as nat, 10) + ": ["@ + digits_of(m.0 as nat, 10) + ".."@ + digits_of(m.1 as nat, 10)
        + "] "@ + m.2
}

/// What `test_regex` returns.
pub open spec fn test_regex_spec(pattern: Seq<char>, text: Seq<char>) -> Result<Seq<char>, Seq<char>> {
    if pattern.len() == 0 {
        Ok(Seq::empty())
    } else {
        match regex_matches_of(pattern, text) {
            Err(e) => Err("Invalid regex: "@ + e),
            Ok(ms) => if ms.len() == 0 {
                Ok("No matches"@)
            } else {
                Ok(digits_of(ms.len(), 10) + " match(es)\n"@ + join(
                    ms.map(|i: int, m: (usize, usize, Seq<char>)| match_line(i, m)),
                    seq!['\n'],
                ))
            },
        }
    }
}

/// Lists where `pattern` matches in `text`: the number of matches, then one
/// line per match with its byte range and text.
pub fn test_regex(pattern: &str, text: &str) -> (res: Result<String, String>)
    ensures
        match res {
            Ok(s) => test_regex_spec(pattern@, text@) == Ok::<Seq<char>, Seq<char>>(s@),
            Err(e) => test_regex_spec(pattern@, text@) == Err::<Seq<char>, Seq<char>>(e@),
        },
{
    if pattern.is_empty() {
        let e: Vec<char> = Vec::new();
        return Ok(string_of(e.as_slice()));
    }
    let found = match regex_find_all(pattern, text) {
        Ok(v) => v,
        Err(e) => {
            let mut msg = chars_of("Invalid regex: ");
            push_str(&mut msg, e.as_str());
            return Err(string_of(msg.as_slice()));
        },
    };
    let ghost ms = found@.map_values(|m: (usize, usize, String)| (m.0, m.1, m.2@));
    if found.len() == 0 {
        return Ok(string_of(chars_of("No matches").as_slice()));
    }
    let mut lines: Vec<Vec<char>> = Vec::new();
    let mut i: usize = 0;
    while i < found.len()
        invariant
            i <= found.len(),
            ms == found@.map_values(|m: (usize, usize, String)| (m.0, m.1, m.2@)),
            lines.deep_view() == ms.take(i as int).map(|j: int, m: (usize, usize, Seq<char>)| match_line(j, m)),
        decreases found.len() - i,
    {
        let (start, end, ref matched) = found[i];
        let mut line = format_radix((i as u128) + 1, 10);
        push_str(&mut line, ": [");
        append_chars(&mut line, format_radix(start as u128, 10).as_slice());
        push_str(&mut line, "..");
        append_chars(&mut line, format_radix(end as u128, 10).as_slice());
        push_str(&mut line, "] ");
        push_str(&mut line, matched.as_str());
        assert(line@ =~= match_line(i as int, ms[i as int]));
        let ghost before = lines.deep_view();
        let ghost lv = line@;
        assert(line.deep_view() =~= line@);
        lines.push(line);
        assert(lines.deep_view() =~= before.push(lv));
        i = i + 1;
        assert(lines.deep_view() =~= ms.take(i as int).map(|j: int, m: (usize, usize, Seq<char>)| match_line(j, m)));
    }
    assert(ms.take(found.len() as int) == ms);
    let mut out = format_radix(found.len() as u128, 10);
    push_str(&mut out, " match(es)\n");
    let nl = ['\n'];
    assert(nl@ == seq!['\n']);
    append_chars(&mut out, join_chars(&lines, &nl).as_slice());
    Ok(string_of(out.as_slice()))
}

} // verus!
