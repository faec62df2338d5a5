//! Character, word, line and byte counts of a text.
use crate::text::{chars_of, lemma_keep_len, is_whitespace, is_ws, keep, not_ws, split_ws, words, words_scan};
use vstd::prelude::*;
use vstd::utf8::encode_utf8;

verus! {

pub open spec fn newline() -> spec_fn(char) -> bool {
    |c: char| c == '\n'
}

/// `str::lines().count()`: one line per line feed, plus a last line when the
/// text is not empty and does not end with a line feed.
pub open spec fn line_count(s: Seq<char>) -> nat {
    keep(s, newline()).len() + if s.len() > 0 && s.last() != '\n' {
        1nat
    } else {
        0nat
    }
}

/// Returns, in this order: the number of characters, of characters that are
/// not whitespace, of words (maximal runs of non-whitespace), of lines, and
/// of bytes in the UTF-8 encoding.
pub fn analyze(text: &str) -> (res: (usize, usize, usize, usize, usize))
    ensures
        res.0 == text@.len(),
        res.1 == keep(text@, not_ws()).len(),
        res.2 == words(text@).len(),
        res.3 == line_count(text@),
        res.4 == encode_utf8(text@).len(),
        res.1 <= res.0,
        res.2 <= res.1,
        res.0 <= res.4,
{
    let cs = chars_of(text);
    let mut no_spaces: usize = 0;
    let mut newlines: usize = 0;
    let mut i: usize = 0;
    while i < cs.len()
        invariant
            i <= cs.len(),
            no_spaces == keep(cs@.take(i as int), not_ws()).len(),
            newlines == keep(cs@.take(i as int), newline()).len(),
            no_spaces <= i,
            newlines <= i,
        decreases cs.len() - i,
    {
        assert(cs@.take(i + 1).drop_last() == cs@.take(i as int));
        if !is_whitespace(cs[i]) {
            no_spaces = no_spaces + 1;
        }
        if cs[i] == '\n' {
            newlines = newlines + 1;
        }
        i = i + 1;
    }
    assert(cs@.take(cs.len() as int) == cs@);
    let ws = split_ws(cs.as_slice());
    proof {
        lemma_keep_len(cs@, newline());
    }
    let lines: usize = if cs.len() > 0 && cs[cs.len() - 1] != '\n' {
        newlines + 1
    } else {
        newlines
    };
    proof {
        lemma_words_le_non_ws(text@);
        lemma_chars_le_bytes(text@);
    }
    (cs.len(), no_spaces, ws.len(), lines, text.as_bytes().len())
}

/// Every word holds at least one non-whitespace character.
pub proof fn lemma_words_le_non_ws(s: Seq<char>)
    ensures
        words(s).len() <= keep(s, not_ws()).len(),
{
    lemma_words_scan_count(s);
}

proof fn lemma_words_scan_count(s: Seq<char>)
    ensures
        words_scan(s).0.len() + (if words_scan(s).1.len() > 0 { 1int } else { 0 })
            <= keep(s, not_ws()).len(),
        words_scan(s).1.len() <= keep(s, not_ws()).len(),
    decreases s.len(),
{
    if s.len() > 0 {
        lemma_words_scan_count(s.drop_last());
    }
}

/// Each character takes at least one byte in UTF-8.
pub proof fn lemma_chars_le_bytes(s: Seq<char>)
    ensures
        s.len() <= encode_utf8(s).len(),
    decreases s.len(),
{
    if s.len() > 0 {
        lemma_chars_le_bytes(s.drop_first());
    }
}

/// Splitting at line feeds: the number of finished pieces is the number of
/// line feeds, and the piece in progress is empty exactly when the text is
/// empty or ends with a line feed.
proof fn lemma_line_pieces(s: Seq<char>)
    ensures
        crate::text::split_scan(s, crate::text::eq_pred('\n')).0.len() == keep(s, newline()).len(),
        crate::text::split_scan(s, crate::text::eq_pred('\n')).1.len() == 0 <==> (s.len() == 0 || s.last() == '\n'),
    decreases s.len(),
{
    if s.len() > 0 {
        lemma_line_pieces(s.drop_last());
    }
}

/// `str::lines().count()`: the text split at its line feeds gives the
/// lines, except that a final empty piece (after a last line feed, or of an
/// empty text) is not a line.
pub proof fn line_count_is_lines(s: Seq<char>)
    ensures
        line_count(s) == crate::text::split_on(s, '\n').len() - if crate::text::split_on(s, '\n').last().len() == 0 {
            1int
        } else {
            0int
        },
        (forall|i: int| 0 <= i < s.len() ==> #[trigger] s[i] != '\n') ==> line_count(s) == if s.len() > 0 {
            1nat
        } else {
            0nat
        },
{
    lemma_line_pieces(s);
    if forall|i: int| 0 <= i < s.len() ==> #[trigger] s[i] != '\n' {
        assert forall|i: int| 0 <= i < s.len() implies !#[trigger] newline()(s[i]) by {
            assert(s[i] != '\n');
        }
        crate::text::lemma_keep_none(s, newline());
    }
}

} // verus!
