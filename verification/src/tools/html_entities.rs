//! Escaping of text for HTML, and decoding of HTML character references.
use crate::text::string_of;
use vstd::prelude::*;

verus! {

/// The escape of one character in HTML text: `&`, `<` and `>` become
/// `&amp;`, `&lt;` and `&gt;`; every other character stays.
pub open spec fn html_escape_char(c: char) -> Seq<char> {
    if c == '&' {
        seq!['&', 'a', 'm', 'p', ';']
    } else if c == '<' {
        seq!['&', 'l', 't', ';']
    } else if c == '>' {
        seq!['&', 'g', 't', ';']
    } else {
        seq![c]
    }
}

/// Text escaped for use as HTML text.
pub open spec fn html_escaped(s: Seq<char>) -> Seq<char>
    decreases s.len(),
{
    if s.len() == 0 {
        Seq::empty()
    } else {
        html_escaped(s.drop_last()) + html_escape_char(s.last())
    }
}

/// What `html_escape::decode_html_entities` gives for a text: the text with
/// its exact named and numeric character references decoded.
pub uninterp spec fn html_unescaped_of(s: Seq<char>) -> Seq<char>;

/// Calls `html_escape::encode_text`, which replaces `&`, `<` and `>` with
/// `&amp;`, `&lt;` and `&gt;`.
#[verifier::external_body]
fn escape_text(text: &str) -> (res: String)
    ensures
        res@ == html_escaped(text@),
{
    html_escape::encode_text(text).into_owned()
}

/// Calls `html_escape::decode_html_entities`; the result is named.
#[verifier::external_body]
fn unescape_text(text: &str) -> (res: String)
    ensures
        res@ == html_unescaped_of(text@),
{
    html_escape::decode_html_entities(text).into_owned()
}

/// Escapes `&`, `<` and `>` for HTML text.
pub fn encode_html_text(text: &str) -> (res: String)
    ensures
        res@ == html_escaped(text@),
{
    escape_text(text)
}

/// Decodes the HTML character references in a text.
pub fn decode_html_text(text: &str) -> (res: String)
    ensures
        res@ == html_unescaped_of(text@),
{
    unescape_text(text)
}

/// Escaped text holds no `<` or `>`.
pub proof fn escaped_has_no_angle_brackets(s: Seq<char>)
    ensures
        forall|i: int| 0 <= i < html_escaped(s).len() ==> #[trigger] html_escaped(s)[i] != '<' && html_escaped(s)[i] != '>',
    decreases s.len(),
{
    if s.len() > 0 {
        escaped_has_no_angle_brackets(s.drop_last());
        let a = html_escaped(s.drop_last());
        let b = html_escape_char(s.last());
        assert forall|i: int| 0 <= i < html_escaped(s).len() implies #[trigger] html_escaped(s)[i] != '<' && html_escaped(s)[i] != '>' by {
            if i < a.len() {
                assert(html_escaped(s)[i] == a[i]);
            } else {
                assert(html_escaped(s)[i] == b[i - a.len()]);
            }
        }
    }
}

} // verus!
