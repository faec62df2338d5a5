//! Formatting and minifying JSON text with `serde_json`.
use crate::text::{chars_of, push_str, string_of, trim, trim_chars};
use vstd::prelude::*;

verus! {

/// What reading a text as one document and printing it again gives: the
/// printed text, or the message of the error that reading or printing met.
pub enum Reprinted {
    Text(String),
    ReadError(String),
    PrintError(String),
}

/// The view of a `Reprinted`.
pub enum ReprintedView {
    Text(Seq<char>),
    ReadError(Seq<char>),
    PrintError(Seq<char>),
}

impl View for Reprinted {
    type V = ReprintedView;

    open spec fn view(&self) -> ReprintedView {
        match self {
            Reprinted::Text(s) => ReprintedView::Text(s@),
            Reprinted::ReadError(s) => ReprintedView::ReadError(s@),
            Reprinted::PrintError(s) => ReprintedView::PrintError(s@),
        }
    }
}

/// What `serde_json` gives for a text read as a `serde_json::Value` and
/// printed with `to_string_pretty` (two-space indentation).
pub uninterp spec fn json_pretty_of(text: Seq<char>) -> ReprintedView;

/// What `serde_json` gives for a text read as a `serde_json::Value` and
/// printed with `to_string` (no whitespace).
pub uninterp spec fn json_compact_of(text: Seq<char>) -> ReprintedView;

/// Calls `serde_json::from_str::<Value>` and then `serde_json::to_string_pretty`;
/// errors are turned into their messages. The result is named.
#[verifier::external_body]
pub(crate) fn json_pretty(text: &str) -> (res: Reprinted)
    ensures
        res@ == json_pretty_of(text@),
{
    match serde_json::from_str::<serde_json::Value>(text) {
        Err(e) => Reprinted::ReadError(e.to_string()),
        Ok(v) => match serde_json::to_string_pretty(&v) {
            Ok(s) => Reprinted::Text(s),
            Err(e) => Reprinted::PrintError(e.to_string()),
        },
    }
}

/// Calls `serde_json::from_str::<Value>` and then `serde_json::to_string`;
/// errors are turned into their messages. The result is named.
#[verifier::external_body]
pub(crate) fn json_compact(text: &str) -> (res: Reprinted)
    ensures
        res@ == json_compact_of(text@),
{
    match serde_json::from_str::<serde_json::Value>(text) {
        Err(e) => Reprinted::ReadError(e.to_string()),
        Ok(v) => match serde_json::to_string(&v) {
            Ok(s) => Reprinted::Text(s),
            Err(e) => Reprinted::PrintError(e.to_string()),
        },
    }
}

/// What `format_json` returns: the reprinted text, `Invalid JSON: ` and the
/// reading error, or the printing error as it is.
pub open spec fn format_json_spec(text: Seq<char>, pretty: bool) -> Result<Seq<char>, Seq<char>> {
    match if pretty { json_pretty_of(text) } else { json_compact_of(text) } {
        ReprintedView::Text(t) => Ok(t),
        ReprintedView::ReadError(e) => Err("Invalid JSON: "@ + e),
        ReprintedView::PrintError(e) => Err(e),
    }
}

/// Reads JSON text and prints it again, indented (`pretty`) or minified.
pub fn format_json(text: &str, pretty: bool) -> (res: Result<String, String>)
    ensures
        match res {
            Ok(s) => format_json_spec(text@, pretty) == Ok::<Seq<char>, Seq<char>>(s@),
            Err(e) => format_json_spec(text@, pretty) == Err::<Seq<char>, Seq<char>>(e@),
        },
{
    let r = if pretty { json_pretty(text) } else { json_compact(text) };
    match r {
        Reprinted::Text(t) => Ok(t),
        Reprinted::ReadError(e) => {
            let mut msg = chars_of("Invalid JSON: ");
            push_str(&mut msg, e.as_str());
            Err(string_of(msg.as_slice()))
        },
        Reprinted::PrintError(e) => Err(e),
    }
}

/// What the formatter shows for an input: nothing for blank input,
/// otherwise the reprinted document or the message.
pub fn formatter_output(text: &str, pretty: bool) -> (res: String)
    ensures
        trim(text@).len() == 0 ==> res@.len() == 0,
        trim(text@).len() > 0 ==> res@ == match format_json_spec(text@, pretty) {
            Ok(s) => s,
            Err(e) => e,
        },
{
    let cs = chars_of(text);
    if trim_chars(cs.as_slice()).len() == 0 {
        let e: Vec<char> = Vec::new();
        return string_of(e.as_slice());
    }
    match format_json(text, pretty) {
        Ok(s) => s,
        Err(e) => e,
    }
}

} // verus!
