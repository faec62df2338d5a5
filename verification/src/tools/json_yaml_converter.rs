//! Conversion between JSON and YAML documents.
use crate::text::{chars_of, push_str, string_of, trim, trim_chars};
use crate::tools::json_formatter::{Reprinted, ReprintedView};
use vstd::prelude::*;

verus! {

/// What reading a text as JSON (`serde_json`) and printing the value as YAML
/// (`serde_yaml::to_string`) gives.
pub uninterp spec fn yaml_of_json(text: Seq<char>) -> ReprintedView;

/// What reading a text as YAML (`serde_yaml`, into a `serde_json::Value`) and
/// printing it as indented JSON (`serde_json::to_string_pretty`) gives.
pub uninterp spec fn json_of_yaml(text: Seq<char>) -> ReprintedView;

/// Calls `serde_json::from_str::<Value>` and `serde_yaml::to_string`; errors
/// become their messages. The result is named.
#[verifier::external_body]
fn reprint_json_as_yaml(text: &str) -> (res: Reprinted)
    ensures
        res@ == yaml_of_json(text@),
{
    match serde_json::from_str::<serde_json::Value>(text) {
        Err(e) => Reprinted::ReadError(e.to_string()),
        Ok(v) => match serde_yaml::to_string(&v) {
            Ok(s) => Reprinted::Text(s),
            Err(e) => Reprinted::PrintError(e.to_string()),
        },
    }
}

/// Calls `serde_yaml::from_str::<serde_json::Value>` and
/// `serde_json::to_string_pretty`; errors become their messages. The result
/// is named.
#[verifier::external_body]
fn reprint_yaml_as_json(text: &str) -> (res: Reprinted)
    ensures
        res@ == json_of_yaml(text@),
{
    match serde_yaml::from_str::<serde_json::Value>(text) {
        Err(e) => Reprinted::ReadError(e.to_string()),
        Ok(v) => match serde_json::to_string_pretty(&v) {
            Ok(s) => Reprinted::Text(s),
            Err(e) => Reprinted::PrintError(e.to_string()),
        },
    }
}

/// A conversion outcome with its messages: the reading error is prefixed,
/// a printing error is replaced by `failure`.
pub open spec fn conversion_result(r: ReprintedView, read_prefix: Seq<char>, failure: Seq<char>) -> Result<Seq<char>, Seq<char>> {
    match r {
        ReprintedView::Text(t) => Ok(t),
        ReprintedView::ReadError(e) => Err(read_prefix + e),
        ReprintedView::PrintError(_) => Err(failure),
    }
}

pub open spec fn json_to_yaml_spec(text: Seq<char>) -> Result<Seq<char>, Seq<char>> {
    conversion_result(yaml_of_json(text), "Invalid JSON: "@, "Error converting to YAML"@)
}

pub open spec fn yaml_to_json_spec(text: Seq<char>) -> Result<Seq<char>, Seq<char>> {
    conversion_result(json_of_yaml(text), "Invalid YAML: "@, "Error converting to JSON"@)
}

fn finish(r: Reprinted, read_prefix: &str, failure: &str) -> (res: Result<String, String>)
    ensures
        match res {
            Ok(s) => conversion_result(r@, read_prefix@, failure@) == Ok::<Seq<char>, Seq<char>>(s@),
            Err(e) => conversion_result(r@, read_prefix@, failure@) == Err::<Seq<char>, Seq<char>>(e@),
        },
{
    match r {
        Reprinted::Text(t) => Ok(t),
        Reprinted::ReadError(e) => {
            let mut msg = chars_of(read_prefix);
            push_str(&mut msg, e.as_str());
            Err(string_of(msg.as_slice()))
        },
        Reprinted::PrintError(_) => Err(string_of(chars_of(failure).as_slice())),
    }
}

/// Converts a JSON document to YAML.
pub fn json_to_yaml(text: &str) -> (res: Result<String, String>)
    ensures
        match res {
            Ok(s) => json_to_yaml_spec(text@) == Ok::<Seq<char>, Seq<char>>(s@),
            Err(e) => json_to_yaml_spec(text@) == Err::<Seq<char>, Seq<char>>(e@),
        },
{
    finish(reprint_json_as_yaml(text), "Invalid JSON: ", "Error converting to YAML")
}

/// Converts a YAML document to indented JSON.
pub fn yaml_to_json(text: &str) -> (res: Result<String, String>)
    ensures
        match res {
            Ok(s) => yaml_to_json_spec(text@) == Ok::<Seq<char>, Seq<char>>(s@),
            Err(e) => yaml_to_json_spec(text@) == Err::<Seq<char>, Seq<char>>(e@),
        },
{
    finish(reprint_yaml_as_json(text), "Invalid YAML: ", "Error converting to JSON")
}

pub open spec fn either(r: Result<Seq<char>, Seq<char>>) -> Seq<char> {
    match r {
        Ok(s) => s,
        Err(e) => e,
    }
}

/// What the converter shows for an input: nothing for blank input,
/// otherwise the converted document or the message.
pub fn conversion_output(text: &str, to_yaml: bool) -> (res: String)
    ensures
        trim(text@).len() == 0 ==> res@.len() == 0,
        trim(text@).len() > 0 ==> res@ == either(
            if to_yaml { json_to_yaml_spec(text@) } else { yaml_to_json_spec(text@) },
        ),
{
    let cs = chars_of(text);
    if trim_chars(cs.as_slice()).len() == 0 {
        let e: Vec<char> = Vec::new();
        return string_of(e.as_slice());
    }
    let r = if to_yaml { json_to_yaml(text) } else { yaml_to_json(text) };
    match r {
        Ok(s) => s,
        Err(e) => e,
    }
}

} // verus!
