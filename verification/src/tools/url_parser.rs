//! Splitting a URL into its parts with the `url` crate (WHATWG URL parsing).
use crate::radix::{digits_of, format_radix};
use crate::text::{chars_of, push_str, string_of, trim, trim_chars};
use vstd::prelude::*;

verus! {

/// The parts of a URL; absent parts are empty.
#[derive(Clone, Debug)]
pub struct UrlParts {
    pub scheme: String,
    pub host: String,
    pub port: String,
    pub path: String,
    pub query: String,
    pub fragment: String,
}

/// The pieces that the `url` crate reads from a text: scheme, host, explicit
/// port, path, query and fragment, or the message of its parse error.
pub uninterp spec fn url_pieces_of(text: Seq<char>) -> Result<
    (Seq<char>, Option<Seq<char>>, Option<u16>, Seq<char>, Option<Seq<char>>, Option<Seq<char>>),
    Seq<char>,
>;

pub open spec fn opt_view(o: Option<String>) -> Option<Seq<char>> {
    match o {
        Some(s) => Some(s@),
        None => None,
    }
}

/// Calls `url::Url::parse` and reads `scheme`, `host_str`, `port`, `path`,
/// `query` and `fragment` of the result, or the error's message. The result
/// is named.
#[verifier::external_body]
fn url_pieces(text: &str) -> (res: Result<(String, Option<String>, Option<u16>, String, Option<String>, Option<String>), String>)
    ensures
        match res {
            Ok((s, h, p, pa, q, f)) => url_pieces_of(text@) == Ok::<
                (Seq<char>, Option<Seq<char>>, Option<u16>, Seq<char>, Option<Seq<char>>, Option<Seq<char>>),
                Seq<char>,
            >((s@, opt_view(h), p, pa@, opt_view(q), opt_view(f))),
            Err(e) => url_pieces_of(text@) == Err::<
                (Seq<char>, Option<Seq<char>>, Option<u16>, Seq<char>, Option<Seq<char>>, Option<Seq<char>>),
                Seq<char>,
            >(e@),
        },
{
    match url::Url::parse(text) {
        Ok(u) => Ok((
            u.scheme().to_string(),
            u.host_str().map(|h| h.to_string()),
            u.port(),
            u.path().to_string(),
            u.query().map(|q| q.to_string()),
            u.fragment().map(|f| f.to_string()),
        )),
        Err(e) => Err(e.to_string()),
    }
}

pub open spec fn or_empty(o: Option<Seq<char>>) -> Seq<char> {
    match o {
        Some(s) => s,
        None => Seq::empty(),
    }
}

/// The view of the parts: scheme, host, port, path, query, fragment.
pub open spec fn parts_view(p: UrlParts) -> (Seq<char>, Seq<char>, Seq<char>, Seq<char>, Seq<char>, Seq<char>) {
    (p.scheme@, p.host@, p.port@, p.path@, p.query@, p.fragment@)
}

/// What `parse_url` returns for a text.
pub open spec fn parse_url_spec(text: Seq<char>) -> Result<(Seq<char>, Seq<char>, Seq<char>, Seq<char>, Seq<char>, Seq<char>), Seq<char>> {
    let t = trim(text);
    if t.len() == 0 {
        Err("URL is empty"@)
    } else {
        match url_pieces_of(t) {
            Err(e) => Err("Invalid URL: "@ + e),
            Ok((s, h, p, pa, q, f)) => Ok((
                s,
                or_empty(h),
                match p {
                    Some(n) => digits_of(n as nat, 10),
                    None => Seq::empty(),
                },
                pa,
                or_empty(q),
                or_empty(f),
            )),
        }
    }
}

fn or_empty_string(o: Option<String>) -> (res: String)
    ensures
        res@ == or_empty(opt_view(o)),
{
    match o {
        Some(s) => s,
        None => {
            let e: Vec<char> = Vec::new();
            string_of(e.as_slice())
        },
    }
}

/// Splits a URL (surrounding whitespace ignored) into scheme, host, port,
/// path, query and fragment.
pub fn parse_url(text: &str) -> (res: Result<UrlParts, String>)
    ensures
        match res {
            Ok(p) => parse_url_spec(text@) == Ok::<(Seq<char>, Seq<char>, Seq<char>, Seq<char>, Seq<char>, Seq<char>), Seq<char>>(parts_view(p)),
            Err(e) => parse_url_spec(text@) == Err::<(Seq<char>, Seq<char>, Seq<char>, Seq<char>, Seq<char>, Seq<char>), Seq<char>>(e@),
        },
{
    let cs = chars_of(text);
    let tc = trim_chars(cs.as_slice());
    if tc.len() == 0 {
        return Err(string_of(chars_of("URL is empty").as_slice()));
    }
    let t = string_of(tc.as_slice());
    match url_pieces(t.as_str()) {
        Err(e) => {
            let mut msg = chars_of("Invalid URL: ");
            push_str(&mut msg, e.as_str());
            Err(string_of(msg.as_slice()))
        },
        Ok((scheme, host, port, path, query, fragment)) => {
            let port_text = match port {
                Some(n) => string_of(format_radix(n as u128, 10).as_slice()),
                None => {
                    let e: Vec<char> = Vec::new();
                    string_of(e.as_slice())
                },
            };
            Ok(UrlParts {
                scheme,
                host: or_empty_string(host),
                port: port_text,
                path,
                query: or_empty_string(query),
                fragment: or_empty_string(fragment),
            })
        },
    }
}

} // verus!
