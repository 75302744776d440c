//! URLs, parsed by the `url` crate. A parsed URL is kept as the plain values
//! that the sync reads: its serialization, its scheme and its host.
use vstd::prelude::*;

verus! {

/// A URL that the `url` crate parsed: its serialization (`Url::as_str`), its
/// scheme and its host (`Url::host_str`).
#[derive(Clone, Debug)]
pub struct ParsedUrl {
    pub href: String,
    pub scheme: String,
    pub host: Option<String>,
}

/// The plain values of a parsed URL.
pub struct ParsedUrlView {
    pub href: Seq<char>,
    pub scheme: Seq<char>,
    pub host: Option<Seq<char>>,
}

pub open spec fn opt_string_view(s: Option<String>) -> Option<Seq<char>> {
    match s {
        Some(v) => Some(v@),
        None => None,
    }
}

impl View for ParsedUrl {
    type V = ParsedUrlView;

    open spec fn view(&self) -> ParsedUrlView {
        ParsedUrlView { href: self.href@, scheme: self.scheme@, host: opt_string_view(self.host) }
    }
}

impl ParsedUrl {
    /// A field-by-field copy.
    pub fn duplicate(&self) -> (r: Self)
        ensures
            r@ == self@,
    {
        ParsedUrl {
            href: self.href.clone(),
            scheme: self.scheme.clone(),
            host: match &self.host {
                Some(h) => Some(h.clone()),
                None => None,
            },
        }
    }
}

/// A parse or join result seen through the views of its parts.
pub open spec fn url_result_view(r: Result<ParsedUrl, String>) -> Result<ParsedUrlView, Seq<char>> {
    match r {
        Ok(u) => Ok(u@),
        Err(e) => Err(e@),
    }
}

/// What `Url::parse` gives for `input`: the parsed URL, or the message of its
/// `ParseError`.
pub uninterp spec fn url_parse_result(input: Seq<char>) -> Result<ParsedUrlView, Seq<char>>;

/// What `Url::join` gives for the URL that `base` serializes and `input`: the
/// resolved URL, or the message of its `ParseError`.
pub uninterp spec fn url_join_result(base: Seq<char>, input: Seq<char>) -> Result<ParsedUrlView, Seq<char>>;

/// `url::Url::parse`, its result read through `Url::as_str`, `Url::scheme` and
/// `Url::host_str`, its error through `Display`. The contract only names the
/// result: what the crate parses, and how, is not stated here.
#[verifier::external_body]
pub(crate) fn parse_url(input: &str) -> (r: Result<ParsedUrl, String>)
    ensures
        url_result_view(r) == url_parse_result(input@),
{
    match url::Url::parse(input) {
        Ok(u) => Ok(
            ParsedUrl {
                href: u.as_str().to_string(),
                scheme: u.scheme().to_string(),
                host: u.host_str().map(|h| h.to_string()),
            },
        ),
        Err(e) => Err(e.to_string()),
    }
}

/// `url::Url::join` on the URL that `base.href` serializes (the crate parses a
/// serialization back to the same URL), read as in `parse_url`. The contract
/// only names the result.
#[verifier::external_body]
pub(crate) fn join_url(base: &ParsedUrl, input: &str) -> (r: Result<ParsedUrl, String>)
    ensures
        url_result_view(r) == url_join_result(base@.href, input@),
{
    let joined = match url::Url::parse(&base.href) {
        Ok(b) => b.join(input),
        Err(e) => Err(e),
    };
    match joined {
        Ok(u) => Ok(
            ParsedUrl {
                href: u.as_str().to_string(),
                scheme: u.scheme().to_string(),
                host: u.host_str().map(|h| h.to_string()),
            },
        ),
        Err(e) => Err(e.to_string()),
    }
}

} // verus!
