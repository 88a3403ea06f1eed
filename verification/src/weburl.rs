//! Absolute URLs, parsed and resolved by the `url` crate.
use vstd::prelude::*;

use url::Url;

verus! {

#[verifier::external_type_specification]
#[verifier::external_body]
pub struct ExUrl(Url);

/// What `url::Url::parse` gives for a text: the URL's serialisation and
/// scheme, or the text of its error.
pub uninterp spec fn url_parse_result(input: Seq<char>) -> Result<(Seq<char>, Seq<char>), Seq<char>>;

/// What `url::Url::join` gives for the URL whose serialisation is `base`
/// and a (possibly relative) reference: the serialisation and scheme of the
/// resolved URL, or the text of its error.
pub uninterp spec fn url_join_result(base: Seq<char>, input: Seq<char>) -> Result<
    (Seq<char>, Seq<char>),
    Seq<char>,
>;

/// An absolute URL: the parsed value with its serialisation and scheme.
#[derive(Debug)]
pub struct WebUrl {
    url: Url,
    href: String,
    scheme: String,
}

impl View for WebUrl {
    /// The serialisation and the scheme.
    type V = (Seq<char>, Seq<char>);

    closed spec fn view(&self) -> (Seq<char>, Seq<char>) {
        (self.href@, self.scheme@)
    }
}

/// The parts of a parse or resolution result, with the error as text.
pub open spec fn url_outcome(r: Result<WebUrl, String>) -> Result<(Seq<char>, Seq<char>), Seq<char>> {
    match r {
        Ok(u) => Ok(u@),
        Err(e) => Err(e@),
    }
}

/// `url::Url::parse`: the result is the named parse result of `input`.
#[verifier::external_body]
fn url_parse(input: &str) -> (r: Result<WebUrl, String>)
    ensures
        url_outcome(r) == url_parse_result(input@),
{
    match Url::parse(input) {
        Ok(url) => Ok(WebUrl { href: url.as_str().to_owned(), scheme: url.scheme().to_owned(), url }),
        Err(error) => Err(error.to_string()),
    }
}

/// `url::Url::join`: the result is the named resolution of `input`
/// against the serialisation of `base`.
#[verifier::external_body]
pub(crate) fn url_join(base: &WebUrl, input: &str) -> (r: Result<WebUrl, String>)
    ensures
        url_outcome(r) == url_join_result(base@.0, input@),
{
    match base.url.join(input) {
        Ok(url) => Ok(WebUrl { href: url.as_str().to_owned(), scheme: url.scheme().to_owned(), url }),
        Err(error) => Err(error.to_string()),
    }
}

impl WebUrl {
    /// Parses an absolute URL; the error is the parser's message.
    pub fn parse(input: &str) -> (r: Result<WebUrl, String>)
        ensures
            url_outcome(r) == url_parse_result(input@),
    {
        url_parse(input)
    }

    /// The serialisation of the URL.
    pub fn as_str(&self) -> (s: &str)
        ensures
            s@ == self@.0,
    {
        self.href.as_str()
    }

    /// The scheme of the URL, lowercase and without the colon.
    pub fn scheme(&self) -> (s: &str)
        ensures
            s@ == self@.1,
    {
        self.scheme.as_str()
    }
}

} // verus!
