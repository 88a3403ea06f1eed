//! Site settings: the name of the site and the link to its repository.
use http::Uri;
use vstd::prelude::*;

use crate::model::text_view;
use crate::text::{chars_of, lemma_trim_idempotent, string_of, text_eq, trim, trim_chars};

verus! {

/// The name of the site.
pub const TITLE: &'static str = "Yoyaku";

/// The heading shown in the page header.
pub const HEADER_TITLE: &'static str = "要約記事録";

/// The environment variable that holds the repository URL.
pub const REPOSITORY_URL_ENV: &'static str = "YOYAKU_REPOSITORY_URL";

/// What parsing a text as an `http::Uri` gives: its scheme, if any, and
/// whether it has an authority; nothing when the text is not a URI.
pub uninterp spec fn uri_parts(s: Seq<char>) -> Option<(Option<Seq<char>>, bool)>;

/// `str::parse::<http::Uri>`, then `Uri::scheme_str` and whether
/// `Uri::authority` is present: the result is the named parts of `s`.
#[verifier::external_body]
fn parse_uri(s: &str) -> (r: Option<(Option<String>, bool)>)
    ensures
        uri_parts_view(r) == uri_parts(s@),
{
    match s.parse::<Uri>() {
        Ok(uri) => Some((uri.scheme_str().map(str::to_owned), uri.authority().is_some())),
        Err(_) => None,
    }
}

/// The parts of a URI parse, with the scheme as text.
pub open spec fn uri_parts_view(parts: Option<(Option<String>, bool)>) -> Option<(Option<Seq<char>>, bool)> {
    match parts {
        Some((scheme, authority)) => Some((text_view(scheme), authority)),
        None => None,
    }
}

/// The text `t` when the parts of its URI parse give an http or https
/// scheme and an authority.
pub open spec fn http_url_of_parts(t: Seq<char>, parts: Option<(Option<Seq<char>>, bool)>) -> Option<Seq<char>> {
    match parts {
        Some((Some(scheme), true)) => if scheme == "http"@ || scheme == "https"@ {
            Some(t)
        } else {
            None
        },
        _ => None,
    }
}

/// The trimmed value when it is an http or https URI with an authority.
pub open spec fn valid_http_url(v: Seq<char>) -> Option<Seq<char>> {
    http_url_of_parts(trim(v), uri_parts(trim(v)))
}

/// The trimmed text, given the parts of its URI parse, when they name an
/// http or https URI with an authority.
pub fn http_url_from_parts(trimmed: String, parts: Option<(Option<String>, bool)>) -> (r: Option<String>)
    ensures
        text_view(r) == http_url_of_parts(trimmed@, uri_parts_view(parts)),
{
    match parts {
        Some((Some(scheme), true)) => {
            if text_eq(scheme.as_str(), "http") || text_eq(scheme.as_str(), "https") {
                Some(trimmed)
            } else {
                None
            }
        },
        _ => None,
    }
}

fn valid_http_url_of(value: String) -> (r: Option<String>)
    ensures
        text_view(r) == valid_http_url(value@),
{
    let trimmed = string_of(&trim_chars(&chars_of(value.as_str())));
    let parts = parse_uri(trimmed.as_str());
    http_url_from_parts(trimmed, parts)
}

/// The settings of a site.
#[derive(Debug)]
pub struct SiteConfig {
    repository_url: Option<String>,
}

impl View for SiteConfig {
    /// The repository URL.
    type V = Option<Seq<char>>;

    closed spec fn view(&self) -> Option<Seq<char>> {
        text_view(self.repository_url)
    }
}

impl SiteConfig {
    /// Only an http or https URL, trimmed, is kept.
    #[verifier::type_invariant]
    spec fn well_formed(self) -> bool {
        self.repository_url matches Some(u) ==> valid_http_url(u@) == Some(u@)
    }

    /// Settings whose repository link is the given URL, trimmed, when it
    /// is an http or https URL with an authority, and none otherwise.
    pub fn new(repository_url: Option<String>) -> (c: SiteConfig)
        ensures
            c@ == match repository_url {
                Some(v) => valid_http_url(v@),
                None => None,
            },
    {
        let ghost input = repository_url;
        let url = match repository_url {
            Some(v) => valid_http_url_of(v),
            None => None,
        };
        proof {
            if let Some(v) = input {
                lemma_trim_idempotent(v@);
            }
        }
        SiteConfig { repository_url: url }
    }

    /// The repository link, if the site has one; it is always an http or
    /// https URL without surrounding white space.
    pub fn repository_url(&self) -> (r: Option<&str>)
        ensures
            match r {
                Some(u) => self@ == Some(u@) && valid_http_url(u@) == Some(u@),
                None => self@ is None,
            },
    {
        proof {
            use_type_invariant(self);
        }
        match &self.repository_url {
            Some(u) => Some(u.as_str()),
            None => None,
        }
    }
}

impl Default for SiteConfig {
    fn default() -> (c: Self)
        ensures
            c@ is None,
    {
        SiteConfig { repository_url: None }
    }
}

impl Clone for SiteConfig {
    fn clone(&self) -> (c: Self)
        ensures
            c@ == self@,
    {
        proof {
            use_type_invariant(self);
        }
        SiteConfig {
            repository_url: match &self.repository_url {
                Some(u) => Some(u.clone()),
                None => None,
            },
        }
    }
}

/// A link is kept unchanged or not at all: it is kept exactly when its URI
/// parse gives a scheme that is `http` or `https` and an authority.
pub proof fn lemma_http_url_rule(t: Seq<char>, parts: Option<(Option<Seq<char>>, bool)>)
    ensures
        http_url_of_parts(t, parts) is Some ==> http_url_of_parts(t, parts) == Some(t),
        http_url_of_parts(t, parts) is Some <==> (parts is Some && parts.unwrap().1 && parts.unwrap().0
            is Some && (parts.unwrap().0.unwrap() == "http"@ || parts.unwrap().0.unwrap()
            == "https"@)),
{
}

/// Settings made from a configuration's own link are the same settings.
pub proof fn lemma_site_config_stable(v: Seq<char>)
    requires
        valid_http_url(v) is Some,
    ensures
        valid_http_url(valid_http_url(v).unwrap()) == valid_http_url(v),
{
    lemma_trim_idempotent(v);
}

} // verus!
