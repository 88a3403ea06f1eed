//! Open Graph metadata: reading it from an article page, and the rules for
//! fetching the page.
use scraper::{Html, Selector};
use vstd::prelude::*;

use crate::model::{Ogp, OgpView, text_view};
use crate::text::{
    ascii_lowercase, ascii_lowercase_chars, chars_eq, chars_of, contains_chars, extend_chars,
    extend_str, has_prefix, occurs_in, starts_with, string_of, trim, trim_chars,
};
use crate::weburl::{WebUrl, url_join, url_join_result};

verus! {

/// The largest page, in bytes, that is read.
pub const MAX_HTML_BYTES: u64 = 2_000_000;

/// The product token that the fetcher sends as its User-Agent.
pub const USER_AGENT: &'static str = "yoyaku/0.1";

/// A `<meta>` element of a page: its `property`, `name` and `content`
/// attributes.
pub struct MetaTag {
    pub property: Option<String>,
    pub name: Option<String>,
    pub content: Option<String>,
}

/// The attribute texts of a `<meta>` element.
pub type MetaView = (Option<Seq<char>>, Option<Seq<char>>, Option<Seq<char>>);

pub open spec fn meta_view(m: MetaTag) -> MetaView {
    (text_view(m.property), text_view(m.name), text_view(m.content))
}

pub open spec fn meta_views(v: Seq<MetaTag>) -> Seq<MetaView> {
    v.map_values(|m: MetaTag| meta_view(m))
}

/// The `<meta>` elements that `scraper` finds in a page, in document order,
/// with their `property`, `name` and `content` attributes.
pub uninterp spec fn html_meta_tags(html: Seq<char>) -> Seq<MetaView>;

/// The text of the first `<title>` element that `scraper` finds in a page.
pub uninterp spec fn html_title_text(html: Seq<char>) -> Option<Seq<char>>;

/// `scraper::Html::parse_document`, then the `meta` selector: every
/// `<meta>` element with its three attributes, as the named list.
#[verifier::external_body]
fn meta_tags(html: &str) -> (r: Vec<MetaTag>)
    ensures
        meta_views(r@) == html_meta_tags(html@),
{
    let document = Html::parse_document(html);
    let selector = Selector::parse("meta").expect("valid meta selector");
    document.select(&selector).map(|element| MetaTag {
        property: element.value().attr("property").map(str::to_owned),
        name: element.value().attr("name").map(str::to_owned),
        content: element.value().attr("content").map(str::to_owned),
    }).collect()
}

/// `scraper::Html::parse_document`, then the first match of the `title`
/// selector and its text: the named title text.
#[verifier::external_body]
fn title_text(html: &str) -> (r: Option<String>)
    ensures
        text_view(r) == html_title_text(html@),
{
    let document = Html::parse_document(html);
    let selector = Selector::parse("title").expect("valid title selector");
    document.select(&selector).next().map(|element| element.text().collect::<String>())
}

/// The key of a `<meta>` element: its `property`, else its `name`.
pub open spec fn meta_key(m: MetaView) -> Option<Seq<char>> {
    match m.0 {
        Some(p) => Some(p),
        None => m.1,
    }
}

/// A text trimmed, when something is left.
pub open spec fn non_blank(t: Option<Seq<char>>) -> Option<Seq<char>> {
    match t {
        Some(c) => if trim(c).len() > 0 {
            Some(trim(c))
        } else {
            None
        },
        None => None,
    }
}

/// The content of the first `<meta>` element whose key, lowercased, is
/// `key` and whose content is not blank.
pub open spec fn meta_lookup(metas: Seq<MetaView>, key: Seq<char>) -> Option<Seq<char>>
    decreases metas.len(),
{
    if metas.len() == 0 {
        None
    } else {
        let m = metas[0];
        if meta_key(m) is Some && non_blank(m.2) is Some && ascii_lowercase(meta_key(m).unwrap())
            == key {
            non_blank(m.2)
        } else {
            meta_lookup(metas.drop_first(), key)
        }
    }
}

/// The first of two alternatives that is present.
pub open spec fn either(a: Option<Seq<char>>, b: Option<Seq<char>>) -> Option<Seq<char>> {
    match a {
        Some(x) => Some(x),
        None => b,
    }
}

/// The Open Graph metadata of a page: title from `og:title`, else
/// `twitter:title`, else the `<title>` text; description from
/// `og:description`, else `twitter:description`, else `description`;
/// image from `og:image`, else `twitter:image`, resolved against the page
/// URL and kept only when it is http or https.
pub open spec fn ogp_of(html: Seq<char>, base: Seq<char>) -> OgpView {
    ogp_of_parts(html_meta_tags(html), html_title_text(html), base)
}

/// The Open Graph metadata given the `<meta>` elements and the `<title>`
/// text of a page whose URL is `base`, chosen as for [`ogp_of`].
pub open spec fn ogp_of_parts(
    metas: Seq<MetaView>,
    title_text: Option<Seq<char>>,
    base: Seq<char>,
) -> OgpView {
    let title = either(
        either(meta_lookup(metas, "og:title"@), meta_lookup(metas, "twitter:title"@)),
        non_blank(title_text),
    );
    let description = either(
        either(meta_lookup(metas, "og:description"@), meta_lookup(metas, "twitter:description"@)),
        meta_lookup(metas, "description"@),
    );
    let image = match either(meta_lookup(metas, "og:image"@), meta_lookup(metas, "twitter:image"@)) {
        Some(reference) => match url_join_result(base, reference) {
            Ok((href, scheme)) => if scheme == "http"@ || scheme == "https"@ {
                Some(href)
            } else {
                None
            },
            Err(_) => None,
        },
        None => None,
    };
    OgpView { image_url: image, title, description }
}

/// A text trimmed, when something is left.
fn non_blank_text(t: &Option<String>) -> (r: Option<Vec<char>>)
    ensures
        match r {
            Some(v) => non_blank(text_view(*t)) == Some(v@),
            None => non_blank(text_view(*t)) is None,
        },
{
    match t {
        Some(c) => {
            let trimmed = trim_chars(&chars_of(c.as_str()));
            if trimmed.len() > 0 {
                Some(trimmed)
            } else {
                None
            }
        },
        None => None,
    }
}

fn lookup(metas: &Vec<MetaTag>, key: &str) -> (r: Option<Vec<char>>)
    ensures
        match r {
            Some(v) => meta_lookup(meta_views(metas@), key@) == Some(v@),
            None => meta_lookup(meta_views(metas@), key@) is None,
        },
{
    let wanted = chars_of(key);
    let ghost all = meta_views(metas@);
    let mut i: usize = 0;
    assert(all.skip(0) =~= all);
    while i < metas.len()
        invariant
            i <= metas.len(),
            all == meta_views(metas@),
            wanted@ == key@,
            meta_lookup(all, key@) == meta_lookup(all.skip(i as int), key@),
        decreases metas.len() - i,
    {
        let m = &metas[i];
        let ghost rest = all.skip(i as int);
        assert(rest[0] == meta_view(*m));
        assert(rest.drop_first() =~= all.skip(i + 1));
        let key_text = match &m.property {
            Some(p) => Some(p),
            None => match &m.name {
                Some(n) => Some(n),
                None => None,
            },
        };
        if let Some(k) = key_text {
            if let Some(content) = non_blank_text(&m.content) {
                let lowered = ascii_lowercase_chars(&chars_of(k.as_str()));
                if chars_eq(&lowered, &wanted) {
                    return Some(content);
                }
            }
        }
        i = i + 1;
    }
    None
}

fn first_present(a: Option<Vec<char>>, b: Option<Vec<char>>) -> (r: Option<Vec<char>>)
    ensures
        match r {
            Some(v) => either(
                match a {
                    Some(x) => Some(x@),
                    None => None,
                },
                match b {
                    Some(x) => Some(x@),
                    None => None,
                },
            ) == Some(v@),
            None => a is None && b is None,
        },
{
    match a {
        Some(x) => Some(x),
        None => b,
    }
}

fn to_text(v: Option<Vec<char>>) -> (r: Option<String>)
    ensures
        text_view(r) == match v {
            Some(x) => Some(x@),
            None => None,
        },
{
    match v {
        Some(x) => Some(string_of(&x)),
        None => None,
    }
}

/// The Open Graph metadata of a page whose URL is `base_url`.
pub fn parse_ogp(html: &str, base_url: &WebUrl) -> (r: Ogp)
    ensures
        r@ == ogp_of(html@, base_url@.0),
{
    let metas = meta_tags(html);
    let title = title_text(html);
    ogp_from_parts(&metas, title, base_url)
}

/// The Open Graph metadata given the `<meta>` elements and the `<title>`
/// text of a page whose URL is `base_url`.
pub fn ogp_from_parts(metas: &Vec<MetaTag>, title_text: Option<String>, base_url: &WebUrl) -> (r: Ogp)
    ensures
        r@ == ogp_of_parts(meta_views(metas@), text_view(title_text), base_url@.0),
{
    let title = first_present(
        first_present(lookup(metas, "og:title"), lookup(metas, "twitter:title")),
        non_blank_text(&title_text),
    );
    let description = first_present(
        first_present(lookup(metas, "og:description"), lookup(metas, "twitter:description")),
        lookup(metas, "description"),
    );
    let image_url = match first_present(lookup(metas, "og:image"), lookup(metas, "twitter:image")) {
        Some(reference) => match url_join(base_url, string_of(&reference).as_str()) {
            Ok(url) => {
                if crate::text::text_eq(url.scheme(), "http") || crate::text::text_eq(
                    url.scheme(),
                    "https",
                ) {
                    let mut href: Vec<char> = Vec::new();
                    extend_str(&mut href, url.as_str());
                    Some(string_of(&href))
                } else {
                    None
                }
            },
            Err(_) => None,
        },
        None => None,
    };
    Ogp { image_url, title: to_text(title), description: to_text(description) }
}

/// Whether a `<meta>` element answers for `key`: its `property` (else its
/// `name`), with ASCII capitals made small, is `key`, and its `content` is
/// present and not all white space.
pub open spec fn meta_gives(m: MetaView, key: Seq<char>) -> bool {
    let k = match m.0 {
        Some(p) => Some(p),
        None => m.1,
    };
    &&& k is Some
    &&& ascii_lowercase(k.unwrap()) == key
    &&& m.2 is Some
    &&& trim(m.2.unwrap()).len() > 0
}

/// A lookup answers with the trimmed content of the first `<meta>`
/// element that answers for the key, whatever comes after it.
pub proof fn lemma_meta_lookup_first(metas: Seq<MetaView>, key: Seq<char>, i: int)
    requires
        0 <= i < metas.len(),
        meta_gives(metas[i], key),
        forall|j: int| 0 <= j < i ==> !meta_gives(#[trigger] metas[j], key),
    ensures
        meta_lookup(metas, key) == Some(trim(metas[i].2.unwrap())),
    decreases i,
{
    if i > 0 {
        let rest = metas.drop_first();
        assert forall|j: int| 0 <= j < i - 1 implies !meta_gives(#[trigger] rest[j], key) by {
            assert(rest[j] == metas[j + 1]);
        }
        assert(rest[i - 1] == metas[i]);
        lemma_meta_lookup_first(rest, key, i - 1);
        assert(!meta_gives(metas[0], key));
    }
}

/// A lookup finds nothing exactly when no `<meta>` element answers for
/// the key, and what it finds is the trimmed content of one that does.
pub proof fn lemma_meta_lookup_absent(metas: Seq<MetaView>, key: Seq<char>)
    ensures
        meta_lookup(metas, key) is None <==> forall|j: int|
            0 <= j < metas.len() ==> !meta_gives(#[trigger] metas[j], key),
        meta_lookup(metas, key) matches Some(t) ==> exists|j: int|
            0 <= j < metas.len() && meta_gives(#[trigger] metas[j], key) && t == trim(
                metas[j].2.unwrap(),
            ),
    decreases metas.len(),
{
    if metas.len() > 0 {
        let rest = metas.drop_first();
        lemma_meta_lookup_absent(rest, key);
        assert forall|j: int| 0 < j < metas.len() implies metas[j] == #[trigger] rest[j - 1] by {}
        if meta_gives(metas[0], key) {
            assert(meta_lookup(metas, key) == Some(trim(metas[0].2.unwrap())));
        } else {
            assert(meta_lookup(metas, key) == meta_lookup(rest, key));
            if meta_lookup(metas, key) is None {
                assert forall|j: int| 0 <= j < metas.len() implies !meta_gives(
                    #[trigger] metas[j],
                    key,
                ) by {
                    if j > 0 {
                        assert(metas[j] == rest[j - 1]);
                    }
                }
            } else {
                let t = meta_lookup(metas, key).unwrap();
                let j = choose|j: int|
                    0 <= j < rest.len() && meta_gives(#[trigger] rest[j], key) && t == trim(
                        rest[j].2.unwrap(),
                    );
                assert(metas[j + 1] == rest[j]);
                assert(!(forall|j: int|
                    0 <= j < rest.len() ==> !meta_gives(#[trigger] rest[j], key)));
            }
        }
    }
}

/// The title of a page: a non-blank `og:title` wins over `twitter:title`
/// and over the `<title>` element; `twitter:title` wins over the
/// `<title>` element; the `<title>` text, trimmed, is taken only when
/// neither `<meta>` title is there, and no title is given when it is
/// missing or blank as well.
pub proof fn lemma_ogp_title_choice(metas: Seq<MetaView>, title_text: Option<Seq<char>>, base: Seq<char>)
    ensures
        meta_lookup(metas, "og:title"@) matches Some(t) ==> ogp_of_parts(metas, title_text, base).title
            == Some(t),
        meta_lookup(metas, "og:title"@) is None ==> (meta_lookup(metas, "twitter:title"@) matches Some(
            t,
        ) ==> ogp_of_parts(metas, title_text, base).title == Some(t)),
        meta_lookup(metas, "og:title"@) is None && meta_lookup(metas, "twitter:title"@) is None
            ==> ogp_of_parts(metas, title_text, base).title == if title_text matches Some(x) && trim(
            x,
        ).len() > 0 {
            Some(trim(title_text.unwrap()))
        } else {
            None::<Seq<char>>
        },
{
}

/// The first `<meta>` element whose key is `og:title` and whose content is
/// not blank gives the page's title, whatever the `<title>` element says.
pub proof fn lemma_og_title_wins(
    metas: Seq<MetaView>,
    title_text: Option<Seq<char>>,
    base: Seq<char>,
    i: int,
)
    requires
        0 <= i < metas.len(),
        meta_gives(metas[i], "og:title"@),
        forall|j: int| 0 <= j < i ==> !meta_gives(#[trigger] metas[j], "og:title"@),
    ensures
        ogp_of_parts(metas, title_text, base).title == Some(trim(metas[i].2.unwrap())),
{
    lemma_meta_lookup_first(metas, "og:title"@, i);
}

/// The description of a page: `og:description`, else
/// `twitter:description`, else `description`; the `<title>` element and
/// the page URL play no part in it.
pub proof fn lemma_ogp_description_choice(
    metas: Seq<MetaView>,
    title_text: Option<Seq<char>>,
    other_title_text: Option<Seq<char>>,
    base: Seq<char>,
    other_base: Seq<char>,
)
    ensures
        meta_lookup(metas, "og:description"@) matches Some(t) ==> ogp_of_parts(
            metas,
            title_text,
            base,
        ).description == Some(t),
        meta_lookup(metas, "og:description"@) is None ==> (meta_lookup(
            metas,
            "twitter:description"@,
        ) matches Some(t) ==> ogp_of_parts(metas, title_text, base).description == Some(t)),
        meta_lookup(metas, "og:description"@) is None && meta_lookup(
            metas,
            "twitter:description"@,
        ) is None ==> ogp_of_parts(metas, title_text, base).description == meta_lookup(
            metas,
            "description"@,
        ),
        ogp_of_parts(metas, title_text, base).description == ogp_of_parts(
            metas,
            other_title_text,
            other_base,
        ).description,
{
}

/// The image of a page: the `og:image` reference, else the
/// `twitter:image` one, resolved against the page URL and kept only when
/// the result is an http or https URL; no other `<meta>` element and not
/// the `<title>` element play a part in it.
pub proof fn lemma_ogp_image_choice(
    metas: Seq<MetaView>,
    title_text: Option<Seq<char>>,
    other_title_text: Option<Seq<char>>,
    base: Seq<char>,
)
    ensures
        ({
            let chosen = if meta_lookup(metas, "og:image"@) is Some {
                meta_lookup(metas, "og:image"@)
            } else {
                meta_lookup(metas, "twitter:image"@)
            };
            ogp_of_parts(metas, title_text, base).image_url == match chosen {
                None => None,
                Some(reference) => match url_join_result(base, reference) {
                    Ok((href, scheme)) => if scheme == "http"@ || scheme == "https"@ {
                        Some(href)
                    } else {
                        None
                    },
                    Err(_) => None,
                },
            }
        }),
        ogp_of_parts(metas, title_text, base).image_url is Some ==> (meta_lookup(metas, "og:image"@) is Some
            || meta_lookup(metas, "twitter:image"@) is Some),
        ogp_of_parts(metas, title_text, base).image_url == ogp_of_parts(
            metas,
            other_title_text,
            base,
        ).image_url,
{
}

/// The User-Agent for fetching pages: the product token, with the
/// repository URL as a comment when it is given and, trimmed, starts with
/// `https://` or `http://`.
pub open spec fn user_agent_of(repository_url: Option<Seq<char>>) -> Seq<char> {
    match repository_url {
        Some(u) => if has_prefix(trim(u), "https://"@) || has_prefix(trim(u), "http://"@) {
            USER_AGENT@ + " (+"@ + trim(u) + ")"@
        } else {
            USER_AGENT@
        },
        None => USER_AGENT@,
    }
}

/// The User-Agent for fetching pages, naming the repository when one is
/// configured.
pub fn user_agent_for_repository(repository_url: Option<&str>) -> (r: String)
    ensures
        r@ == user_agent_of(match repository_url {
            Some(u) => Some(u@),
            None => None,
        }),
{
    let mut agent: Vec<char> = Vec::new();
    extend_str(&mut agent, USER_AGENT);
    if let Some(u) = repository_url {
        let trimmed = trim_chars(&chars_of(u));
        if starts_with(&trimmed, "https://") || starts_with(&trimmed, "http://") {
            extend_str(&mut agent, " (+");
            extend_chars(&mut agent, &trimmed);
            extend_str(&mut agent, ")");
        }
    }
    string_of(&agent)
}

/// The User-Agent always begins with the product token; it names the
/// repository, trimmed and in `(+...)`, exactly when the repository URL is
/// given and begins with `https://` or `http://` once trimmed, and is the
/// bare product token otherwise.
pub proof fn lemma_user_agent_names_repository(repository_url: Option<Seq<char>>)
    ensures
        has_prefix(user_agent_of(repository_url), USER_AGENT@),
        repository_url matches Some(u) ==> ((has_prefix(trim(u), "https://"@) || has_prefix(
            trim(u),
            "http://"@,
        )) ==> user_agent_of(repository_url) == USER_AGENT@ + " (+"@ + trim(u) + ")"@),
        repository_url matches Some(u) ==> (!(has_prefix(trim(u), "https://"@) || has_prefix(
            trim(u),
            "http://"@,
        )) ==> user_agent_of(repository_url) == USER_AGENT@),
        repository_url is None ==> user_agent_of(repository_url) == USER_AGENT@,
{
    let a = user_agent_of(repository_url);
    assert(a.subrange(0, USER_AGENT@.len() as int) =~= USER_AGENT@);
}

/// A response is read as a page when it names no content type, or one
/// that holds `text/html` or `application/xhtml+xml` anywhere; any other
/// content type is refused.
pub proof fn lemma_content_type_rule(content_type: Option<Seq<char>>)
    ensures
        content_type is None ==> accepts_content_type_of(content_type),
        content_type matches Some(c) ==> (accepts_content_type_of(content_type) <==> (exists|i: int|
            0 <= i && i + 9 <= c.len() && #[trigger] c.subrange(i, i + 9) == "text/html"@) || (exists|
            i: int,
        |
            0 <= i && i + 21 <= c.len() && #[trigger] c.subrange(i, i + 21)
                == "application/xhtml+xml"@)),
{
    reveal_strlit("text/html");
    reveal_strlit("application/xhtml+xml");
    assert("text/html"@.len() == 9);
    assert("application/xhtml+xml"@.len() == 21);
}

/// Whether a response with this `Content-Type` may be read as a page: no
/// type given, or one naming HTML or XHTML.
pub open spec fn accepts_content_type_of(content_type: Option<Seq<char>>) -> bool {
    match content_type {
        Some(c) => occurs_in(c, "text/html"@) || occurs_in(c, "application/xhtml+xml"@),
        None => true,
    }
}

/// Whether a response with this `Content-Type` may be read as a page.
pub fn accepts_content_type(content_type: Option<&str>) -> (b: bool)
    ensures
        b == accepts_content_type_of(match content_type {
            Some(c) => Some(c@),
            None => None,
        }),
{
    match content_type {
        Some(c) => {
            let text = chars_of(c);
            contains_chars(&text, &chars_of("text/html")) || contains_chars(
                &text,
                &chars_of("application/xhtml+xml"),
            )
        },
        None => true,
    }
}

/// Whether a page of this many bytes is small enough to read.
pub fn html_size_allowed(bytes: u64) -> (b: bool)
    ensures
        b == (bytes <= MAX_HTML_BYTES),
{
    bytes <= MAX_HTML_BYTES
}

} // verus!
