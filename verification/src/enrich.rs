//! Adding Open Graph metadata to an article record.
use vstd::prelude::*;

use crate::model::{Article, ArticleView, Ogp};
use crate::validate::{ArticleError, article_fault, validate_article};
use crate::weburl::{WebUrl, url_parse_result};

verus! {

/// Why an article could not be enriched.
#[derive(Debug)]
pub enum EnrichError<E> {
    /// The record breaks a rule.
    Invalid(ArticleError),
    /// Fetching the metadata failed.
    Fetch(E),
}

/// The article with its metadata replaced by `ogp` and every other field
/// kept.
pub open spec fn with_ogp_view(a: ArticleView, ogp: Ogp) -> ArticleView {
    ArticleView { ogp: Some(ogp@), ..a }
}

/// Enriching sets the metadata to what was fetched and keeps every field
/// of the record, so the record keeps the rules exactly as it did before.
pub proof fn lemma_enrich_keeps_record(a: ArticleView, ogp: Ogp)
    ensures
        with_ogp_view(a, ogp).ogp == Some(ogp@),
        with_ogp_view(a, ogp).id == a.id,
        with_ogp_view(a, ogp).url == a.url,
        with_ogp_view(a, ogp).title == a.title,
        with_ogp_view(a, ogp).source == a.source,
        with_ogp_view(a, ogp).genre == a.genre,
        with_ogp_view(a, ogp).technologies == a.technologies,
        with_ogp_view(a, ogp).reading_minutes == a.reading_minutes,
        with_ogp_view(a, ogp).created_at == a.created_at,
        with_ogp_view(a, ogp).updated_at == a.updated_at,
        with_ogp_view(a, ogp).summary == a.summary,
        article_fault(with_ogp_view(a, ogp)) == article_fault(a),
{
}

/// Checks the record, parses its URL, fetches the metadata for it with
/// `fetcher`, and gives the record with that metadata; nothing else of the
/// record changes.
pub fn enrich_article_with<F, E>(article: Article, fetcher: F) -> (r: Result<Article, EnrichError<E>>)
    where
        F: FnOnce(&WebUrl) -> Result<Ogp, E>,
    requires
        forall|u: &WebUrl| fetcher.requires((u,)),
    ensures
        article_fault(article@) matches Some(f) ==> (r matches Err(EnrichError::Invalid(e))
            && e@ == f),
        article_fault(article@) is None ==> match r {
            Ok(a) => exists|u: WebUrl, o: Ogp|
                url_parse_result(article@.url) == Ok::<(Seq<char>, Seq<char>), Seq<char>>(u@)
                    && fetcher.ensures((&u,), Ok::<Ogp, E>(o)) && a@ == with_ogp_view(article@, o),
            Err(EnrichError::Fetch(e)) => exists|u: WebUrl|
                url_parse_result(article@.url) == Ok::<(Seq<char>, Seq<char>), Seq<char>>(u@)
                    && fetcher.ensures((&u,), Err::<Ogp, E>(e)),
            Err(EnrichError::Invalid(_)) => false,
        },
{
    if let Err(e) = validate_article(&article) {
        return Err(EnrichError::Invalid(e));
    }
    let url = match WebUrl::parse(article.url.as_str()) {
        Ok(url) => url,
        Err(e) => {
            proof {
                assert(false);
            }
            return Err(EnrichError::Invalid(ArticleError::InvalidUrl(e)));
        },
    };
    match fetcher(&url) {
        Ok(ogp) => {
            let ghost o = ogp;
            let enriched = article.with_ogp(ogp);
            assert(enriched@ == with_ogp_view(article@, o));
            Ok(enriched)
        },
        Err(e) => Err(EnrichError::Fetch(e)),
    }
}

} // verus!
