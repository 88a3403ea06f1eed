//! The article records of the archive and the published index.
use vstd::prelude::*;

use crate::text::views;

verus! {

/// Open Graph metadata taken from an article's page.
#[derive(Debug, PartialEq, Eq)]
pub struct Ogp {
    pub image_url: Option<String>,
    pub title: Option<String>,
    pub description: Option<String>,
}

/// One summarised article, as stored in `content/articles/<id>.json`.
#[derive(Debug, PartialEq, Eq)]
pub struct Article {
    pub id: String,
    pub url: String,
    pub title: String,
    pub source: String,
    pub genre: String,
    pub technologies: Vec<String>,
    pub reading_minutes: u16,
    pub created_at: String,
    pub updated_at: String,
    pub summary: Vec<String>,
    pub ogp: Option<Ogp>,
}

/// The choices that the search form offers: every genre, technology and
/// source, each once and in ascending order.
#[derive(Debug, PartialEq, Eq)]
pub struct ArticleFacets {
    pub genres: Vec<String>,
    pub technologies: Vec<String>,
    pub sources: Vec<String>,
}

/// The published index: the articles, newest update first, with their facets.
#[derive(Debug, PartialEq, Eq)]
pub struct ArticleIndex {
    pub generated_at: String,
    pub articles: Vec<Article>,
    pub facets: ArticleFacets,
}

/// The value of an [`Ogp`]: its texts as character sequences.
pub struct OgpView {
    pub image_url: Option<Seq<char>>,
    pub title: Option<Seq<char>>,
    pub description: Option<Seq<char>>,
}

/// The value of an [`Article`]: every text as a character sequence.
pub struct ArticleView {
    pub id: Seq<char>,
    pub url: Seq<char>,
    pub title: Seq<char>,
    pub source: Seq<char>,
    pub genre: Seq<char>,
    pub technologies: Seq<Seq<char>>,
    pub reading_minutes: u16,
    pub created_at: Seq<char>,
    pub updated_at: Seq<char>,
    pub summary: Seq<Seq<char>>,
    pub ogp: Option<OgpView>,
}

/// The character view of an optional text.
pub open spec fn text_view(t: Option<String>) -> Option<Seq<char>> {
    match t {
        Some(s) => Some(s@),
        None => None,
    }
}

impl View for Ogp {
    type V = OgpView;

    open spec fn view(&self) -> OgpView {
        OgpView {
            image_url: text_view(self.image_url),
            title: text_view(self.title),
            description: text_view(self.description),
        }
    }
}

impl View for Article {
    type V = ArticleView;

    open spec fn view(&self) -> ArticleView {
        ArticleView {
            id: self.id@,
            url: self.url@,
            title: self.title@,
            source: self.source@,
            genre: self.genre@,
            technologies: views(self.technologies@),
            reading_minutes: self.reading_minutes,
            created_at: self.created_at@,
            updated_at: self.updated_at@,
            summary: views(self.summary@),
            ogp: match self.ogp {
                Some(o) => Some(o@),
                None => None,
            },
        }
    }
}

/// The character views of a list of articles.
pub open spec fn article_views(v: Seq<Article>) -> Seq<ArticleView> {
    v.map_values(|a: Article| a@)
}

fn clone_strings(v: &Vec<String>) -> (r: Vec<String>)
    ensures
        r@ == v@,
{
    let mut r: Vec<String> = Vec::new();
    let mut i: usize = 0;
    while i < v.len()
        invariant
            i <= v.len(),
            r@ == v@.take(i as int),
        decreases v.len() - i,
    {
        r.push(v[i].clone());
        i = i + 1;
        assert(r@ =~= v@.take(i as int));
    }
    assert(v@.take(v.len() as int) =~= v@);
    r
}

fn clone_text(v: &Option<String>) -> (r: Option<String>)
    ensures
        r == *v,
{
    match v {
        Some(s) => Some(s.clone()),
        None => None,
    }
}

impl Clone for Ogp {
    fn clone(&self) -> (r: Self)
        ensures
            r == *self,
            r@ == self@,
    {
        Ogp {
            image_url: clone_text(&self.image_url),
            title: clone_text(&self.title),
            description: clone_text(&self.description),
        }
    }
}

impl Clone for Article {
    fn clone(&self) -> (r: Self)
        ensures
            r@ == self@,
    {
        Article {
            id: self.id.clone(),
            url: self.url.clone(),
            title: self.title.clone(),
            source: self.source.clone(),
            genre: self.genre.clone(),
            technologies: clone_strings(&self.technologies),
            reading_minutes: self.reading_minutes,
            created_at: self.created_at.clone(),
            updated_at: self.updated_at.clone(),
            summary: clone_strings(&self.summary),
            ogp: match &self.ogp {
                Some(o) => Some(o.clone()),
                None => None,
            },
        }
    }
}

impl Clone for ArticleFacets {
    fn clone(&self) -> (r: Self)
        ensures
            r.genres@ == self.genres@,
            r.technologies@ == self.technologies@,
            r.sources@ == self.sources@,
    {
        ArticleFacets {
            genres: clone_strings(&self.genres),
            technologies: clone_strings(&self.technologies),
            sources: clone_strings(&self.sources),
        }
    }
}

impl Clone for ArticleIndex {
    fn clone(&self) -> (r: Self)
        ensures
            r.generated_at@ == self.generated_at@,
            article_views(r.articles@) == article_views(self.articles@),
            r.facets.genres@ == self.facets.genres@,
            r.facets.technologies@ == self.facets.technologies@,
            r.facets.sources@ == self.facets.sources@,
    {
        let mut articles: Vec<Article> = Vec::new();
        let mut i: usize = 0;
        while i < self.articles.len()
            invariant
                i <= self.articles.len(),
                articles@.len() == i,
                forall|k: int| 0 <= k < i ==> #[trigger] articles@[k]@ == self.articles@[k]@,
            decreases self.articles.len() - i,
        {
            articles.push(self.articles[i].clone());
            i = i + 1;
        }
        assert(article_views(articles@) =~= article_views(self.articles@));
        ArticleIndex {
            generated_at: self.generated_at.clone(),
            articles,
            facets: self.facets.clone(),
        }
    }
}

impl Default for Ogp {
    fn default() -> (r: Self)
        ensures
            r.image_url is None,
            r.title is None,
            r.description is None,
    {
        Ogp { image_url: None, title: None, description: None }
    }
}

impl Default for ArticleFacets {
    fn default() -> (r: Self)
        ensures
            r.genres@.len() == 0,
            r.technologies@.len() == 0,
            r.sources@.len() == 0,
    {
        ArticleFacets { genres: Vec::new(), technologies: Vec::new(), sources: Vec::new() }
    }
}

impl Article {
    /// The article with its Open Graph metadata replaced and every other
    /// field kept.
    pub fn with_ogp(self, ogp: Ogp) -> (r: Article)
        ensures
            r@ == (ArticleView { ogp: Some(ogp@), ..self@ }),
    {
        let mut article = self;
        article.ogp = Some(ogp);
        article
    }
}

} // verus!
