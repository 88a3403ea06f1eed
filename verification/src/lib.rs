//! Yoyaku: an archive of summarised articles kept as records, checked,
//! published as an index, and searched.
pub mod config;
pub mod enrich;
pub mod index;
pub mod model;
pub mod ogp;
pub mod order;
pub mod page;
pub mod search;
pub mod text;
pub mod validate;
pub mod weburl;

pub use config::{SiteConfig, HEADER_TITLE, REPOSITORY_URL_ENV, TITLE};
pub use enrich::{enrich_article_with, EnrichError};
pub use index::{build_index, build_index_file};
pub use model::{Article, ArticleFacets, ArticleIndex, Ogp};
pub use ogp::{parse_ogp, user_agent_for_repository};
pub use search::{search_articles, SearchQuery};
pub use validate::{validate_article, validate_collection, ArticleError, ValidationError};
pub use weburl::WebUrl;
