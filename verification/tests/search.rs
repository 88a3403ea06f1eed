use yoyaku::search::{max_minutes, valid_date};
use yoyaku::{search_articles, Article, ArticleFacets, ArticleIndex, SearchQuery};

#[allow(clippy::too_many_arguments)]
fn article(
    id: &str,
    title: &str,
    source: &str,
    genre: &str,
    technologies: &[&str],
    reading_minutes: u16,
    created_at: &str,
    updated_at: &str,
) -> Article {
    Article {
        id: id.to_owned(),
        url: format!("https://example.com/{id}"),
        title: title.to_owned(),
        source: source.to_owned(),
        genre: genre.to_owned(),
        technologies: technologies.iter().map(|value| (*value).to_owned()).collect(),
        reading_minutes,
        created_at: created_at.to_owned(),
        updated_at: updated_at.to_owned(),
        summary: vec![format!("{title}の詳しい要約")],
        ogp: None,
    }
}

fn fixture() -> ArticleIndex {
    ArticleIndex {
        generated_at: "2026-08-16T00:00:00Z".to_owned(),
        articles: vec![
            article(
                "rust-workers",
                "RustでWorkersを動かす",
                "Zenn",
                "Web開発",
                &["Rust", "WebAssembly"],
                8,
                "2026-08-14",
                "2026-08-16",
            ),
            article(
                "hono-api",
                "小さなEdge API",
                "Qiita",
                "API設計",
                &["Hono", "TypeScript"],
                5,
                "2026-08-12",
                "2026-08-15",
            ),
        ],
        facets: ArticleFacets::default(),
    }
}

fn ids(articles: Vec<&Article>) -> Vec<&str> {
    articles.into_iter().map(|article| article.id.as_str()).collect()
}

#[test]
fn default_query_returns_articles_by_latest_update() {
    assert_eq!(
        ids(search_articles(&fixture(), &SearchQuery::default())),
        ["rust-workers", "hono-api"]
    );
}

#[test]
fn normalizes_nfkc_keyword_and_searches_all_text_fields() {
    let query = SearchQuery { keyword: " ＲＵＳＴ ".to_owned(), ..SearchQuery::default() };

    assert_eq!(ids(search_articles(&fixture(), &query)), ["rust-workers"]);
}

#[test]
fn applies_every_filter_as_and_conditions() {
    let query = SearchQuery {
        keyword: "Workers".to_owned(),
        genre: "Web開発".to_owned(),
        technology: "Rust".to_owned(),
        source: "Zenn".to_owned(),
        created_from: "2026-08-14".to_owned(),
        created_to: "2026-08-14".to_owned(),
        max_minutes: "10".to_owned(),
        sort: "created-desc".to_owned(),
    };

    assert_eq!(ids(search_articles(&fixture(), &query)), ["rust-workers"]);
}

#[test]
fn supports_created_date_and_title_sorting() {
    let mut query = SearchQuery { sort: "created-desc".to_owned(), ..SearchQuery::default() };
    assert_eq!(ids(search_articles(&fixture(), &query)), ["rust-workers", "hono-api"]);

    query.sort = "title-asc".to_owned();
    assert_eq!(ids(search_articles(&fixture(), &query)), ["rust-workers", "hono-api"]);
}

#[test]
fn ignores_invalid_dates_minutes_and_sort_values() {
    let query = SearchQuery {
        created_from: "not-a-date".to_owned(),
        created_to: "2026-99-99".to_owned(),
        max_minutes: "forever".to_owned(),
        sort: "unknown".to_owned(),
        ..SearchQuery::default()
    };

    assert_eq!(ids(search_articles(&fixture(), &query)), ["rust-workers", "hono-api"]);
}

#[test]
fn each_filter_alone_excludes_the_other_article() {
    let by_genre = SearchQuery { genre: " API設計 ".to_owned(), ..SearchQuery::default() };
    assert_eq!(ids(search_articles(&fixture(), &by_genre)), ["hono-api"]);

    let by_technology = SearchQuery { technology: "WebAssembly".to_owned(), ..SearchQuery::default() };
    assert_eq!(ids(search_articles(&fixture(), &by_technology)), ["rust-workers"]);

    let partial_technology = SearchQuery { technology: "Web".to_owned(), ..SearchQuery::default() };
    assert!(search_articles(&fixture(), &partial_technology).is_empty());

    let by_source = SearchQuery { source: "Qiita".to_owned(), ..SearchQuery::default() };
    assert_eq!(ids(search_articles(&fixture(), &by_source)), ["hono-api"]);

    let from = SearchQuery { created_from: "2026-08-13".to_owned(), ..SearchQuery::default() };
    assert_eq!(ids(search_articles(&fixture(), &from)), ["rust-workers"]);

    let to = SearchQuery { created_to: "2026-08-13".to_owned(), ..SearchQuery::default() };
    assert_eq!(ids(search_articles(&fixture(), &to)), ["hono-api"]);

    let short = SearchQuery { max_minutes: "5".to_owned(), ..SearchQuery::default() };
    assert_eq!(ids(search_articles(&fixture(), &short)), ["hono-api"]);
}

#[test]
fn keyword_matches_summary_source_and_technologies_case_insensitively() {
    let summary = SearchQuery { keyword: "詳しい要約".to_owned(), ..SearchQuery::default() };
    assert_eq!(ids(search_articles(&fixture(), &summary)), ["rust-workers", "hono-api"]);

    let source = SearchQuery { keyword: "qiita".to_owned(), ..SearchQuery::default() };
    assert_eq!(ids(search_articles(&fixture(), &source)), ["hono-api"]);

    let technology = SearchQuery { keyword: "TYPESCRIPT".to_owned(), ..SearchQuery::default() };
    assert_eq!(ids(search_articles(&fixture(), &technology)), ["hono-api"]);

    let blank = SearchQuery { keyword: "   ".to_owned(), ..SearchQuery::default() };
    assert_eq!(ids(search_articles(&fixture(), &blank)), ["rust-workers", "hono-api"]);

    let missing = SearchQuery { keyword: "python".to_owned(), ..SearchQuery::default() };
    assert!(search_articles(&fixture(), &missing).is_empty());
}

#[test]
fn ties_are_broken_by_id_and_keep_a_stable_order() {
    let index = ArticleIndex {
        generated_at: String::new(),
        articles: vec![
            article("b", "Same", "Zenn", "G", &["Rust"], 5, "2026-01-01", "2026-01-02"),
            article("a", "Same", "Zenn", "G", &["Rust"], 5, "2026-01-01", "2026-01-02"),
            article("c", "Alpha", "Zenn", "G", &["Rust"], 5, "2026-01-03", "2026-01-01"),
        ],
        facets: ArticleFacets::default(),
    };
    let updated = SearchQuery::default();
    assert_eq!(ids(search_articles(&index, &updated)), ["a", "b", "c"]);
    let created = SearchQuery { sort: "created-desc".to_owned(), ..SearchQuery::default() };
    assert_eq!(ids(search_articles(&index, &created)), ["c", "a", "b"]);
    let title = SearchQuery { sort: "title-asc".to_owned(), ..SearchQuery::default() };
    assert_eq!(ids(search_articles(&index, &title)), ["c", "a", "b"]);
}

#[test]
fn active_conditions_lists_the_conditions_in_effect() {
    let query = SearchQuery {
        keyword: "  Rust  ".to_owned(),
        genre: "Web開発".to_owned(),
        technology: " ".to_owned(),
        source: "Zenn".to_owned(),
        created_from: "2026-08-01".to_owned(),
        created_to: "2026-02-30".to_owned(),
        max_minutes: "15".to_owned(),
        sort: "title-asc".to_owned(),
    };
    assert_eq!(
        query.active_conditions(),
        vec!["検索: Rust", "Web開発", "Zenn", "作成日 2026-08-01〜", "15分以内"]
    );
    let to = SearchQuery { created_to: "2024-02-29".to_owned(), ..SearchQuery::default() };
    assert_eq!(to.active_conditions(), vec!["作成日 〜2024-02-29"]);
    assert!(SearchQuery::default().active_conditions().is_empty());
}

#[test]
fn long_query_values_are_cut_to_two_hundred_characters() {
    let long = "あ".repeat(250);
    let query = SearchQuery { genre: long, ..SearchQuery::default() };
    let conditions = query.active_conditions();
    assert_eq!(conditions.len(), 1);
    assert_eq!(conditions[0].chars().count(), 200);
}

#[test]
fn reading_time_limits_are_only_the_offered_ones() {
    assert_eq!(max_minutes("5"), Some(5));
    assert_eq!(max_minutes("30"), Some(30));
    assert_eq!(max_minutes("+10"), Some(10));
    assert_eq!(max_minutes("015"), Some(15));
    assert_eq!(max_minutes("20"), None);
    assert_eq!(max_minutes(""), None);
    assert_eq!(max_minutes("+"), None);
    assert_eq!(max_minutes("-5"), None);
    assert_eq!(max_minutes(" 5"), None);
    assert_eq!(max_minutes("70000"), None);
}

#[test]
fn dates_must_exist_in_the_calendar() {
    assert_eq!(valid_date("2026-08-14"), Some("2026-08-14"));
    assert_eq!(valid_date("2024-02-29"), Some("2024-02-29"));
    assert_eq!(valid_date("2000-02-29"), Some("2000-02-29"));
    assert_eq!(valid_date("1900-02-29"), None);
    assert_eq!(valid_date("2026-02-29"), None);
    assert_eq!(valid_date("2026-04-31"), None);
    assert_eq!(valid_date("2026-00-10"), None);
    assert_eq!(valid_date("2026-13-01"), None);
    assert_eq!(valid_date("2026-01-00"), None);
    assert_eq!(valid_date("2026/01/01"), None);
    assert_eq!(valid_date("2026-1-01"), None);
    assert_eq!(valid_date("２０２６-01-01"), None);
}

#[test]
fn keyword_is_found_beyond_the_first_two_hundred_characters() {
    let mut long = article("long", "T", "Zenn", "G", &["Rust"], 5, "2026-08-14", "2026-08-14");
    long.summary = vec!["a".repeat(300)];
    let index = ArticleIndex {
        generated_at: String::new(),
        articles: vec![long],
        facets: ArticleFacets::default(),
    };
    let query = SearchQuery { keyword: "rust".to_owned(), ..SearchQuery::default() };
    assert_eq!(ids(search_articles(&index, &query)), ["long"]);
}

#[test]
fn article_text_is_trimmed_before_it_is_compared() {
    let mut odd = article("odd", "\u{3000}\u{301}x", "Zenn", "G", &["Rust"], 5, "2026-08-14", "2026-08-14");
    odd.summary = vec!["y".to_owned()];
    let index = ArticleIndex {
        generated_at: String::new(),
        articles: vec![odd],
        facets: ArticleFacets::default(),
    };
    let acute = SearchQuery { keyword: "\u{b4}".to_owned(), ..SearchQuery::default() };
    assert!(search_articles(&index, &acute).is_empty());
    let x = SearchQuery { keyword: "X".to_owned(), ..SearchQuery::default() };
    assert_eq!(ids(search_articles(&index, &x)), ["odd"]);
}
