use yoyaku::validate::check_dates;
use yoyaku::validate::require_text;
use yoyaku::{
    build_index, build_index_file, enrich_article_with, validate_article, validate_collection,
    Article, ArticleError, EnrichError, Ogp, ValidationError,
};

fn fixture(id: &str, url: &str) -> Article {
    Article {
        id: id.to_owned(),
        url: url.to_owned(),
        title: "記事タイトル".to_owned(),
        source: "Zenn".to_owned(),
        genre: "Web開発".to_owned(),
        technologies: vec!["Rust".to_owned()],
        reading_minutes: 8,
        created_at: "2026-08-14".to_owned(),
        updated_at: "2026-08-15".to_owned(),
        summary: vec!["記事の要約".to_owned()],
        ogp: Some(Ogp::default()),
    }
}

#[test]
fn accepts_a_valid_article() {
    assert!(validate_article(&fixture("article-a", "https://example.com/a")).is_ok());
}

#[test]
fn rejects_an_updated_date_before_created_date() {
    let mut article = fixture("article-a", "https://example.com/a");
    article.updated_at = "2026-08-13".to_owned();

    let error = validate_article(&article).unwrap_err();

    assert!(error.message().contains("updated_at"));
}

#[test]
fn rejects_duplicate_ids_and_urls() {
    let article = fixture("article-a", "https://example.com/a");

    let error = validate_collection(&[article.clone(), article]).unwrap_err();

    assert!(error.message().contains("重複"));
}

#[test]
fn builds_sorted_articles_and_unique_facets() {
    let older = fixture("older", "https://example.com/older");
    let mut newer = fixture("newer", "https://example.com/newer");
    newer.updated_at = "2026-08-16".to_owned();
    newer.genre = "API設計".to_owned();
    newer.technologies = vec!["Hono".to_owned(), "Rust".to_owned()];

    let index = build_index(vec![older, newer]);

    assert_eq!(index.articles[0].id, "newer");
    assert_eq!(index.facets.genres, vec!["API設計", "Web開発"]);
    assert_eq!(index.facets.technologies, vec!["Hono", "Rust"]);
    assert_eq!(index.facets.sources, vec!["Zenn"]);
}

#[test]
fn index_time_is_the_latest_update_or_the_epoch() {
    let mut a = fixture("a", "https://example.com/a");
    a.updated_at = "2026-08-20".to_owned();
    let b = fixture("b", "https://example.com/b");
    let index = build_index(vec![b, a]);
    assert_eq!(index.generated_at, "2026-08-20T00:00:00Z");
    let empty = build_index(Vec::new());
    assert_eq!(empty.generated_at, "1970-01-01T00:00:00Z");
    assert!(empty.articles.is_empty());
    assert!(empty.facets.genres.is_empty());
}

#[test]
fn index_keeps_every_article_once() {
    let mut articles = Vec::new();
    for (id, day) in [("c", "10"), ("a", "12"), ("b", "12"), ("d", "01")] {
        let mut article = fixture(id, &format!("https://example.com/{id}"));
        article.updated_at = format!("2026-09-{day}");
        articles.push(article);
    }
    let index = build_index(articles);
    let ids: Vec<&str> = index.articles.iter().map(|a| a.id.as_str()).collect();
    assert_eq!(ids, ["a", "b", "c", "d"]);
}

fn error_of(article: &Article) -> ArticleError {
    validate_article(article).unwrap_err()
}

#[test]
fn each_rule_has_its_error() {
    let good = fixture("article_a-1", "https://example.com/a");

    let mut blank_title = good.clone();
    blank_title.title = " \t".to_owned();
    assert_eq!(error_of(&blank_title), ArticleError::EmptyText("title".to_owned()));
    assert_eq!(error_of(&blank_title).message(), "title は空にできません");

    let mut bad_id = good.clone();
    bad_id.id = "記事".to_owned();
    assert_eq!(error_of(&bad_id), ArticleError::InvalidId);

    let mut bad_url = good.clone();
    bad_url.url = "example.com".to_owned();
    assert!(matches!(error_of(&bad_url), ArticleError::InvalidUrl(_)));
    assert!(error_of(&bad_url).message().starts_with("url が不正です: "));

    let mut ftp = good.clone();
    ftp.url = "ftp://example.com/a".to_owned();
    assert_eq!(error_of(&ftp), ArticleError::UnsupportedScheme);

    let mut zero = good.clone();
    zero.reading_minutes = 0;
    assert_eq!(error_of(&zero), ArticleError::ZeroReadingMinutes);

    let mut no_tech = good.clone();
    no_tech.technologies = Vec::new();
    assert_eq!(error_of(&no_tech), ArticleError::EmptyTechnologies);
    let mut blank_tech = good.clone();
    blank_tech.technologies = vec!["Rust".to_owned(), "  ".to_owned()];
    assert_eq!(error_of(&blank_tech), ArticleError::EmptyTechnologies);

    let mut no_summary = good.clone();
    no_summary.summary = Vec::new();
    assert_eq!(error_of(&no_summary), ArticleError::EmptySummary);

    let mut bad_created = good.clone();
    bad_created.created_at = "2026/08/14".to_owned();
    assert!(matches!(error_of(&bad_created), ArticleError::InvalidCreatedAt(_)));

    let mut bad_updated = good.clone();
    bad_updated.updated_at = "2026-02-30".to_owned();
    assert!(matches!(error_of(&bad_updated), ArticleError::InvalidUpdatedAt(_)));

    let mut earlier = good.clone();
    earlier.updated_at = "2025-12-31".to_owned();
    assert_eq!(error_of(&earlier), ArticleError::UpdatedBeforeCreated);
    assert_eq!(earlier.updated_at.len(), 10);

    let mut same_day = good;
    same_day.updated_at = same_day.created_at.clone();
    assert!(validate_article(&same_day).is_ok());
}

#[test]
fn the_first_broken_rule_is_reported() {
    let mut article = fixture("", "not a url");
    article.reading_minutes = 0;
    assert_eq!(error_of(&article), ArticleError::EmptyText("id".to_owned()));
    assert_eq!(require_text("genre", " x "), Ok(()));
    assert_eq!(require_text("genre", "\u{3000}"), Err(ArticleError::EmptyText("genre".to_owned())));
}

#[test]
fn collection_errors_name_the_article() {
    let a = fixture("a", "https://example.com/a");
    let mut b = fixture("b", "https://example.com/a");
    let error = validate_collection(&[a.clone(), b.clone()]).unwrap_err();
    assert_eq!(error, ValidationError::DuplicateUrl("https://example.com/a".to_owned()));
    assert_eq!(error.message(), "url が重複しています: https://example.com/a");

    b.url = "https://example.com/b".to_owned();
    b.reading_minutes = 0;
    let error = validate_collection(&[a.clone(), b.clone()]).unwrap_err();
    assert_eq!(error.message(), "b: reading_minutes は1以上にしてください");

    let dup = validate_collection(&[a.clone(), a.clone()]).unwrap_err();
    assert_eq!(dup.message(), "id が重複しています: a");

    b.reading_minutes = 3;
    assert!(validate_collection(&[a, b]).is_ok());
    assert!(validate_collection(&[]).is_ok());
}

#[test]
fn index_file_validates_then_counts() {
    let a = fixture("a", "https://example.com/a");
    let b = fixture("b", "https://example.com/b");
    let (count, index) = build_index_file(vec![a.clone(), b]).unwrap();
    assert_eq!(count, 2);
    assert_eq!(index.articles.len(), 2);
    assert!(build_index_file(vec![a.clone(), a]).is_err());
}

#[test]
fn enriching_changes_only_the_ogp_field() {
    let article = fixture("article-a", "https://example.com/a");
    let enriched = enrich_article_with(article.clone(), |url| {
        assert_eq!(url.as_str(), "https://example.com/a");
        Ok::<Ogp, String>(Ogp {
            image_url: Some("https://example.com/og.png".to_owned()),
            title: Some("OGPタイトル".to_owned()),
            description: None,
        })
    })
    .unwrap();
    assert_eq!(enriched.summary, vec!["記事の要約"]);
    assert_eq!(enriched.ogp.as_ref().unwrap().title.as_deref(), Some("OGPタイトル"));
    assert_eq!(Article { ogp: article.ogp.clone(), ..enriched.clone() }, article);

    let failed = enrich_article_with(article.clone(), |_| Err::<Ogp, String>("offline".to_owned()));
    assert!(matches!(failed, Err(EnrichError::Fetch(message)) if message == "offline"));

    let mut invalid = article;
    invalid.reading_minutes = 0;
    let refused = enrich_article_with(invalid, |_| -> Result<Ogp, String> { panic!("not fetched") });
    assert!(matches!(refused, Err(EnrichError::Invalid(ArticleError::ZeroReadingMinutes))));
}

#[test]
fn dates_must_be_written_with_padded_digits() {
    let mut unpadded = fixture("article-a", "https://example.com/a");
    unpadded.created_at = "2026-8-14".to_owned();
    let error = validate_article(&unpadded).unwrap_err();
    assert_eq!(error, ArticleError::InvalidCreatedAt("年4桁・月2桁・日2桁で書いてください".to_owned()));
    assert_eq!(
        error.message(),
        "created_at は YYYY-MM-DD で指定してください: 年4桁・月2桁・日2桁で書いてください"
    );

    let mut short_year = fixture("article-a", "https://example.com/a");
    short_year.created_at = "26-08-14".to_owned();
    short_year.updated_at = "26-08-15".to_owned();
    assert!(matches!(error_of(&short_year), ArticleError::InvalidCreatedAt(_)));

    let mut unpadded_update = fixture("article-a", "https://example.com/a");
    unpadded_update.updated_at = "2026-08-9".to_owned();
    assert!(matches!(error_of(&unpadded_update), ArticleError::InvalidUpdatedAt(_)));
}

#[test]
fn the_index_does_not_depend_on_the_input_order() {
    let mut a = fixture("a", "https://example.com/a");
    a.genre = "API設計".to_owned();
    let mut b = fixture("b", "https://example.com/b");
    b.updated_at = "2026-08-15".to_owned();
    b.technologies = vec!["Hono".to_owned()];
    let c = fixture("c", "https://example.com/c");
    let one = build_index(vec![a.clone(), b.clone(), c.clone()]);
    let two = build_index(vec![c, a, b]);
    assert_eq!(one, two);
    let ids: Vec<&str> = one.articles.iter().map(|x| x.id.as_str()).collect();
    assert_eq!(ids, ["a", "b", "c"]);
}

#[test]
fn date_checks_take_the_parse_results() {
    assert_eq!(check_dates("2026-08-14", Ok((2026, 8, 14)), "2026-08-15", Ok((2026, 8, 15))), Ok(()));
    assert_eq!(
        check_dates("2026-08-14", Ok((2026, 8, 14)), "2026-08-13", Ok((2026, 8, 13))),
        Err(ArticleError::UpdatedBeforeCreated)
    );
    assert_eq!(
        check_dates("x", Err("bad".to_owned()), "2026-08-13", Ok((2026, 8, 13))),
        Err(ArticleError::InvalidCreatedAt("bad".to_owned()))
    );
    assert_eq!(
        check_dates("2026-8-14", Ok((2026, 8, 14)), "2026-08-15", Ok((2026, 8, 15))),
        Err(ArticleError::InvalidCreatedAt("年4桁・月2桁・日2桁で書いてください".to_owned()))
    );
    assert_eq!(
        check_dates("2026-08-14", Ok((2026, 8, 14)), "y", Err("worse".to_owned())),
        Err(ArticleError::InvalidUpdatedAt("worse".to_owned()))
    );
}
