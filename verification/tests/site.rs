use yoyaku::config::http_url_from_parts;
use yoyaku::page::{archive_count_label, article_card, count_label, format_date, result_count_label, result_notice};
use yoyaku::{Article, Ogp, SiteConfig};

#[test]
fn repository_url_is_kept_only_for_http_urls() {
    assert_eq!(SiteConfig::new(None).repository_url(), None);
    assert_eq!(
        SiteConfig::new(Some("  https://github.com/example/yoyaku \n".to_owned())).repository_url(),
        Some("https://github.com/example/yoyaku")
    );
    assert_eq!(
        SiteConfig::new(Some("HTTP://example.com".to_owned())).repository_url(),
        Some("HTTP://example.com")
    );
    assert_eq!(SiteConfig::new(Some("ftp://example.com".to_owned())).repository_url(), None);
    assert_eq!(SiteConfig::new(Some("/relative/path".to_owned())).repository_url(), None);
    assert_eq!(SiteConfig::new(Some("https://".to_owned())).repository_url(), None);
    assert_eq!(SiteConfig::new(Some("not a url".to_owned())).repository_url(), None);
    assert_eq!(SiteConfig::default().repository_url(), None);
}

#[test]
fn a_configuration_rebuilt_from_its_own_link_is_the_same() {
    let config = SiteConfig::new(Some(" https://example.com/repo ".to_owned()));
    let again = SiteConfig::new(config.repository_url().map(str::to_owned));
    assert_eq!(again.repository_url(), config.repository_url());
}

#[test]
fn dates_are_shown_with_dots() {
    assert_eq!(format_date("2026-08-14"), "2026.08.14");
    assert_eq!(format_date(""), "");
}

#[test]
fn cards_show_the_article() {
    let mut article = Article {
        id: "rust-workers".to_owned(),
        url: "https://example.com/rust-workers".to_owned(),
        title: "RustでWorkers".to_owned(),
        source: "Zenn".to_owned(),
        genre: "Web開発".to_owned(),
        technologies: vec!["Rust".to_owned(), "Wasm".to_owned(), "Workers".to_owned(), "CSS".to_owned()],
        reading_minutes: 12,
        created_at: "2026-08-14".to_owned(),
        updated_at: "2026-08-16".to_owned(),
        summary: vec!["一段落目".to_owned(), "二段落目".to_owned()],
        ogp: None,
    };
    let card = article_card(&article);
    assert_eq!(card.modal_id, "article-rust-workers");
    assert_eq!(card.title_id, "article-rust-workers-title");
    assert_eq!(card.aria_label, "RustでWorkersの要約を開く");
    assert_eq!(card.display_title, "RustでWorkers");
    assert_eq!(card.technology_line, "Rust　/　Wasm　/　Workers");
    assert_eq!(card.lead, "一段落目");
    assert_eq!(card.reading_label, "読了 12分");
    assert_eq!(card.created_label, "作成 2026.08.14");
    assert_eq!(card.updated_label, "更新 2026.08.16");

    article.ogp = Some(Ogp { title: Some("OGP題".to_owned()), ..Ogp::default() });
    article.summary = Vec::new();
    article.technologies = vec!["Rust".to_owned()];
    let card = article_card(&article);
    assert_eq!(card.display_title, "OGP題");
    assert_eq!(card.lead, "");
    assert_eq!(card.technology_line, "Rust");
}

#[test]
fn result_texts() {
    assert_eq!(result_notice(0, 0), Some("記事がまだありません。"));
    assert_eq!(result_notice(3, 0), Some("条件に合う記事がありません。"));
    assert_eq!(result_notice(3, 2), None);
    assert_eq!(result_count_label(2, 10), "2 / 10件");
    assert_eq!(archive_count_label(0), "収録 0件");
    assert_eq!(count_label(105), "105件");
}

#[test]
fn repository_links_are_chosen_from_the_uri_parts() {
    let url = "https://example.com".to_owned();
    assert_eq!(http_url_from_parts(url.clone(), Some((Some("https".to_owned()), true))), Some(url.clone()));
    assert_eq!(http_url_from_parts(url.clone(), Some((Some("https".to_owned()), false))), None);
    assert_eq!(http_url_from_parts(url.clone(), Some((Some("ftp".to_owned()), true))), None);
    assert_eq!(http_url_from_parts(url.clone(), Some((None, true))), None);
    assert_eq!(http_url_from_parts(url, None), None);
}
