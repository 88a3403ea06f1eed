use yoyaku::ogp::{ogp_from_parts, MetaTag};
use yoyaku::ogp::{accepts_content_type, html_size_allowed, MAX_HTML_BYTES};
use yoyaku::{parse_ogp, user_agent_for_repository, WebUrl};

#[test]
fn parses_property_and_name_metadata_and_resolves_relative_images() {
    let html = r#"
        <html><head>
          <meta property="og:title" content="記事タイトル">
          <meta name="description" content="通常の説明">
          <meta property="og:description" content="OGPの説明">
          <meta property="og:image" content="/images/og.png">
        </head></html>
    "#;
    let base = WebUrl::parse("https://example.com/articles/post").unwrap();

    let ogp = parse_ogp(html, &base);

    assert_eq!(ogp.title.as_deref(), Some("記事タイトル"));
    assert_eq!(ogp.description.as_deref(), Some("OGPの説明"));
    assert_eq!(ogp.image_url.as_deref(), Some("https://example.com/images/og.png"));
}

#[test]
fn falls_back_to_title_and_description_metadata() {
    let html = r#"<html><head><title>HTMLタイトル</title><meta name="description" content="説明"></head></html>"#;
    let base = WebUrl::parse("https://example.com/post").unwrap();

    let ogp = parse_ogp(html, &base);

    assert_eq!(ogp.title.as_deref(), Some("HTMLタイトル"));
    assert_eq!(ogp.description.as_deref(), Some("説明"));
    assert_eq!(ogp.image_url, None);
}

#[test]
fn ignores_non_http_image_urls() {
    let html = r#"<meta property="og:image" content="javascript:alert(1)">"#;
    let base = WebUrl::parse("https://example.com/post").unwrap();

    let ogp = parse_ogp(html, &base);

    assert_eq!(ogp.image_url, None);
}

#[test]
fn first_non_blank_value_wins_and_keys_ignore_case() {
    let html = r#"<html><head>
        <title>  </title>
        <meta property="OG:Title" content="   ">
        <meta property="og:title" content="  一番目  ">
        <meta property="og:title" content="二番目">
        <meta name="twitter:image" content="https://cdn.example.com/a.png">
        <meta name="twitter:description" content="ツイッター">
    </head></html>"#;
    let base = WebUrl::parse("http://example.com/post").unwrap();

    let ogp = parse_ogp(html, &base);

    assert_eq!(ogp.title.as_deref(), Some("一番目"));
    assert_eq!(ogp.description.as_deref(), Some("ツイッター"));
    assert_eq!(ogp.image_url.as_deref(), Some("https://cdn.example.com/a.png"));
}

#[test]
fn a_page_without_metadata_gives_nothing() {
    let base = WebUrl::parse("https://example.com/").unwrap();
    let ogp = parse_ogp("<p>本文だけ</p>", &base);
    assert_eq!(ogp.title, None);
    assert_eq!(ogp.description, None);
    assert_eq!(ogp.image_url, None);
}

#[test]
fn user_agent_uses_the_repository_url_only_when_configured() {
    assert_eq!(user_agent_for_repository(None), "yoyaku/0.1");
    assert_eq!(
        user_agent_for_repository(Some("https://github.com/example/yoyaku")),
        "yoyaku/0.1 (+https://github.com/example/yoyaku)"
    );
}

#[test]
fn user_agent_trims_and_rejects_other_schemes() {
    assert_eq!(
        user_agent_for_repository(Some("  http://example.com/repo \n")),
        "yoyaku/0.1 (+http://example.com/repo)"
    );
    assert_eq!(user_agent_for_repository(Some("ftp://example.com/repo")), "yoyaku/0.1");
    assert_eq!(user_agent_for_repository(Some("")), "yoyaku/0.1");
}

#[test]
fn only_html_responses_of_bounded_size_are_read() {
    assert!(accepts_content_type(None));
    assert!(accepts_content_type(Some("text/html; charset=utf-8")));
    assert!(accepts_content_type(Some("application/xhtml+xml")));
    assert!(!accepts_content_type(Some("application/json")));
    assert!(html_size_allowed(MAX_HTML_BYTES));
    assert!(!html_size_allowed(MAX_HTML_BYTES + 1));
}

#[test]
fn urls_parse_with_their_scheme() {
    let url = WebUrl::parse("HTTPS://Example.com/a/../b").unwrap();
    assert_eq!(url.scheme(), "https");
    assert_eq!(url.as_str(), "https://example.com/b");
    assert!(WebUrl::parse("not a url").is_err());
}

#[test]
fn metadata_is_chosen_from_the_parts_of_a_page() {
    let base = WebUrl::parse("https://example.com/a/b").unwrap();
    let metas = vec![
        MetaTag { property: None, name: Some("Description".to_owned()), content: Some(" 説明 ".to_owned()) },
        MetaTag { property: Some("twitter:image".to_owned()), name: None, content: Some("../c.png".to_owned()) },
        MetaTag { property: Some("og:title".to_owned()), name: None, content: None },
    ];
    let ogp = ogp_from_parts(&metas, Some(" 題 ".to_owned()), &base);
    assert_eq!(ogp.title.as_deref(), Some("題"));
    assert_eq!(ogp.description.as_deref(), Some("説明"));
    assert_eq!(ogp.image_url.as_deref(), Some("https://example.com/c.png"));
}
