use discord_anti_scam_bot::linkimage::{
    after_page, body_kind, find_og_image, host_is_allowed, host_is_listed, host_is_passed,
    pick_urls, preview_of, read_chunk, trim_url, wants_body, BodyKind, Fetched, FoundUrl,
    LinkImageFetcher, MetaTag, MAX_BYTES,
};

fn fetcher() -> LinkImageFetcher {
    LinkImageFetcher::new(&["imgur.com".to_string(), "i.imgur.com".to_string()])
}

#[test]
fn host_is_allowed_rejects_redirect_targets_outside_the_allow_list() {
    let allowed = vec!["imgur.com".to_string()];
    let allowed_url = reqwest::Url::parse("https://imgur.com/x.png").unwrap();
    let internal_url = reqwest::Url::parse("http://169.254.169.254/latest/meta-data/").unwrap();
    let lookalike_url = reqwest::Url::parse("https://imgur.com.evil.tld/x.png").unwrap();

    assert!(host_is_allowed(allowed_url.as_str(), &allowed));
    assert!(!host_is_allowed(internal_url.as_str(), &allowed));
    assert!(!host_is_allowed(lookalike_url.as_str(), &allowed));
    assert!(host_is_passed(allowed_url.host_str(), &allowed));
    assert!(!host_is_passed(internal_url.host_str(), &allowed));
    assert!(!host_is_passed(None, &allowed));
}

#[test]
fn extracts_only_allow_listed_hosts() {
    let f = fetcher();
    let urls = f.extract_urls(
        "check this out https://i.imgur.com/abc123.png and also https://evil.example.com/x.png",
    );
    assert_eq!(urls, vec!["https://i.imgur.com/abc123.png".to_string()]);
}

#[test]
fn still_extracts_a_suppressed_embed_link() {
    let f = fetcher();
    let urls = f.extract_urls("sneaky repost <https://imgur.com/gallery/abc123>");
    assert_eq!(urls, vec!["https://imgur.com/gallery/abc123".to_string()]);
}

#[test]
fn rejects_lookalike_hosts() {
    let f = fetcher();
    let urls = f.extract_urls("https://notimgur.com/x.png https://imgur.com.evil.tld/x.png");
    assert!(urls.is_empty());
}

#[test]
fn finds_og_image_regardless_of_attribute_order() {
    let html = r#"<html><head>
            <meta content="https://i.imgur.com/real.png" property="og:image">
        </head></html>"#;
    assert_eq!(find_og_image(html), Some("https://i.imgur.com/real.png".to_string()));
}

#[test]
fn hosts_are_compared_whatever_their_case() {
    let f = LinkImageFetcher::new(&["ImGur.com".to_string()]);
    assert_eq!(f.allowed_hosts(), ["imgur.com".to_string()]);
    assert!(f.host_allowed("https://IMGUR.com/x.png"));
    assert!(f.host_allowed("https://a.b.imgur.com/x.png"));
    assert!(!f.host_allowed("not a url"));
    assert!(!f.host_allowed("mailto:someone@imgur.com"));
}

#[test]
fn a_listed_host_is_the_name_or_below_it() {
    let allowed = vec!["imgur.com".to_string()];
    assert!(host_is_listed("imgur.com", &allowed));
    assert!(host_is_listed("i.imgur.com", &allowed));
    assert!(!host_is_listed("notimgur.com", &allowed));
    assert!(!host_is_listed("imgur.com.evil.tld", &allowed));
    assert!(!host_is_listed("com", &allowed));
    assert!(!host_is_listed("imgur.com", &[]));
}

#[test]
fn urls_lose_what_trails_them() {
    assert_eq!(trim_url("https://imgur.com/a.png).!?>,"), "https://imgur.com/a.png");
    assert_eq!(trim_url("https://imgur.com/a"), "https://imgur.com/a");
    assert_eq!(trim_url("..."), "");
    let f = fetcher();
    assert_eq!(f.extract_urls("(see https://imgur.com/a.png)."), vec!["https://imgur.com/a.png"]);
}

#[test]
fn each_url_is_looked_at_once_and_only_a_few() {
    let f = fetcher();
    let text = "https://imgur.com/1 https://imgur.com/1 https://imgur.com/2 https://imgur.com/3 \
                https://imgur.com/4 https://imgur.com/5";
    assert_eq!(
        f.extract_urls(text),
        vec![
            "https://imgur.com/1",
            "https://imgur.com/2",
            "https://imgur.com/3",
            "https://imgur.com/4"
        ]
    );
    let found = |url: &str, host: Option<&str>| FoundUrl {
        url: url.to_string(),
        host: host.map(|h| h.to_string()),
    };
    let allowed = vec!["a.b".to_string()];
    assert_eq!(
        pick_urls(&[found("1", Some("a.b")), found("2", Some("c")), found("3", None)], &allowed),
        vec!["1"]
    );
}

#[test]
fn the_first_tag_with_a_preview_counts() {
    let html = r#"<meta name="x" content="no"><META property='og:image:width' content="w">
        <meta property="og:image"><meta property="og:image" content="second">"#;
    assert_eq!(find_og_image(html), Some("w".to_string()));
    assert_eq!(find_og_image("<p>nothing</p>"), None);
    let tag = |og_image: bool, content: Option<&str>| MetaTag {
        og_image,
        content: content.map(|c| c.to_string()),
    };
    assert_eq!(
        preview_of(&[tag(false, Some("a")), tag(true, None), tag(true, Some("b"))]),
        Some("b".to_string())
    );
    assert_eq!(preview_of(&[]), None);
}

#[test]
fn replies_by_content_type() {
    assert_eq!(body_kind("image/png"), BodyKind::Image);
    assert_eq!(body_kind("text/html; charset=utf-8"), BodyKind::Page);
    assert_eq!(body_kind("application/json"), BodyKind::Other);
    assert_eq!(body_kind(""), BodyKind::Other);
}

#[test]
fn a_page_is_followed_once_and_only_to_a_listed_host() {
    let f = fetcher();
    assert_eq!(f.after_first(vec![1, 2], "image/gif"), Fetched::Image(vec![1, 2]));
    let page = |url: &str| {
        format!("<meta property=\"og:image\" content=\"{url}\">").into_bytes()
    };
    assert_eq!(
        f.after_first(page("https://i.imgur.com/real.png"), "text/html"),
        Fetched::Follow("https://i.imgur.com/real.png".to_string())
    );
    assert_eq!(
        f.after_first(page("http://169.254.169.254/latest/"), "text/html"),
        Fetched::Nothing
    );
    assert_eq!(f.after_first(page("/relative.png"), "text/html"), Fetched::Nothing);
    assert_eq!(f.after_first(b"<p>".to_vec(), "text/html"), Fetched::Nothing);
    assert_eq!(f.after_first(vec![1], "text/plain"), Fetched::Nothing);
    assert_eq!(f.after_second(vec![3], "image/png"), Some(vec![3]));
    assert_eq!(f.after_second(page("https://i.imgur.com/real.png"), "text/html"), None);
    let allowed = vec!["imgur.com".to_string()];
    assert_eq!(
        after_page(Some("u".to_string()), Some("imgur.com"), &allowed),
        Fetched::Follow("u".to_string())
    );
    assert_eq!(after_page(Some("u".to_string()), Some("evil.tld"), &allowed), Fetched::Nothing);
    assert_eq!(after_page(None, Some("imgur.com"), &allowed), Fetched::Nothing);
}

#[test]
fn a_page_that_is_not_utf8_is_still_read() {
    let f = fetcher();
    let mut bytes = vec![0xff, 0xfe];
    bytes.extend_from_slice(b"<meta property=\"og:image\" content=\"https://imgur.com/x\">");
    assert_eq!(
        f.after_first(bytes, "text/html"),
        Fetched::Follow("https://imgur.com/x".to_string())
    );
}

#[test]
fn bodies_are_capped() {
    assert!(wants_body(true, None));
    assert!(wants_body(true, Some(MAX_BYTES as u64)));
    assert!(!wants_body(true, Some(MAX_BYTES as u64 + 1)));
    assert!(!wants_body(false, None));
    let mut bytes = vec![0; MAX_BYTES - 1];
    assert!(read_chunk(&mut bytes, &[1]));
    assert!(!read_chunk(&mut bytes, &[2]));
    assert_eq!(bytes.len(), MAX_BYTES + 1);
}
