use lana_boards::link::{
    begin_fetch, check_external_url, check_image_target, check_target, clean_option,
    describe_page, finish_fetch, image_fetched, image_to_fetch, is_success_status, meta_content,
    open_external_url, page_fetched, read_page_tags, title_text, FetchError, LinkMetadata,
    PagePlan, PageTags,
};
use lana_boards::net::{ParsedUrl, UrlHost};

fn made_url(text: &str) -> Option<ParsedUrl> {
    let host = text.strip_prefix("https://")?.split('/').next()?.to_string();
    Some(ParsedUrl {
        href: text.to_string(),
        scheme: "https".to_string(),
        host_text: Some(host.clone()),
        host: Some(if host == "[::1]" { UrlHost::Ipv6(1) } else { UrlHost::Domain(host) }),
    })
}

fn no_tags() -> PageTags {
    PageTags {
        og_title: None,
        twitter_title: None,
        title: None,
        og_site_name: None,
        og_image: None,
        twitter_image: None,
    }
}

fn text(s: &str) -> Option<String> {
    Some(s.to_string())
}

#[test]
fn begin_fetch_returns_the_address_in_normal_form() {
    assert_eq!(begin_fetch("board-1", "https://Example.com"), Ok("https://example.com/".to_string()));
}

#[test]
fn begin_fetch_names_each_refusal() {
    assert_eq!(begin_fetch("bad id", "https://example.com/"), Err(FetchError::InvalidIdentifier));
    assert_eq!(begin_fetch("bad id", "nonsense"), Err(FetchError::InvalidIdentifier));
    assert_eq!(begin_fetch("board-1", "nonsense"), Err(FetchError::InvalidUrl));
    assert_eq!(begin_fetch("board-1", "ftp://example.com/"), Err(FetchError::UnsupportedScheme));
    assert_eq!(begin_fetch("board-1", "file:///etc/passwd"), Err(FetchError::UnsupportedScheme));
    assert_eq!(begin_fetch("board-1", "http://localhost:3000/"), Err(FetchError::BlockedHost));
    assert_eq!(begin_fetch("board-1", "http://127.0.0.1/"), Err(FetchError::BlockedHost));
    assert_eq!(begin_fetch("board-1", "http://[::1]/"), Err(FetchError::BlockedHost));
    assert_eq!(begin_fetch("board-1", "http://10.0.0.5/"), Err(FetchError::BlockedHost));
}

#[test]
fn check_target_takes_the_parsed_address() {
    assert_eq!(check_target("b", None), Err(FetchError::InvalidUrl));
    assert_eq!(check_target("b", made_url("https://a.example/x")), Ok("https://a.example/x".to_string()));
}

#[test]
fn a_page_with_only_a_title_element() {
    let plan = page_fetched("https://example.com/post", "<html><head><title>Foo</title></head><body></body></html>").unwrap();
    assert_eq!(plan.meta.title, "Foo");
    assert_eq!(plan.meta.image, None);
    assert_eq!(plan.meta.site_name, Some("example.com".to_string()));
    assert_eq!(plan.meta.url, "https://example.com/post");
    assert_eq!(plan.image_ref, None);
    assert_eq!(image_to_fetch(&plan), None);
    let done = finish_fetch(plan.meta, None);
    assert_eq!(done.title, "Foo");
    assert_eq!(done.image, None);
    assert_eq!(done.site_name, Some("example.com".to_string()));
}

#[test]
fn a_page_with_all_tags() {
    let html = "<html><head>\
        <title> Plain </title>\
        <meta property='og:title' content='  Open Graph  '>\
        <meta name='twitter:title' content='Bird'>\
        <meta property='og:site_name' content='The Site'>\
        <meta property='og:image' content='/img/og.png'>\
        <meta name='twitter:image' content='/img/tw.png'>\
        </head><body><title>second</title></body></html>";
    let tags = read_page_tags(html);
    assert_eq!(tags.og_title, text("Open Graph"));
    assert_eq!(tags.twitter_title, text("Bird"));
    assert_eq!(tags.title, text("Plain"));
    assert_eq!(tags.og_site_name, text("The Site"));
    assert_eq!(tags.og_image, text("/img/og.png"));
    assert_eq!(tags.twitter_image, text("/img/tw.png"));
    let plan = page_fetched("https://example.com/a/b", html).unwrap();
    assert_eq!(plan.meta.title, "Open Graph");
    assert_eq!(plan.meta.site_name, text("The Site"));
    assert_eq!(plan.image_ref, text("/img/og.png"));
    assert_eq!(image_to_fetch(&plan), text("https://example.com/img/og.png"));
}

#[test]
fn title_priority() {
    let url = || made_url("https://host.example/");
    let mut tags = no_tags();
    assert_eq!(describe_page(url(), tags.clone()).unwrap().meta.title, "host.example");
    tags.title = text("T");
    assert_eq!(describe_page(url(), tags.clone()).unwrap().meta.title, "T");
    tags.twitter_title = text("TW");
    assert_eq!(describe_page(url(), tags.clone()).unwrap().meta.title, "TW");
    tags.og_title = text("OG");
    assert_eq!(describe_page(url(), tags.clone()).unwrap().meta.title, "OG");
}

#[test]
fn site_name_and_image_priority() {
    let url = || made_url("https://host.example/");
    let mut tags = no_tags();
    let plan = describe_page(url(), tags.clone()).unwrap();
    assert_eq!(plan.meta.site_name, text("host.example"));
    assert_eq!(plan.image_ref, None);
    tags.twitter_image = text("tw.png");
    assert_eq!(describe_page(url(), tags.clone()).unwrap().image_ref, text("tw.png"));
    tags.og_image = text("og.png");
    tags.og_site_name = text("Site");
    let plan = describe_page(url(), tags).unwrap();
    assert_eq!(plan.image_ref, text("og.png"));
    assert_eq!(plan.meta.site_name, text("Site"));
}

#[test]
fn blank_tags_count_as_absent() {
    let html = "<html><head><title>   </title><meta property='og:title' content=' '></head></html>";
    let tags = read_page_tags(html);
    assert_eq!(tags.og_title, None);
    assert_eq!(tags.title, None);
    assert_eq!(page_fetched("https://h.example/", html).unwrap().meta.title, "h.example");
    assert_eq!(clean_option(text("  ")), None);
    assert_eq!(clean_option(text(" a ")), text("a"));
    assert_eq!(clean_option(None), None);
}

#[test]
fn meta_content_and_title_text_read_the_first_match() {
    let html = "<meta name='a' content='one'><meta name='a' content='two'><title>x &amp; y</title>";
    assert_eq!(meta_content(html, "meta[name='a']"), text("one"));
    assert_eq!(meta_content(html, "meta[name='b']"), None);
    assert_eq!(meta_content(html, "meta[[["), None);
    assert_eq!(meta_content("<meta name='a'>", "meta[name='a']"), None);
    assert_eq!(title_text(html), text("x &amp; y"));
    assert_eq!(title_text("<p>no title</p>"), None);
}

#[test]
fn a_page_found_at_a_local_address_is_refused() {
    assert_eq!(page_fetched("http://127.0.0.1/admin", "<title>x</title>"), Err(FetchError::BlockedHost));
    assert_eq!(page_fetched("http://localhost/", "<title>x</title>"), Err(FetchError::BlockedHost));
    assert_eq!(page_fetched("what", "<title>x</title>"), Err(FetchError::InvalidUrl));
    assert_eq!(describe_page(None, no_tags()), Err(FetchError::InvalidUrl));
}

#[test]
fn an_image_in_the_local_network_is_not_fetched() {
    let html = "<meta property='og:image' content='http://192.168.0.1/cam.jpg'>";
    let plan = page_fetched("https://example.com/", html).unwrap();
    assert_eq!(plan.image_ref, text("http://192.168.0.1/cam.jpg"));
    assert_eq!(image_to_fetch(&plan), None);
    assert_eq!(check_image_target(None), None);
    assert_eq!(check_image_target(made_url("https://[::1]/a.png")), None);
    assert_eq!(check_image_target(made_url("https://cdn.example/a.png")), text("https://cdn.example/a.png"));
}

#[test]
fn an_image_reference_that_does_not_resolve_is_dropped() {
    let plan = PagePlan {
        meta: LinkMetadata { url: "https://example.com/".to_string(), title: "t".to_string(), image: None, site_name: None },
        image_ref: text("http://[bad"),
    };
    assert_eq!(image_to_fetch(&plan), None);
}

#[test]
fn image_fetched_judges_status_type_and_size() {
    assert_eq!(image_fetched(200, "image/png", 10), Some(".png"));
    assert_eq!(image_fetched(204, "image/jpeg", 0), Some(".jpg"));
    assert_eq!(image_fetched(299, "image/x-icon", 10), Some(".img"));
    assert_eq!(image_fetched(200, "image/svg+xml", 10), Some(".img"));
    assert_eq!(image_fetched(200, "image/png", 5 * 1024 * 1024), Some(".png"));
    assert_eq!(image_fetched(200, "image/png", 5 * 1024 * 1024 + 1), None);
    assert_eq!(image_fetched(199, "image/png", 10), None);
    assert_eq!(image_fetched(300, "image/png", 10), None);
    assert_eq!(image_fetched(404, "image/png", 10), None);
    assert_eq!(image_fetched(200, "text/html", 10), None);
    assert_eq!(image_fetched(200, "Image/png", 10), None);
    assert_eq!(image_fetched(200, "", 10), None);
}

#[test]
fn success_is_two_hundred_to_two_ninety_nine() {
    assert!(is_success_status(200));
    assert!(is_success_status(299));
    assert!(!is_success_status(199));
    assert!(!is_success_status(300));
    assert!(!is_success_status(0));
}

#[test]
fn finish_fetch_sets_the_image() {
    let meta = LinkMetadata { url: "u".to_string(), title: "t".to_string(), image: None, site_name: text("s") };
    let done = finish_fetch(meta.clone(), text("assets/link-1.png"));
    assert_eq!(done, LinkMetadata { url: "u".to_string(), title: "t".to_string(), image: text("assets/link-1.png"), site_name: text("s") });
    assert_eq!(finish_fetch(meta.clone(), None), meta);
}

#[test]
fn external_urls_must_be_web_addresses() {
    assert_eq!(open_external_url("https://example.com/a b"), Ok("https://example.com/a%20b".to_string()));
    assert_eq!(open_external_url("http://localhost/"), Ok("http://localhost/".to_string()));
    assert_eq!(open_external_url("javascript:alert(1)"), Err(FetchError::UnsupportedScheme));
    assert_eq!(open_external_url("file:///etc/passwd"), Err(FetchError::UnsupportedScheme));
    assert_eq!(open_external_url("nope"), Err(FetchError::InvalidUrl));
    assert_eq!(check_external_url(None), Err(FetchError::InvalidUrl));
}

#[test]
fn fetch_errors_have_messages() {
    assert_eq!(FetchError::InvalidIdentifier.message(), "invalid board id");
    assert_eq!(FetchError::InvalidUrl.message(), "invalid url");
    assert_eq!(FetchError::UnsupportedScheme.message(), "unsupported url scheme");
    assert_eq!(FetchError::BlockedHost.message(), "blocked url host");
}
