use lana_boards::link::{begin_fetch, image_to_fetch, open_external_url, FetchError, LinkMetadata, PagePlan};
use lana_boards::link::page_fetched;
use lana_boards::net::{
    domain_is_local, has_web_scheme, ipv4_from_text, ipv4_is_local, ipv6_is_local, is_safe_url,
    parse_octet, ParsedUrl, UrlHost,
};

fn url_with(scheme: &str, host: Option<UrlHost>) -> ParsedUrl {
    ParsedUrl { href: String::new(), scheme: scheme.to_string(), host_text: None, host }
}

fn safe(text: &str) -> bool {
    match begin_fetch("board-1", text) {
        Ok(_) => true,
        Err(FetchError::BlockedHost) => false,
        Err(other) => panic!("{:?}: {:?}", text, other),
    }
}

fn resolved(base: &str, reference: &str) -> Option<String> {
    let plan = PagePlan {
        meta: LinkMetadata { url: base.to_string(), title: String::new(), image: None, site_name: None },
        image_ref: Some(reference.to_string()),
    };
    image_to_fetch(&plan)
}

fn v4(a: u8, b: u8, c: u8, d: u8) -> u32 {
    u32::from_be_bytes([a, b, c, d])
}

#[test]
fn is_safe_url_rejects_local_targets_and_accepts_a_public_one() {
    assert!(!safe("http://127.0.0.1/"));
    assert!(!safe("http://localhost/"));
    assert!(!safe("http://10.0.0.5/"));
    assert!(!safe("http://[::1]/"));
    assert!(safe("https://example.com/"));
}

#[test]
fn is_safe_url_rejects_the_other_local_ranges() {
    assert!(!safe("http://192.168.1.1/"));
    assert!(!safe("http://172.16.0.1/"));
    assert!(!safe("http://172.31.255.255/"));
    assert!(!safe("http://169.254.10.10/"));
    assert!(!safe("http://0.0.0.0/"));
    assert!(!safe("http://[::]/"));
    assert!(!safe("http://[fe80::1]/"));
    assert!(!safe("http://[fd00::1]/"));
    assert!(!safe("http://[fc00::1]/"));
    assert!(!safe("http://LOCALHOST/"));
    assert!(!safe("http://printer.local/"));
    assert!(!safe("http://2130706433/"));
}

#[test]
fn is_safe_url_accepts_public_addresses() {
    assert!(safe("http://172.32.0.1/"));
    assert!(safe("http://172.15.0.1/"));
    assert!(safe("http://8.8.8.8/"));
    assert!(safe("http://193.168.0.1/"));
    assert!(safe("http://[2001:db8::1]/"));
    assert!(safe("https://local.example/"));
    assert!(safe("https://notlocalhost/"));
}

#[test]
fn is_safe_url_on_hosts() {
    assert!(!is_safe_url(&url_with("http", Some(UrlHost::Ipv4(v4(127, 0, 0, 1))))));
    assert!(!is_safe_url(&url_with("http", Some(UrlHost::Ipv4(v4(10, 0, 0, 5))))));
    assert!(!is_safe_url(&url_with("http", Some(UrlHost::Ipv6(1)))));
    assert!(!is_safe_url(&url_with("http", Some(UrlHost::Domain("localhost".to_string())))));
    assert!(is_safe_url(&url_with("https", Some(UrlHost::Domain("example.com".to_string())))));
    assert!(is_safe_url(&url_with("https", Some(UrlHost::Ipv4(v4(93, 184, 216, 34))))));
}

#[test]
fn an_address_without_host_is_not_safe() {
    assert!(!is_safe_url(&url_with("data", None)));
    assert!(!is_safe_url(&url_with("http", None)));
}

#[test]
fn ipv4_ranges() {
    assert!(ipv4_is_local(v4(10, 0, 0, 0)));
    assert!(ipv4_is_local(v4(10, 255, 255, 255)));
    assert!(!ipv4_is_local(v4(11, 0, 0, 0)));
    assert!(!ipv4_is_local(v4(9, 255, 255, 255)));
    assert!(ipv4_is_local(v4(172, 16, 0, 0)));
    assert!(ipv4_is_local(v4(172, 31, 255, 255)));
    assert!(!ipv4_is_local(v4(172, 15, 255, 255)));
    assert!(!ipv4_is_local(v4(172, 32, 0, 0)));
    assert!(ipv4_is_local(v4(192, 168, 0, 0)));
    assert!(!ipv4_is_local(v4(192, 169, 0, 0)));
    assert!(ipv4_is_local(v4(127, 0, 0, 1)));
    assert!(ipv4_is_local(v4(127, 255, 255, 255)));
    assert!(!ipv4_is_local(v4(128, 0, 0, 0)));
    assert!(ipv4_is_local(v4(169, 254, 0, 1)));
    assert!(!ipv4_is_local(v4(169, 253, 0, 1)));
    assert!(ipv4_is_local(0));
    assert!(!ipv4_is_local(v4(0, 0, 0, 1)));
    assert!(!ipv4_is_local(u32::MAX));
}

#[test]
fn ipv6_ranges() {
    let seg = |first: u16| (first as u128) << 112;
    assert!(ipv6_is_local(0));
    assert!(ipv6_is_local(1));
    assert!(!ipv6_is_local(2));
    assert!(ipv6_is_local(seg(0xfe80)));
    assert!(ipv6_is_local(seg(0xfebf) | 5));
    assert!(!ipv6_is_local(seg(0xfec0)));
    assert!(!ipv6_is_local(seg(0xfe7f)));
    assert!(ipv6_is_local(seg(0xfc00)));
    assert!(ipv6_is_local(seg(0xfdff) | 9));
    assert!(!ipv6_is_local(seg(0xfbff)));
    assert!(!ipv6_is_local(seg(0xfe00)));
    assert!(!ipv6_is_local(seg(0x2001)));
    assert!(!ipv6_is_local(u128::MAX));
}

#[test]
fn local_domains() {
    assert!(domain_is_local("localhost"));
    assert!(domain_is_local("LocalHost"));
    assert!(domain_is_local("nas.local"));
    assert!(domain_is_local(".local"));
    assert!(!domain_is_local("local"));
    assert!(!domain_is_local("nas.LOCAL"));
    assert!(!domain_is_local("example.com"));
    assert!(!domain_is_local("localhost.example.com"));
}

#[test]
fn addresses_come_back_in_normal_form() {
    assert_eq!(
        begin_fetch("b", "HTTPS://Example.COM:443/a/../b?q=1#f"),
        Ok("https://example.com/b?q=1#f".to_string())
    );
    assert_eq!(open_external_url("http://192.168.0.7:8080"), Ok("http://192.168.0.7:8080/".to_string()));
    assert_eq!(open_external_url("http://[0:0:0:0:0:0:0:1]/x"), Ok("http://[::1]/x".to_string()));
}

#[test]
fn what_is_no_absolute_address_is_refused() {
    assert_eq!(begin_fetch("b", "not a url"), Err(FetchError::InvalidUrl));
    assert_eq!(begin_fetch("b", "/relative/path"), Err(FetchError::InvalidUrl));
    assert_eq!(begin_fetch("b", ""), Err(FetchError::InvalidUrl));
}

#[test]
fn schemes_other_than_http_and_https() {
    assert!(has_web_scheme(&url_with("http", None)));
    assert!(has_web_scheme(&url_with("https", None)));
    assert!(!has_web_scheme(&url_with("ftp", None)));
    assert!(!has_web_scheme(&url_with("httpx", None)));
    assert!(!has_web_scheme(&url_with("", None)));
    assert_eq!(begin_fetch("b", "ftp://a.example/"), Err(FetchError::UnsupportedScheme));
    assert_eq!(begin_fetch("b", "file:///etc/passwd"), Err(FetchError::UnsupportedScheme));
}

#[test]
fn a_reference_is_resolved_against_its_base() {
    assert_eq!(resolved("https://example.net/a/b.html", "c.png"), Some("https://example.net/a/c.png".to_string()));
    assert_eq!(resolved("https://example.net/a/b.html", "/img/p.png"), Some("https://example.net/img/p.png".to_string()));
    assert_eq!(resolved("https://example.net/a", "//cdn.example.org/x.gif"), Some("https://cdn.example.org/x.gif".to_string()));
    assert_eq!(resolved("https://example.net/a", "http://127.0.0.1/x.gif"), None);
    assert_eq!(resolved("nonsense", "c.png"), None);
    assert_eq!(resolved("https://example.net/", "http://[bad"), None);
}

fn named(host: &str) -> ParsedUrl {
    url_with("foo", Some(UrlHost::Domain(host.to_string())))
}

#[test]
fn a_local_ipv4_address_given_as_a_name_is_not_safe() {
    assert!(!is_safe_url(&named("10.0.0.5")));
    assert!(!is_safe_url(&named("127.0.0.1")));
    assert!(!is_safe_url(&named("192.168.1.1")));
    assert!(!is_safe_url(&named("172.16.0.1")));
    assert!(!is_safe_url(&named("169.254.1.1")));
    assert!(!is_safe_url(&named("0.0.0.0")));
}

#[test]
fn a_public_ipv4_address_given_as_a_name_is_safe() {
    assert!(is_safe_url(&named("8.8.8.8")));
    assert!(is_safe_url(&named("172.32.0.1")));
    assert!(is_safe_url(&named("255.255.255.255")));
}

#[test]
fn a_name_that_writes_out_no_address_is_judged_as_a_name() {
    assert!(is_safe_url(&named("010.0.0.5")));
    assert!(is_safe_url(&named("10.0.0")));
    assert!(is_safe_url(&named("10.0.0.5.")));
    assert!(is_safe_url(&named("10.0.0.256")));
    assert!(is_safe_url(&named("10.0.0.5.example.com")));
    assert!(!is_safe_url(&named("10.0.0.5.local")));
}

#[test]
fn an_address_under_another_scheme_is_held_to_the_same_rule() {
    assert_eq!(resolved("https://example.com/", "gopher://127.0.0.1/"), None);
    assert_eq!(resolved("https://example.com/", "foo://10.0.0.5/x.png"), None);
    assert_eq!(resolved("https://example.com/", "foo://192.168.0.1:8080/x.png"), None);
    assert_eq!(resolved("https://example.com/", "foo://8.8.8.8/x.png"), Some("foo://8.8.8.8/x.png".to_string()));
    assert_eq!(page_fetched("gopher://127.0.0.1:6379/", "<title>x</title>"), Err(FetchError::BlockedHost));
    assert_eq!(page_fetched("foo://10.0.0.5/", "<title>x</title>"), Err(FetchError::BlockedHost));
    assert!(page_fetched("foo://8.8.8.8/", "<title>x</title>").is_ok());
}

#[test]
fn ipv4_addresses_written_out() {
    assert_eq!(ipv4_from_text("10.0.0.5"), Some(v4(10, 0, 0, 5)));
    assert_eq!(ipv4_from_text("0.0.0.0"), Some(0));
    assert_eq!(ipv4_from_text("255.255.255.255"), Some(u32::MAX));
    assert_eq!(ipv4_from_text("1.2.3.4"), Some(v4(1, 2, 3, 4)));
    assert_eq!(ipv4_from_text("192.168.100.7"), Some(v4(192, 168, 100, 7)));
}

#[test]
fn texts_that_write_out_no_ipv4_address() {
    for text in [
        "", ".", "...", "1.2.3", "1.2.3.4.5", "1.2.3.4.", ".1.2.3.4", "1..2.3", "01.2.3.4",
        "1.2.3.04", "00.0.0.0", "256.1.1.1", "1.2.3.256", "1.2.3.999", "1.2.3.1000", "a.b.c.d",
        "1.2.3.x", "1.2.3.-4", "1.2.3.+4", " 1.2.3.4", "1.2.3.4 ", "0x7f.0.0.1", "2130706433",
        "1.2.3.\u{664}", "example.com",
    ] {
        assert_eq!(ipv4_from_text(text), None, "{:?}", text);
    }
}

#[test]
fn octets() {
    let chars = |s: &str| s.chars().collect::<Vec<char>>();
    for n in 0u32..=255 {
        assert_eq!(parse_octet(&chars(&n.to_string())), Some(n));
    }
    for text in ["", "256", "999", "1000", "00", "01", "007", "1a", "a", "-1", "+1", " 1", "2 5"] {
        assert_eq!(parse_octet(&chars(text)), None, "{:?}", text);
    }
}
