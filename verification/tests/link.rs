use bullfinch::link::{is_same_domain, Link, UrlParseError};

#[test]
fn link_parse_reads_serialization_domain_and_fragment() {
    let l = Link::parse("HTTP://Example.COM/a/b.html#top").unwrap();
    assert_eq!(l.as_str(), "http://example.com/a/b.html#top");
    assert_eq!(l.domain(), Some("example.com"));
    assert_eq!(l.fragment(), Some("top"));
}

#[test]
fn link_parse_refuses_relative_and_garbage() {
    assert_eq!(Link::parse("mypage").unwrap_err(), UrlParseError::RelativeUrlWithoutBase);
    assert_eq!(Link::parse("").unwrap_err(), UrlParseError::RelativeUrlWithoutBase);
    assert_eq!(Link::parse("http://[::1").unwrap_err(), UrlParseError::InvalidIpv6Address);
    assert_eq!(Link::parse("http://a.com:99999/").unwrap_err(), UrlParseError::InvalidPort);
    assert_eq!(Link::parse("http:///").unwrap_err(), UrlParseError::EmptyHost);
}

#[test]
fn url_parse_error_texts() {
    assert_eq!(UrlParseError::RelativeUrlWithoutBase.as_str(), "relative URL without a base");
    assert_eq!(UrlParseError::EmptyHost.as_str(), "empty host");
    assert_eq!(
        UrlParseError::SetHostOnCannotBeABaseUrl.as_str(),
        url::ParseError::SetHostOnCannotBeABaseUrl.to_string()
    );
    assert_eq!(UrlParseError::Overflow.as_str(), url::ParseError::Overflow.to_string());
}

#[test]
fn link_without_fragment_keeps_first_hash_only_cut() {
    let l = Link::parse("http://example.com/a#b#c").unwrap();
    assert_eq!(l.fragment(), Some("b#c"));
    assert_eq!(l.without_fragment().as_str(), "http://example.com/a");
    let q = Link::parse("http://example.com/a?x=%23#frag").unwrap();
    assert_eq!(q.without_fragment().as_str(), "http://example.com/a?x=%23");
}

#[test]
fn link_without_fragment_opaque_path() {
    let m = Link::parse("mailto:me@example.com  #x").unwrap();
    assert_eq!(m.without_fragment().as_str(), "mailto:me@example.com");
    let q = Link::parse("mailto:me@example.com?subject=a  #x").unwrap();
    assert_eq!(q.without_fragment().as_str(), "mailto:me@example.com?subject=a%20%20");
}

#[test]
fn link_without_domain() {
    let ip = Link::parse("https://127.0.0.1/").unwrap();
    assert_eq!(ip.domain(), None);
    let mail = Link::parse("mailto:rms@example.net").unwrap();
    assert_eq!(mail.domain(), None);
}

#[test]
fn link_without_fragment_cuts_at_hash() {
    let l = Link::parse("https://example.com/data.csv#row=4").unwrap();
    let p = l.without_fragment();
    assert_eq!(p.as_str(), "https://example.com/data.csv");
    assert_eq!(p.fragment(), None);
    assert_eq!(p.domain(), Some("example.com"));
    let q = Link::parse("https://example.com/data.csv").unwrap();
    assert!(p.same_as(&q));
    assert!(!l.same_as(&q));
}

#[test]
fn link_join_relative_and_absolute() {
    let base = Link::parse("https://example.net/a/b.html").unwrap();
    assert_eq!(base.join("c.png").unwrap().as_str(), "https://example.net/a/c.png");
    assert_eq!(base.join("/v1/meta").unwrap().as_str(), "https://example.net/v1/meta");
    assert_eq!(base.join("//eve.com/b").unwrap().as_str(), "https://eve.com/b");
    assert_eq!(base.join("http://eve.com/b").unwrap().as_str(), "http://eve.com/b");
    assert!(base.join("http://[::1").is_none());
}

#[test]
fn is_same_domain_compares_domains() {
    let l = Link::parse("https://www.thetimes.co.uk/article/x").unwrap();
    assert!(is_same_domain("www.thetimes.co.uk", &l));
    assert!(!is_same_domain("thetimes.co.uk", &l));
    let ip = Link::parse("http://10.0.0.1/").unwrap();
    assert!(!is_same_domain("10.0.0.1", &ip));
}
