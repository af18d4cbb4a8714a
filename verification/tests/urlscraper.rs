use bullfinch::link::Link;
use bullfinch::urlscraper::UrlScraper;

#[test]
fn it_works2() {
    assert_eq!(2 + 2, 4);
}

#[test]
fn urlscraper_parse_link_single() {
    let text = r#"
        <!DOCTYPE html>
        <meta charset="utf-8">
        <title>Hello, world!</title>
        <h1 class="foo">Hello, <i>world!</i></h1>
        <a href="mypage">link text</a>
        "#;

    let html = scraper::Html::parse_document(&text);
    let selector = scraper::Selector::parse("a").expect("failed to create selector");
    let mut data = html.select(&selector);
    let mut links = Vec::new();
    for element in &mut data {
        if let Some(url) = element.value().attr("href") {
            links.push(url)
        }
    }
    assert_eq!(1, links.len());
    assert_eq!("mypage", links[0]);
}

#[test]
fn urlscraper_parse_link_single2() {
    let text = r#"
        <!DOCTYPE html>
        <meta charset="utf-8">
        <title>Hello, world!</title>
        <h1 class="foo">Hello, <i>world!</i></h1>
        <a href="mypage">link text</a>
        <a href="mypage">link text 2</a>
        "#;

    // All links should be the same
    let url = Link::parse("http://mydomain.com").unwrap();
    let url_scraper = UrlScraper::new(url, &text).unwrap();
    let mut iter = url_scraper.into_iter();
    while let Some(x) = iter.next() {
        assert_eq!("http://mydomain.com/mypage", x.into_string());
    }
}

const PAGE: &str = r#"
    <html><body>
    <a href="/about">About</a>
    <a>no target</a>
    <a href="?page=2">next</a>
    <a href="https://other.org/x">elsewhere</a>
    <p><a href="sub/item.html#part">item</a></p>
    <a href="http://[::1">broken</a>
    </body></html>
    "#;

#[test]
fn scraper_links_skip_missing_query_and_broken_hrefs() {
    let url = Link::parse("http://example.com/dir/index.html").unwrap();
    let s = UrlScraper::new(url, PAGE).unwrap();
    let links: Vec<String> = s.links().into_iter().map(|l| l.into_string()).collect();
    assert_eq!(
        links,
        vec![
            "http://example.com/about".to_string(),
            "https://other.org/x".to_string(),
            "http://example.com/dir/sub/item.html#part".to_string(),
        ]
    );
}

#[test]
fn scraper_iterator_gives_the_same_links_as_links() {
    let url = Link::parse("http://example.com/dir/index.html").unwrap();
    let s = UrlScraper::new(url, PAGE).unwrap();
    let mut iter = s.into_iter();
    let mut from_iter = Vec::new();
    while let Some(l) = iter.next() {
        from_iter.push(l.into_string());
    }
    assert!(iter.next().is_none());
    let all: Vec<String> = s.links().into_iter().map(|l| l.into_string()).collect();
    assert_eq!(from_iter, all);
}

#[test]
fn scraper_page_without_anchors_has_no_links() {
    let url = Link::parse("http://example.com/").unwrap();
    let s = UrlScraper::new(url, "<html><p>nothing</p></html>").unwrap();
    assert!(s.links().is_empty());
    assert!(s.into_iter().next().is_none());
}

#[test]
fn scraper_links_keep_their_domain_and_fragment() {
    let url = Link::parse("http://example.com/dir/index.html").unwrap();
    let s = UrlScraper::new(url, PAGE).unwrap();
    let links = s.links();
    assert_eq!(links[0].domain(), Some("example.com"));
    assert_eq!(links[1].domain(), Some("other.org"));
    assert_eq!(links[2].fragment(), Some("part"));
    assert_eq!(links[0].fragment(), None);
}

#[test]
fn scraper_from_hrefs() {
    let url = Link::parse("http://example.com/d/").unwrap();
    let s = UrlScraper::from_hrefs(
        url,
        vec![Some("x".to_string()), None, Some("?q".to_string()), Some("/y#z".to_string())],
    );
    let links: Vec<String> = s.links().into_iter().map(|l| l.into_string()).collect();
    assert_eq!(links, vec!["http://example.com/d/x".to_string(), "http://example.com/y#z".to_string()]);
}
