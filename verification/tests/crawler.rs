use bullfinch::crawler::{Crawler, Discovery};
use bullfinch::errors::BfError;
use bullfinch::link::{Link, UrlParseError};

fn link(s: &str) -> Link {
    Link::parse(s).unwrap()
}

#[test]
fn crawler_new_has_defaults() {
    let c = Crawler::new("https://www.thetimes.co.uk/").unwrap();
    assert_eq!(c.domain, "www.thetimes.co.uk");
    assert_eq!(c.domain_url().as_str(), "https://www.thetimes.co.uk/");
    assert_eq!(c.crawl_depth, 2);
    assert_eq!(c.num_fetchers(), 2);
    assert!(c.verbose_log);
    assert_eq!(c.visited_len(), 0);
    assert!(c.visited_strings().is_empty());
}

#[test]
fn crawler_new_refuses_unparsable_url() {
    assert!(matches!(
        Crawler::new("not a url"),
        Err(BfError::UrlError(UrlParseError::RelativeUrlWithoutBase))
    ));
    assert!(matches!(
        Crawler::new("http://example.com:70000/"),
        Err(BfError::UrlError(UrlParseError::InvalidPort))
    ));
}

#[test]
fn crawler_try_new_without_domain() {
    assert!(Crawler::try_new("mailto:someone@example.com").is_none());
    assert!(Crawler::try_new("http://127.0.0.1/").is_none());
    assert!(matches!(Crawler::try_new("::"), Some(Err(BfError::UrlError(_)))));
    let c = Crawler::try_new("http://google.com").unwrap().unwrap();
    assert_eq!(c.domain, "google.com");
}

#[test]
fn crawler_records_each_page_once() {
    let mut c = Crawler::new("http://example.com/").unwrap();
    let root = c.domain_url().without_fragment();
    assert_eq!(c.on_discovered(0, &root), Discovery::Fetch);
    assert_eq!(c.on_discovered(1, &root), Discovery::AlreadyVisited);
    assert_eq!(c.on_discovered(1, &link("http://example.com/#top")), Discovery::AlreadyVisited);
    assert_eq!(c.on_discovered(1, &link("http://example.com/a.html#x")), Discovery::Fetch);
    assert_eq!(c.on_discovered(2, &link("http://example.com/a.html")), Discovery::AlreadyVisited);
    assert_eq!(c.visited_strings(), vec!["http://example.com/", "http://example.com/a.html"]);
}

#[test]
fn crawler_drops_other_domains() {
    let mut c = Crawler::new("http://example.com/").unwrap();
    assert_eq!(c.on_discovered(1, &link("http://other.com/")), Discovery::OtherDomain);
    assert_eq!(c.on_discovered(1, &link("http://sub.example.com/")), Discovery::OtherDomain);
    assert_eq!(c.on_discovered(1, &link("mailto:x@example.com")), Discovery::OtherDomain);
    assert_eq!(c.visited_len(), 0);
}

#[test]
fn crawler_records_but_does_not_fetch_at_crawl_depth() {
    let mut c = Crawler::new("http://example.com/").unwrap();
    c.crawl_depth = 1;
    assert_eq!(c.on_discovered(0, &link("http://example.com/")), Discovery::Fetch);
    assert_eq!(c.on_discovered(1, &link("http://example.com/deep")), Discovery::Recorded);
    assert_eq!(c.on_discovered(5, &link("http://example.com/deeper")), Discovery::Recorded);
    assert_eq!(c.visited_len(), 3);
    c.crawl_depth = 0;
    assert_eq!(c.on_discovered(0, &link("http://example.com/zero")), Discovery::Recorded);
}

#[test]
fn crawler_fragment_variants_make_one_entry() {
    let mut c = Crawler::new("http://example.com/").unwrap();
    c.on_discovered(1, &link("http://example.com/page.html#abc"));
    c.on_discovered(1, &link("http://example.com/page.html"));
    c.on_discovered(1, &link("http://example.com/page.html#def"));
    assert_eq!(c.visited_strings(), vec!["http://example.com/page.html"]);
}

#[test]
fn crawler_visited_links_have_no_fragment() {
    let mut c = Crawler::new("http://example.com/").unwrap();
    c.on_discovered(1, &link("http://example.com/p#q"));
    for l in c.visited() {
        assert_eq!(l.fragment(), None);
        assert_eq!(l.domain(), Some("example.com"));
    }
}

#[test]
fn crawler_out_of_work_only_when_all_idle_and_queues_empty() {
    let c = Crawler::new("http://example.com/").unwrap();
    assert!(c.out_of_work(0, 0, 2));
    assert!(!c.out_of_work(1, 0, 2));
    assert!(!c.out_of_work(0, 3, 2));
    assert!(!c.out_of_work(0, 0, 1));
}

#[test]
fn crawler_settings_through_accessors() {
    let mut c = Crawler::new("http://example.com/").unwrap();
    assert_eq!(c.crawl_depth(), 2);
    c.set_crawl_depth(1);
    assert_eq!(c.crawl_depth(), 1);
    assert_eq!(c.crawl_depth, 1);
    assert!(c.verbose_log());
    c.set_verbose_log(false);
    assert!(!c.verbose_log());
    assert_eq!(c.on_discovered(1, &link("http://example.com/x")), Discovery::Recorded);
}

#[test]
fn crawler_from_root() {
    let c = Crawler::from_root(link("https://docs.example.org/a#b"));
    assert_eq!(c.domain, "docs.example.org");
    assert_eq!(c.domain_url().as_str(), "https://docs.example.org/a#b");
    assert_eq!(c.visited_len(), 0);
}

#[test]
fn crawler_shuts_down_only_when_out_of_work_or_dispatch_fails() {
    let mut c = Crawler::new("http://example.com/").unwrap();
    assert!(!c.is_shut_down());
    assert!(!c.on_idle(1, 0, 2));
    assert!(!c.on_idle(0, 1, 2));
    assert!(!c.on_idle(0, 0, 1));
    assert!(!c.is_shut_down());
    assert!(c.on_idle(0, 0, 2));
    assert!(c.is_shut_down());
    assert!(!c.on_idle(1, 0, 2));
    assert!(c.is_shut_down());

    let mut d = Crawler::new("http://example.com/").unwrap();
    d.on_dispatch_failed();
    assert!(d.is_shut_down());
}

#[test]
fn crawler_root_crawl_stays_within_depth() {
    let mut c = Crawler::new("http://example.com/").unwrap();
    c.set_crawl_depth(1);
    let root = c.domain_url().clone();
    assert_eq!(c.on_discovered(0, &root), Discovery::Fetch);
    assert_eq!(c.on_discovered(1, &link("http://example.com/child")), Discovery::Recorded);
    assert_eq!(c.visited_strings(), vec!["http://example.com/", "http://example.com/child"]);
}
