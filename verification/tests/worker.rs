use bullfinch::link::Link;
use bullfinch::worker::{is_html, on_job, page_links, should_get_page, JobDecision};

#[test]
fn worker_job_decisions() {
    assert_eq!(on_job(true, 0, 2), JobDecision::ShutDown);
    assert_eq!(on_job(true, 5, 2), JobDecision::ShutDown);
    assert_eq!(on_job(false, 2, 2), JobDecision::Skip);
    assert_eq!(on_job(false, 3, 2), JobDecision::Skip);
    assert_eq!(on_job(false, 1, 2), JobDecision::FetchHead);
    assert_eq!(on_job(false, 0, 0), JobDecision::Skip);
}

#[test]
fn worker_is_html() {
    assert!(is_html("text/html"));
    assert!(is_html("text/html; charset=utf-8"));
    assert!(!is_html("text/htm"));
    assert!(!is_html("text/plain"));
    assert!(!is_html(""));
    assert!(!is_html("TEXT/HTML"));
    assert!(!is_html(" text/html"));
}

#[test]
fn worker_should_get_page() {
    assert!(should_get_page(Some("text/html;charset=UTF-8")));
    assert!(!should_get_page(Some("application/json")));
    assert!(!should_get_page(None));
}

#[test]
fn worker_reports_same_domain_links_one_level_deeper() {
    let text = r#"<html><body>
        <a href="/a">a</a>
        <a href="http://other.org/b">b</a>
        <a href="?x=1">query</a>
        <a href="c#frag">c</a>
        <a>none</a>
        </body></html>"#;
    let page = Link::parse("http://example.com/dir/").unwrap();
    let out = page_links("example.com", 1, page, text);
    let got: Vec<(usize, String)> = out.into_iter().map(|(d, l)| (d, l.into_string())).collect();
    assert_eq!(
        got,
        vec![
            (2, "http://example.com/a".to_string()),
            (2, "http://example.com/dir/c#frag".to_string()),
        ]
    );
}

#[test]
fn worker_reports_nothing_for_other_domain() {
    let page = Link::parse("http://example.com/").unwrap();
    let out = page_links("elsewhere.com", 0, page, "<a href='/x'>x</a>");
    assert!(out.is_empty());
}
