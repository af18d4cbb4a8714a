use bullfinch::crawler::{Crawler, Discovery};
use bullfinch::errors::BfError;
use bullfinch::flock::Flock;
use bullfinch::link::Link;

fn two() -> Flock {
    let mut f = Flock::new();
    f.register(1, Crawler::new("http://google.com").unwrap());
    f.register(2, Crawler::new("https://www.dailymail.co.uk/home/index.html").unwrap());
    f
}

#[test]
fn flock_unknown_id_is_not_registered() {
    let f = two();
    assert!(matches!(f.num_visited(7), Err(BfError::DomainNotRegistered(7))));
    assert!(matches!(f.visited(3), Err(BfError::DomainNotRegistered(3))));
    assert!(f.get(9).is_none());
}

#[test]
fn flock_counts_and_lists_visited() {
    let mut f = two();
    assert_eq!(f.num_visited(1).unwrap(), 0);
    let l = Link::parse("http://google.com/#x").unwrap();
    assert_eq!(f.on_discovered(1, 0, &l), Some(Discovery::Fetch));
    assert_eq!(f.on_discovered(1, 0, &l), Some(Discovery::AlreadyVisited));
    assert_eq!(f.on_discovered(4, 0, &l), None);
    assert_eq!(f.on_discovered(2, 0, &l), Some(Discovery::OtherDomain));
    assert_eq!(f.num_visited(1).unwrap(), 1);
    assert_eq!(f.visited(1).unwrap(), vec!["http://google.com/".to_string()]);
    assert_eq!(f.num_visited(2).unwrap(), 0);
}

#[test]
fn flock_ids_and_domains() {
    let f = two();
    let mut ids = f.ids();
    ids.sort();
    assert_eq!(ids, vec![1, 2]);
    let mut d = f.domains();
    d.sort();
    assert_eq!(
        d,
        vec![(1, "google.com".to_string()), (2, "www.dailymail.co.uk".to_string())]
    );
}

#[test]
fn flock_register_replaces() {
    let mut f = two();
    f.register(1, Crawler::new("http://example.org").unwrap());
    assert_eq!(f.get(1).unwrap().domain, "example.org");
    assert_eq!(f.ids().len(), 2);
}

#[test]
fn flock_shut_down_per_crawler() {
    let mut f = two();
    assert_eq!(f.on_idle(1, 0, 0, 1), Some(false));
    assert!(!f.get(1).unwrap().is_shut_down());
    assert_eq!(f.on_idle(1, 0, 0, 2), Some(true));
    assert!(f.get(1).unwrap().is_shut_down());
    assert!(!f.get(2).unwrap().is_shut_down());
    assert_eq!(f.on_dispatch_failed(2), Some(()));
    assert!(f.get(2).unwrap().is_shut_down());
    assert_eq!(f.on_idle(9, 0, 0, 2), None);
    assert_eq!(f.on_dispatch_failed(9), None);
}
