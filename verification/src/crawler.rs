//! The single-domain crawler: its state and the decisions of the thread that
//! coordinates a crawl.
//!
//! Links found on pages come back to the coordinator with their depth. The
//! coordinator drops links of other domains, records each page once under its
//! URL without fragment (so that `page.html` and `page.html#abc` are one
//! entry), and hands the newly recorded pages that are not too deep to the
//! fetching workers.
use vstd::prelude::*;
use crate::errors::BfError;
use crate::link::{error_kind, link_view, parsed_url, url_domain, Link, LinkView};
use crate::worker::reported_links;

verus! {

/// What becomes of a link that reaches the coordinator.
#[derive(Debug, Clone, Copy, PartialEq, Eq, Structural)]
pub enum Discovery {
    /// The link belongs to another domain and is dropped.
    OtherDomain,
    /// Its page was recorded before; nothing changes.
    AlreadyVisited,
    /// Its page is recorded, but it lies at the crawl depth and is not fetched.
    Recorded,
    /// Its page is recorded and is to be fetched.
    Fetch,
}

/// The plain values of a crawler.
pub struct CrawlerView {
    pub domain: Seq<char>,
    pub root: LinkView,
    pub visited: Seq<LinkView>,
    pub num_fetchers: nat,
    pub crawl_depth: nat,
    pub verbose_log: bool,
    pub shut_down: bool,
}

/// The serializations of the recorded pages, in the order of recording.
pub open spec fn visited_keys(visited: Seq<LinkView>) -> Seq<Seq<char>> {
    visited.map_values(|l: LinkView| l.serialization)
}

impl CrawlerView {
    /// The state of a crawler once every operation has kept it: the root has
    /// a domain, and the recorded pages have no fragment, lie in the root's
    /// domain and are recorded once each.
    pub open spec fn wf(self) -> bool {
        &&& self.root.domain is Some
        &&& forall|i: int| 0 <= i < self.visited.len() ==> (#[trigger] self.visited[i]).fragment is None
        &&& forall|i: int|
            0 <= i < self.visited.len() ==> (#[trigger] self.visited[i]).domain == self.root.domain
        &&& forall|i: int, j: int|
            0 <= i < j < self.visited.len() ==> (#[trigger] self.visited[i]).serialization != (
            #[trigger] self.visited[j]).serialization
    }

    /// Tells whether `url` lies in the root's domain.
    pub open spec fn in_domain(self, url: LinkView) -> bool {
        url.domain is Some && url.domain == self.root.domain
    }

    /// What becomes of `url`, found at `depth`.
    pub open spec fn discovery(self, depth: int, url: LinkView) -> Discovery {
        if !self.in_domain(url) {
            Discovery::OtherDomain
        } else if visited_keys(self.visited).contains(url.page_key()) {
            Discovery::AlreadyVisited
        } else if depth >= self.crawl_depth {
            Discovery::Recorded
        } else {
            Discovery::Fetch
        }
    }

    /// The crawler once `url`, found at `depth`, has reached the coordinator.
    pub open spec fn after_discovery(self, depth: int, url: LinkView) -> CrawlerView {
        match self.discovery(depth, url) {
            Discovery::OtherDomain => self,
            Discovery::AlreadyVisited => self,
            _ => CrawlerView { visited: self.visited.push(url.without_fragment()), ..self },
        }
    }
}

/// A fresh crawler for the root `root`.
pub open spec fn initial_crawler(root: LinkView) -> CrawlerView {
    CrawlerView {
        domain: root.domain->0,
        root,
        visited: seq![],
        num_fetchers: 2,
        crawl_depth: 2,
        verbose_log: true,
        shut_down: false,
    }
}

/// What reaches the coordinator of a crawl.
pub enum CoordinatorEvent {
    /// A link, found at `depth` (the root at depth 0).
    Link { depth: nat, url: LinkView },
    /// No link was waiting; so many jobs wait for workers, so many links for
    /// the coordinator, and so many workers are idle.
    Idle { jobs_waiting: nat, links_waiting: nat, idle_workers: nat },
    /// A page could not be handed to the workers.
    DispatchFailed,
}

impl CrawlerView {
    /// The crawler once `e` has reached the coordinator.
    pub open spec fn step(self, e: CoordinatorEvent) -> CrawlerView {
        match e {
            CoordinatorEvent::Link { depth, url } => self.after_discovery(depth as int, url),
            CoordinatorEvent::Idle { jobs_waiting, links_waiting, idle_workers } => CrawlerView {
                shut_down: self.shut_down || (jobs_waiting == 0 && links_waiting == 0 && idle_workers
                    == self.num_fetchers),
                ..self
            },
            CoordinatorEvent::DispatchFailed => CrawlerView { shut_down: true, ..self },
        }
    }
}

/// The crawler once the events `events` have reached the coordinator, in order.
pub open spec fn run(c: CrawlerView, events: Seq<CoordinatorEvent>) -> CrawlerView
    decreases events.len(),
{
    if events.len() == 0 {
        c
    } else {
        run(c, events.drop_last()).step(events.last())
    }
}

/// A link delivered to the coordinator: its depth, the link, and the
/// delivery of the page on which it was found (none for the root).
pub struct Delivery {
    pub depth: nat,
    pub link: LinkView,
    pub parent: Option<nat>,
}

/// The crawler once the links of `ds` have reached the coordinator, in order.
pub open spec fn replay(c: CrawlerView, ds: Seq<Delivery>) -> CrawlerView
    decreases ds.len(),
{
    if ds.len() == 0 {
        c
    } else {
        replay(c, ds.drop_last()).after_discovery(ds.last().depth as int, ds.last().link)
    }
}

/// The deliveries `ds` can happen in a crawl that starts from `c`: the first
/// is the root at depth 0; every later one is a link that a worker reported
/// (see [`reported_links`]) on the page of an earlier delivery, which the
/// coordinator decided to fetch, one level deeper.
pub open spec fn valid_crawl(c: CrawlerView, ds: Seq<Delivery>) -> bool {
    &&& ds.len() > 0 ==> ds[0].depth == 0 && ds[0].link == c.root && ds[0].parent is None
    &&& forall|i: int|
        0 < i < ds.len() ==> #[trigger] ds[i].parent is Some && ds[i].parent->0 < i && ds[i].depth
            == ds[ds[i].parent->0 as int].depth + 1 && replay(c, ds.take(ds[i].parent->0 as int)).discovery(
            ds[ds[i].parent->0 as int].depth as int,
            ds[ds[i].parent->0 as int].link,
        ) == Discovery::Fetch && (exists|text: Seq<char>|
            reported_links(c.domain, ds[ds[i].parent->0 as int].link.serialization, text).contains(
                ds[i].link.serialization,
            )) && ds[i].link == link_view(ds[i].link.serialization)
}

/// The number of hops from the root to delivery `i`, following the pages on
/// which the links were found.
pub open spec fn hops(ds: Seq<Delivery>, i: int) -> nat
    decreases i,
{
    if 0 <= i < ds.len() && ds[i].parent is Some && ds[i].parent->0 < i {
        1 + hops(ds, ds[i].parent->0 as int)
    } else {
        0
    }
}

/// The delivery reached from delivery `i` by following the pages on which
/// the links were found as far as it goes.
pub open spec fn origin(ds: Seq<Delivery>, i: int) -> int
    decreases i,
{
    if 0 <= i < ds.len() && ds[i].parent is Some && ds[i].parent->0 < i {
        origin(ds, ds[i].parent->0 as int)
    } else {
        i
    }
}

/// Single domain crawler
#[derive(Debug)]
pub struct Crawler {
    pub domain: String,
    domain_url: Link,
    visited: Vec<Link>,
    /// Number of fetching threads
    num_fetchers: usize,
    pub crawl_depth: usize,
    /// Whether links are to be logged as they are processed (the crawl
    /// itself does not read it)
    pub verbose_log: bool,
    /// Whether the crawl has been told to stop
    shut_down: bool,
}

impl View for Crawler {
    type V = CrawlerView;

    closed spec fn view(&self) -> CrawlerView {
        CrawlerView {
            domain: self.domain@,
            root: self.domain_url@,
            visited: self.visited@.map_values(|l: Link| l@),
            num_fetchers: self.num_fetchers as nat,
            crawl_depth: self.crawl_depth as nat,
            verbose_log: self.verbose_log,
            shut_down: self.shut_down,
        }
    }
}

impl Crawler {
    /// Create new crawler with empty data, for the root `root`, which has a
    /// domain.
    pub fn from_root(root: Link) -> (r: Crawler)
        requires
            root@.domain is Some,
        ensures
            r@ == initial_crawler(root@),
            r@.wf(),
    {
        let d: String = match root.domain() {
            Some(d) => d.to_owned(),
            None => String::new(),
        };
        let c = Crawler {
            domain: d,
            domain_url: root,
            visited: Vec::new(),
            num_fetchers: 2,
            crawl_depth: 2,
            verbose_log: true,
            shut_down: false,
        };
        assert(c@.visited =~= Seq::<LinkView>::empty());
        c
    }

    /// Create new crawler with empty data, for the root URL `domain`.
    pub fn new(domain: &str) -> (r: Result<Self, BfError>)
        requires
            parsed_url(domain@) matches Ok(s) ==> url_domain(s) is Some,
        ensures
            parsed_url(domain@) matches Err(t) ==> (r matches Err(BfError::UrlError(x)) && x
                == error_kind(t)),
            parsed_url(domain@) matches Ok(s) ==> (r matches Ok(c) && c@ == initial_crawler(
                link_view(s),
            ) && c@.wf()),
    {
        match Link::parse(domain) {
            Ok(url) => Ok(Crawler::from_root(url)),
            Err(e) => Err(BfError::UrlError(e)),
        }
    }

    /// Like [`Crawler::new`], but gives `None`, where `new` cannot proceed,
    /// for a URL that parses and has no domain (such as `mailto:` or an IP
    /// address).
    pub fn try_new(domain: &str) -> (r: Option<Result<Self, BfError>>)
        ensures
            r is None <==> (parsed_url(domain@) matches Ok(s) && url_domain(s) is None),
            parsed_url(domain@) matches Err(t) ==> (r matches Some(Err(BfError::UrlError(x))) && x
                == error_kind(t)),
            parsed_url(domain@) is Ok && url_domain(parsed_url(domain@)->Ok_0) is Some ==> (
            r matches Some(Ok(c)) && c@ == initial_crawler(link_view(parsed_url(domain@)->Ok_0))
                && c@.wf()),
    {
        match Link::parse(domain) {
            Ok(url) => {
                if url.domain().is_none() {
                    None
                } else {
                    Some(Crawler::new(domain))
                }
            },
            Err(e) => Some(Err(BfError::UrlError(e))),
        }
    }

    /// The domain of the crawl, as set (by [`Crawler::new`], the root's
    /// domain).
    pub fn domain_name(&self) -> (r: &String)
        ensures
            r@ == self@.domain,
    {
        &self.domain
    }

    /// The root URL of the crawl.
    pub fn domain_url(&self) -> (r: &Link)
        ensures
            r@ == self@.root,
    {
        &self.domain_url
    }

    /// Number of fetching threads.
    pub fn num_fetchers(&self) -> (r: usize)
        ensures
            r == self@.num_fetchers,
    {
        self.num_fetchers
    }

    /// The crawl depth: pages found at this depth or deeper are recorded but
    /// not fetched.
    pub fn crawl_depth(&self) -> (r: usize)
        ensures
            r == self@.crawl_depth,
    {
        self.crawl_depth
    }

    /// Sets the crawl depth.
    pub fn set_crawl_depth(&mut self, depth: usize)
        ensures
            final(self)@ == (CrawlerView { crawl_depth: depth as nat, ..old(self)@ }),
    {
        self.crawl_depth = depth;
    }

    /// Whether links are to be logged as they are processed.
    pub fn verbose_log(&self) -> (r: bool)
        ensures
            r == self@.verbose_log,
    {
        self.verbose_log
    }

    /// Sets whether links are to be logged as they are processed.
    pub fn set_verbose_log(&mut self, verbose: bool)
        ensures
            final(self)@ == (CrawlerView { verbose_log: verbose, ..old(self)@ }),
    {
        self.verbose_log = verbose;
    }

    /// Whether the crawl has been told to stop.
    pub fn is_shut_down(&self) -> (r: bool)
        ensures
            r == self@.shut_down,
    {
        self.shut_down
    }

    /// Number of pages recorded so far.
    pub fn visited_len(&self) -> (r: usize)
        ensures
            r == self@.visited.len(),
    {
        self.visited.len()
    }

    /// The pages recorded so far, in the order of recording.
    pub fn visited(&self) -> (r: &Vec<Link>)
        ensures
            r@.map_values(|l: Link| l@) == self@.visited,
    {
        &self.visited
    }

    /// The serializations of the pages recorded so far, in the order of
    /// recording.
    pub fn visited_strings(&self) -> (r: Vec<String>)
        ensures
            r@.map_values(|s: String| s@) == visited_keys(self@.visited),
            self@.wf() ==> r@.map_values(|s: String| s@).no_duplicates(),
    {
        let mut out: Vec<String> = Vec::new();
        let n = self.visited.len();
        for i in 0..n
            invariant
                n == self.visited@.len(),
                out@.len() == i,
                forall|j: int| 0 <= j < i ==> #[trigger] out@[j]@ == self.visited@[j]@.serialization,
        {
            out.push(self.visited[i].as_str().to_owned());
        }
        assert(out@.map_values(|s: String| s@) =~= visited_keys(self@.visited));
        proof {
            if self@.wf() {
                let ks = visited_keys(self@.visited);
                assert forall|i: int, j: int| 0 <= i < ks.len() && 0 <= j < ks.len() && i != j implies ks[i] != ks[j] by {
                    if i < j {
                        assert(self@.visited[i].serialization != self@.visited[j].serialization);
                    } else {
                        assert(self@.visited[j].serialization != self@.visited[i].serialization);
                    }
                }
            }
        }
        out
    }

    fn is_visited(&self, key: &Link) -> (r: bool)
        ensures
            r == visited_keys(self@.visited).contains(key@.serialization),
    {
        let n = self.visited.len();
        let ghost keys = visited_keys(self@.visited);
        for i in 0..n
            invariant
                n == self.visited@.len(),
                keys == visited_keys(self@.visited),
                forall|j: int| 0 <= j < i ==> keys[j] != key@.serialization,
        {
            if self.visited[i].same_as(key) {
                assert(keys[i as int] == key@.serialization);
                return true;
            }
        }
        proof {
            if keys.contains(key@.serialization) {
                let j = choose|j: int| 0 <= j < keys.len() && keys[j] == key@.serialization;
                assert(keys[j] != key@.serialization);
            }
        }
        false
    }

    /// Handles `url`, found at `depth` (or the root, at depth 0): drops it if
    /// it belongs to another domain, records its page (the URL without
    /// fragment) unless the page was recorded before, and says whether the
    /// page is to be fetched, which it is below the crawl depth.
    pub fn on_discovered(&mut self, depth: usize, url: &Link) -> (r: Discovery)
        ensures
            r == old(self)@.discovery(depth as int, url@),
            final(self)@ == old(self)@.after_discovery(depth as int, url@),
            old(self)@.wf() ==> final(self)@.wf(),
    {
        proof {
            if old(self)@.wf() {
                law_discovery_keeps_wf(old(self)@, depth as int, url@);
            }
        }
        let same = match self.domain_url.domain() {
            Some(d) => crate::link::is_same_domain(d, url),
            None => false,
        };
        if !same {
            return Discovery::OtherDomain;
        }
        proof {
            use_type_invariant(url);
        }
        let page = url.without_fragment();
        if self.is_visited(&page) {
            return Discovery::AlreadyVisited;
        }
        let ghost before = self.visited@;
        self.visited.push(page);
        proof {
            assert(self.visited@.map_values(|l: Link| l@) =~= before.map_values(|l: Link| l@).push(
                url@.without_fragment(),
            ));
        }
        if depth >= self.crawl_depth {
            Discovery::Recorded
        } else {
            Discovery::Fetch
        }
    }

    /// Tells whether the crawl has run out of work: no job waits for a
    /// worker, no link waits for the coordinator, and every worker is idle.
    pub fn out_of_work(&self, jobs_waiting: usize, links_waiting: usize, idle_workers: usize) -> (r:
        bool)
        ensures
            r == (jobs_waiting == 0 && links_waiting == 0 && idle_workers == self@.num_fetchers),
    {
        jobs_waiting == 0 && links_waiting == 0 && idle_workers == self.num_fetchers
    }

    /// Handles the coordinator finding no link waiting: if the crawl has run
    /// out of work (see [`Crawler::out_of_work`]) it is told to stop. Says
    /// whether it ran out of work.
    pub fn on_idle(&mut self, jobs_waiting: usize, links_waiting: usize, idle_workers: usize) -> (r:
        bool)
        ensures
            r == (jobs_waiting == 0 && links_waiting == 0 && idle_workers == old(self)@.num_fetchers),
            final(self)@ == old(self)@.step(
                CoordinatorEvent::Idle {
                    jobs_waiting: jobs_waiting as nat,
                    links_waiting: links_waiting as nat,
                    idle_workers: idle_workers as nat,
                },
            ),
    {
        let done = self.out_of_work(jobs_waiting, links_waiting, idle_workers);
        if done {
            self.shut_down = true;
        }
        done
    }

    /// Handles a page that could not be handed to the workers: the crawl is
    /// told to stop.
    pub fn on_dispatch_failed(&mut self)
        ensures
            final(self)@ == old(self)@.step(CoordinatorEvent::DispatchFailed),
    {
        self.shut_down = true;
    }
}

/// A fresh crawler is well formed: its root has a domain and nothing is
/// recorded yet.
pub proof fn law_new_crawler_wf(root: LinkView)
    requires
        root.domain is Some,
    ensures
        initial_crawler(root).wf(),
        initial_crawler(root).visited.len() == 0,
{
}

/// A crawl starts from its root: on a fresh crawler with a positive crawl
/// depth, the root found at depth 0 is recorded and fetched.
pub proof fn law_root_is_fetched_first(root: LinkView)
    requires
        root.domain is Some,
    ensures
        initial_crawler(root).discovery(0, root) == Discovery::Fetch,
        initial_crawler(root).after_discovery(0, root).visited == seq![root.without_fragment()],
{
    assert(visited_keys(initial_crawler(root).visited) =~= Seq::<Seq<char>>::empty());
}

/// Every link that reaches the coordinator keeps the crawler well formed:
/// the recorded pages stay without fragment, in the crawled domain, and
/// recorded once each.
pub proof fn law_discovery_keeps_wf(c: CrawlerView, depth: int, url: LinkView)
    requires
        c.wf(),
    ensures
        c.after_discovery(depth, url).wf(),
{
    let d = c.discovery(depth, url);
    if d == Discovery::Recorded || d == Discovery::Fetch {
        let n = c.after_discovery(depth, url);
        let key = url.page_key();
        assert(n.visited == c.visited.push(url.without_fragment()));
        assert forall|i: int, j: int|
            0 <= i < j < n.visited.len() implies (#[trigger] n.visited[i]).serialization != (
            #[trigger] n.visited[j]).serialization by {
            if j == c.visited.len() {
                assert(visited_keys(c.visited)[i] == c.visited[i].serialization);
                if c.visited[i].serialization == key {
                    assert(visited_keys(c.visited).contains(key));
                }
            } else {
                assert(n.visited[i] == c.visited[i]);
                assert(n.visited[j] == c.visited[j]);
            }
        }
    }
}

/// The record of visited pages only grows: each link adds at most one page,
/// at the end, and adds one exactly when it is recorded (whether or not it is
/// then fetched).
pub proof fn law_visited_only_grows(c: CrawlerView, depth: int, url: LinkView)
    ensures
        c.visited.is_prefix_of(c.after_discovery(depth, url).visited),
        c.after_discovery(depth, url).visited.len() == c.visited.len() + if c.discovery(depth, url)
            == Discovery::Recorded || c.discovery(depth, url) == Discovery::Fetch {
            1int
        } else {
            0int
        },
        c.after_discovery(depth, url).root == c.root,
        c.after_discovery(depth, url).crawl_depth == c.crawl_depth,
{
}

/// A page is fetched at most once: after a link of the crawled domain has
/// reached the coordinator, a later link to the same page (with or without a
/// fragment) is reported as visited and changes nothing.
pub proof fn law_page_fetched_once(
    c: CrawlerView,
    depth1: int,
    first: LinkView,
    depth2: int,
    second: LinkView,
)
    requires
        c.in_domain(first),
        second.page_key() == first.page_key(),
    ensures
        c.after_discovery(depth1, first).discovery(depth2, second) == Discovery::OtherDomain
            || c.after_discovery(depth1, first).discovery(depth2, second)
            == Discovery::AlreadyVisited,
        c.after_discovery(depth1, first).after_discovery(depth2, second) == c.after_discovery(
            depth1,
            first,
        ),
{
    let c1 = c.after_discovery(depth1, first);
    let key = first.page_key();
    if visited_keys(c.visited).contains(key) {
        assert(c1 == c);
    } else {
        assert(c1.visited == c.visited.push(first.without_fragment()));
        assert(visited_keys(c1.visited)[c.visited.len() as int] == key);
        assert(visited_keys(c1.visited).contains(key));
    }
}

/// A page and the same page with a fragment (`page.html` and
/// `page.html#abc`) are one page.
pub proof fn law_fragment_names_same_page(page: LinkView, fragment: Seq<char>, with_fragment: LinkView)
    requires
        !page.serialization.contains('#'),
        with_fragment.serialization == page.serialization + seq!['#'] + fragment,
    ensures
        with_fragment.page_key() == page.page_key(),
        crate::link::fragment_of(with_fragment.serialization) == Some(fragment),
        crate::link::fragment_of(page.serialization) is None,
{
    let p = page.serialization;
    let w = with_fragment.serialization;
    p.index_of_first_ensures('#');
    w.index_of_first_ensures('#');
    let n = p.len() as int;
    assert(w[n] == '#');
    assert(w.contains('#'));
    let i = w.index_of_first('#')->0;
    if i < n {
        assert(w[i] == p[i]);
        assert(p.contains('#'));
    }
    assert(i == n);
    assert(w.take(n) =~= p);
    assert(w.skip(n + 1) =~= fragment);
}

/// Links to `page.html` and to `page.html#abc` reaching the coordinator, in
/// either order, record at most one page between them.
pub proof fn law_fragment_variants_one_entry(
    c: CrawlerView,
    depth1: int,
    page: LinkView,
    depth2: int,
    fragment: Seq<char>,
    with_fragment: LinkView,
)
    requires
        !page.serialization.contains('#'),
        with_fragment.serialization == page.serialization + seq!['#'] + fragment,
    ensures
        c.after_discovery(depth1, page).after_discovery(depth2, with_fragment).visited.len()
            <= c.visited.len() + 1,
        c.after_discovery(depth1, with_fragment).after_discovery(depth2, page).visited.len()
            <= c.visited.len() + 1,
{
    law_fragment_names_same_page(page, fragment, with_fragment);
    law_visited_only_grows(c, depth1, page);
    law_visited_only_grows(c, depth1, with_fragment);
    let c1 = c.after_discovery(depth1, page);
    let c2 = c.after_discovery(depth1, with_fragment);
    law_visited_only_grows(c1, depth2, with_fragment);
    law_visited_only_grows(c2, depth2, page);
    if c.in_domain(page) {
        law_page_fetched_once(c, depth1, page, depth2, with_fragment);
    }
    if c.in_domain(with_fragment) {
        law_page_fetched_once(c, depth1, with_fragment, depth2, page);
    }
}

/// A link is dropped as belonging to another domain exactly when its domain
/// is not the root's domain (whatever its scheme, path or query), and
/// dropping it changes nothing.
pub proof fn law_other_domain_exactly_when_domains_differ(c: CrawlerView, depth: int, url: LinkView)
    ensures
        (c.discovery(depth, url) == Discovery::OtherDomain) <==> !(url.domain is Some && url.domain
            == c.root.domain),
        !(url.domain is Some && url.domain == c.root.domain) ==> c.after_discovery(depth, url) == c,
{
}

/// A link with the root's domain whose page (its URL without fragment) is not
/// recorded yet is recorded at the end of the record, and is fetched exactly
/// when its depth is below the crawl depth, whatever its scheme, path or
/// query.
pub proof fn law_new_page_of_domain_is_recorded(c: CrawlerView, depth: int, url: LinkView)
    requires
        url.domain is Some,
        url.domain == c.root.domain,
        forall|i: int| 0 <= i < c.visited.len() ==> c.visited[i].serialization != url.page_key(),
    ensures
        c.discovery(depth, url) == (if depth < c.crawl_depth {
            Discovery::Fetch
        } else {
            Discovery::Recorded
        }),
        c.after_discovery(depth, url).visited == c.visited.push(url.without_fragment()),
        url.without_fragment().serialization == crate::link::page_key_of(url.serialization),
        url.without_fragment().fragment is None,
        url.without_fragment().domain == url.domain,
        c.after_discovery(depth, url).root == c.root,
        c.after_discovery(depth, url).crawl_depth == c.crawl_depth,
{
    if visited_keys(c.visited).contains(url.page_key()) {
        let i = choose|i: int|
            0 <= i < visited_keys(c.visited).len() && visited_keys(c.visited)[i] == url.page_key();
        assert(c.visited[i].serialization == url.page_key());
    }
}

/// A link with the root's domain whose page is already recorded is neither
/// recorded again nor fetched, and changes nothing.
pub proof fn law_recorded_page_is_not_fetched_again(c: CrawlerView, depth: int, url: LinkView, i: int)
    requires
        url.domain is Some,
        url.domain == c.root.domain,
        0 <= i < c.visited.len(),
        c.visited[i].serialization == url.page_key(),
    ensures
        c.discovery(depth, url) == Discovery::AlreadyVisited,
        c.after_discovery(depth, url) == c,
{
    assert(visited_keys(c.visited)[i] == url.page_key());
}

/// A page is fetched only when its link lies in the crawled domain, its page
/// was not recorded before, and it was found above the crawl depth.
pub proof fn law_fetch_conditions(c: CrawlerView, depth: int, url: LinkView)
    ensures
        c.discovery(depth, url) == Discovery::Fetch <==> (c.in_domain(url) && !visited_keys(
            c.visited,
        ).contains(url.page_key()) && depth < c.crawl_depth),
{
}

/// Running events keeps the root, the domain, the number of fetchers and
/// the crawl depth; a stopped crawl stays stopped.
pub proof fn law_run_keeps_settings(c: CrawlerView, events: Seq<CoordinatorEvent>)
    ensures
        run(c, events).root == c.root,
        run(c, events).domain == c.domain,
        run(c, events).num_fetchers == c.num_fetchers,
        run(c, events).crawl_depth == c.crawl_depth,
        c.shut_down ==> run(c, events).shut_down,
    decreases events.len(),
{
    if events.len() > 0 {
        law_run_keeps_settings(c, events.drop_last());
    }
}

/// A crawl stops only for a reason: a running crawl is told to stop only
/// when the coordinator found no link waiting, no job waiting for a worker,
/// and all workers idle, or when a page could not be handed to the workers.
pub proof fn law_shut_down_only_when_out_of_work(c: CrawlerView, events: Seq<CoordinatorEvent>)
    requires
        !c.shut_down,
        run(c, events).shut_down,
    ensures
        exists|i: int|
            0 <= i < events.len() && (#[trigger] events[i] is DispatchFailed || (events[i] matches CoordinatorEvent::Idle {
                jobs_waiting,
                links_waiting,
                idle_workers,
            } && jobs_waiting == 0 && links_waiting == 0 && idle_workers == c.num_fetchers)),
    decreases events.len(),
{
    let prev = events.drop_last();
    law_run_keeps_settings(c, prev);
    let last = events.len() - 1;
    assert(events[last] == events.last());
    if run(c, prev).shut_down {
        law_shut_down_only_when_out_of_work(c, prev);
        let i = choose|i: int|
            0 <= i < prev.len() && (#[trigger] prev[i] is DispatchFailed || (prev[i] matches CoordinatorEvent::Idle {
                jobs_waiting,
                links_waiting,
                idle_workers,
            } && jobs_waiting == 0 && links_waiting == 0 && idle_workers == c.num_fetchers));
        assert(events[i] == prev[i]);
    } else {
        match events.last() {
            CoordinatorEvent::Link { depth, url } => {
                assert(run(c, events) == run(c, prev).after_discovery(depth as int, url));
            },
            _ => {},
        }
    }
}

/// Replaying deliveries keeps the root, the domain and the crawl depth.
pub proof fn law_replay_keeps_settings(c: CrawlerView, ds: Seq<Delivery>)
    ensures
        replay(c, ds).root == c.root,
        replay(c, ds).domain == c.domain,
        replay(c, ds).crawl_depth == c.crawl_depth,
        c.visited.is_prefix_of(replay(c, ds).visited),
    decreases ds.len(),
{
    if ds.len() > 0 {
        law_replay_keeps_settings(c, ds.drop_last());
        law_visited_only_grows(replay(c, ds.drop_last()), ds.last().depth as int, ds.last().link);
    }
}

/// Every page that deliveries record is the page of a delivered link.
pub proof fn law_recorded_pages_are_delivered(c: CrawlerView, ds: Seq<Delivery>)
    ensures
        forall|k: int|
            c.visited.len() <= k < replay(c, ds).visited.len() ==> exists|i: int|
                0 <= i < ds.len() && #[trigger] replay(c, ds).visited[k] == ds[i].link.without_fragment(),
    decreases ds.len(),
{
    if ds.len() > 0 {
        let prev = ds.drop_last();
        law_recorded_pages_are_delivered(c, prev);
        law_replay_keeps_settings(c, prev);
        let before = replay(c, prev);
        let last = ds.len() - 1;
        assert(ds[last] == ds.last());
        law_visited_only_grows(before, ds.last().depth as int, ds.last().link);
        assert forall|k: int|
            c.visited.len() <= k < replay(c, ds).visited.len() implies exists|i: int|
                0 <= i < ds.len() && #[trigger] replay(c, ds).visited[k] == ds[i].link.without_fragment() by {
            if k < before.visited.len() {
                assert(replay(c, ds).visited[k] == before.visited[k]);
                let i = choose|i: int|
                    0 <= i < prev.len() && #[trigger] before.visited[k] == prev[i].link.without_fragment();
                assert(ds[i] == prev[i]);
            } else {
                assert(replay(c, ds).visited == before.visited.push(ds.last().link.without_fragment()));
                assert(replay(c, ds).visited[k] == ds[last].link.without_fragment());
            }
        }
    }
}

/// In a crawl, every delivery lies as many hops from the root as its depth,
/// its hops lead back to the root's delivery, and no link is delivered
/// deeper than the crawl depth: a link is followed only from a page that the
/// coordinator fetched, and it fetches only above the crawl depth.
pub proof fn law_deliveries_within_crawl_depth(c: CrawlerView, ds: Seq<Delivery>)
    requires
        valid_crawl(c, ds),
    ensures
        forall|i: int|
            0 <= i < ds.len() ==> #[trigger] ds[i].depth == hops(ds, i) && ds[i].depth <= c.crawl_depth
                && origin(ds, i) == 0,
{
    assert forall|i: int| 0 <= i < ds.len() implies #[trigger] ds[i].depth == hops(ds, i)
        && ds[i].depth <= c.crawl_depth && origin(ds, i) == 0 by {
        lemma_delivery_depth(c, ds, i);
    }
}

proof fn lemma_delivery_depth(c: CrawlerView, ds: Seq<Delivery>, i: int)
    requires
        valid_crawl(c, ds),
        0 <= i < ds.len(),
    ensures
        ds[i].depth == hops(ds, i),
        ds[i].depth <= c.crawl_depth,
        origin(ds, i) == 0,
    decreases i,
{
    if i > 0 {
        let p = ds[i].parent->0 as int;
        lemma_delivery_depth(c, ds, p);
        let before = replay(c, ds.take(p));
        law_replay_keeps_settings(c, ds.take(p));
        law_fetch_conditions(before, ds[p].depth as int, ds[p].link);
    }
}

/// The law over whole crawls: every page that a crawl records (beyond those
/// recorded before) is the page of a link delivered within the crawl depth,
/// as many hops from the root as its depth, through pages that were fetched.
pub proof fn law_recorded_within_crawl_depth(c: CrawlerView, ds: Seq<Delivery>)
    requires
        valid_crawl(c, ds),
    ensures
        forall|k: int|
            c.visited.len() <= k < replay(c, ds).visited.len() ==> exists|i: int|
                0 <= i < ds.len() && #[trigger] replay(c, ds).visited[k] == ds[i].link.without_fragment()
                    && ds[i].depth == hops(ds, i) && ds[i].depth <= c.crawl_depth && origin(ds, i) == 0,
{
    law_recorded_pages_are_delivered(c, ds);
    law_deliveries_within_crawl_depth(c, ds);
    assert forall|k: int| c.visited.len() <= k < replay(c, ds).visited.len() implies exists|i: int|
        0 <= i < ds.len() && #[trigger] replay(c, ds).visited[k] == ds[i].link.without_fragment()
            && ds[i].depth == hops(ds, i) && ds[i].depth <= c.crawl_depth && origin(ds, i) == 0 by {
        let i = choose|i: int|
            0 <= i < ds.len() && #[trigger] replay(c, ds).visited[k] == ds[i].link.without_fragment();
        assert(ds[i].depth == hops(ds, i));
    }
}

} // verus!
