//! The decisions of a fetching worker.
//!
//! A worker takes a job (a page and its depth) from the coordinator, asks for
//! the page's headers, fetches the page when it is HTML, and reports the
//! page's links of the crawled domain back to the coordinator, one level
//! deeper.
use vstd::prelude::*;
use crate::link::{is_same_domain, link_view, url_domain, Link};
use crate::urlscraper::{anchor_hrefs, scraped_links, UrlScraper};

verus! {

/// What a worker does with a job.
#[derive(Debug, Clone, Copy, PartialEq, Eq, Structural)]
pub enum JobDecision {
    /// The crawl is shutting down: the worker stops.
    ShutDown,
    /// The page lies at the crawl depth or below: the job is dropped.
    Skip,
    /// The worker asks for the page's headers.
    FetchHead,
}

/// What a worker does with a job at `depth`, with the crawl depth `max_depth`.
pub open spec fn job_decision(shutdown: bool, depth: int, max_depth: int) -> JobDecision {
    if shutdown {
        JobDecision::ShutDown
    } else if depth >= max_depth {
        JobDecision::Skip
    } else {
        JobDecision::FetchHead
    }
}

/// Decides what to do with a job at `depth`, given whether the crawl is
/// shutting down and the crawl depth `max_depth`.
pub fn on_job(shutdown: bool, depth: usize, max_depth: usize) -> (r: JobDecision)
    ensures
        r == job_decision(shutdown, depth as int, max_depth as int),
{
    if shutdown {
        JobDecision::ShutDown
    } else if depth >= max_depth {
        JobDecision::Skip
    } else {
        JobDecision::FetchHead
    }
}

/// A worker stops whenever the crawl is shutting down; otherwise it fetches a
/// job exactly when the job's depth is below the crawl depth, and skips it
/// otherwise.
pub proof fn law_job_decision(shutdown: bool, depth: int, max_depth: int)
    ensures
        shutdown ==> job_decision(shutdown, depth, max_depth) == JobDecision::ShutDown,
        !shutdown ==> (job_decision(shutdown, depth, max_depth) == JobDecision::FetchHead <==> depth
            < max_depth),
        !shutdown ==> (job_decision(shutdown, depth, max_depth) == JobDecision::Skip <==> depth
            >= max_depth),
{
}

/// The media type of HTML pages.
pub open spec fn html_media_type() -> Seq<char> {
    seq!['t', 'e', 'x', 't', '/', 'h', 't', 'm', 'l']
}

/// The media type of HTML pages is `text/html`: a content type is taken for
/// HTML exactly when it starts with `text/html`.
pub proof fn law_html_media_type()
    ensures
        html_media_type() == "text/html"@,
{
    reveal_strlit("text/html");
    assert(html_media_type() =~= "text/html"@);
}

/// Tells whether the content type `content_type` is that of an HTML page:
/// whether it starts with `text/html`.
pub fn is_html(content_type: &str) -> (r: bool)
    ensures
        r == html_media_type().is_prefix_of(content_type@),
{
    let expected: [char; 9] = ['t', 'e', 'x', 't', '/', 'h', 't', 'm', 'l'];
    assert(expected@ =~= html_media_type());
    let n = content_type.unicode_len();
    if n < 9 {
        return false;
    }
    for i in 0..9
        invariant
            n == content_type@.len(),
            n >= 9,
            expected@ == html_media_type(),
            forall|j: int| 0 <= j < i ==> content_type@[j] == html_media_type()[j],
    {
        if content_type.get_char(i) != expected[i] {
            return false;
        }
    }
    true
}

/// Tells whether a page whose headers gave the content type `content_type`
/// (none where the header is missing or unreadable) is to be fetched.
pub fn should_get_page(content_type: Option<&str>) -> (r: bool)
    ensures
        r == (content_type matches Some(t) && html_media_type().is_prefix_of(t@)),
{
    match content_type {
        Some(t) => is_html(t),
        None => false,
    }
}

/// The links among `links` that have the domain `domain`, in order.
pub open spec fn links_in_domain(domain: Seq<char>, links: Seq<Seq<char>>) -> Seq<Seq<char>>
    decreases links.len(),
{
    if links.len() == 0 {
        seq![]
    } else {
        let rest = links_in_domain(domain, links.drop_last());
        if url_domain(links.last()) == Some(domain) {
            rest.push(links.last())
        } else {
            rest
        }
    }
}

/// The links kept by [`links_in_domain`] all have the domain `domain`, are
/// among `links`, and are no more than `links`; every link of `links` with
/// that domain is kept.
pub proof fn law_links_in_domain(domain: Seq<char>, links: Seq<Seq<char>>)
    ensures
        links_in_domain(domain, links).len() <= links.len(),
        forall|k: int|
            0 <= k < links_in_domain(domain, links).len() ==> url_domain(
                #[trigger] links_in_domain(domain, links)[k],
            ) == Some(domain) && links.contains(links_in_domain(domain, links)[k]),
        forall|i: int|
            0 <= i < links.len() && url_domain(#[trigger] links[i]) == Some(domain)
                ==> links_in_domain(domain, links).contains(links[i]),
    decreases links.len(),
{
    if links.len() > 0 {
        let init = links.drop_last();
        law_links_in_domain(domain, init);
        let kept = links_in_domain(domain, links);
        let prev = links_in_domain(domain, init);
        assert forall|k: int| 0 <= k < kept.len() implies url_domain(#[trigger] kept[k]) == Some(
            domain,
        ) && links.contains(kept[k]) by {
            if k < prev.len() {
                assert(kept[k] == prev[k]);
                let j = choose|j: int| 0 <= j < init.len() && init[j] == prev[k];
                assert(links[j] == init[j]);
            } else {
                assert(kept[k] == links.last());
                assert(links[links.len() - 1] == links.last());
            }
        }
        assert forall|i: int|
            0 <= i < links.len() && url_domain(#[trigger] links[i]) == Some(domain) implies kept.contains(
            links[i],
        ) by {
            if i < links.len() - 1 {
                assert(init[i] == links[i]);
                assert(prev.contains(init[i]));
                let j = choose|j: int| 0 <= j < prev.len() && prev[j] == init[i];
                assert(kept[j] == prev[j]);
            } else {
                assert(kept[kept.len() - 1] == links.last());
            }
        }
    }
}

/// The links kept by [`links_in_domain`] are exactly those of `links` with
/// the domain `domain`, in order and with repetitions.
pub proof fn law_links_in_domain_is_filter(domain: Seq<char>, links: Seq<Seq<char>>)
    ensures
        links_in_domain(domain, links) == links.filter(|u: Seq<char>| url_domain(u) == Some(domain)),
    decreases links.len(),
{
    reveal_with_fuel(Seq::<_>::filter, 1);
    if links.len() > 0 {
        law_links_in_domain_is_filter(domain, links.drop_last());
    }
}

/// A worker reports, for a fetched page, exactly the page's links that have
/// the crawled domain: in order, and once for each anchor that gives one.
pub proof fn law_reported_links_are_page_links_of_domain(domain: Seq<char>, page: Seq<char>, text: Seq<char>)
    ensures
        reported_links(domain, page, text) == scraped_links(page, anchor_hrefs(text)).filter(
            |u: Seq<char>| url_domain(u) == Some(domain),
        ),
{
    law_links_in_domain_is_filter(domain, scraped_links(page, anchor_hrefs(text)));
}

/// Every link that a worker reports for a page lies in the crawled domain and
/// is a link of the page; every link of the page in the crawled domain is
/// reported.
pub proof fn law_reported_links_in_domain(domain: Seq<char>, page: Seq<char>, text: Seq<char>)
    ensures
        forall|k: int|
            0 <= k < reported_links(domain, page, text).len() ==> url_domain(
                #[trigger] reported_links(domain, page, text)[k],
            ) == Some(domain) && scraped_links(page, anchor_hrefs(text)).contains(
                reported_links(domain, page, text)[k],
            ),
        forall|i: int|
            0 <= i < scraped_links(page, anchor_hrefs(text)).len() && url_domain(
                #[trigger] scraped_links(page, anchor_hrefs(text))[i],
            ) == Some(domain) ==> reported_links(domain, page, text).contains(
                scraped_links(page, anchor_hrefs(text))[i],
            ),
{
    law_links_in_domain(domain, scraped_links(page, anchor_hrefs(text)));
}

/// The links that a worker reports for the page `page`, with the content
/// `text`, in the domain `domain`.
pub open spec fn reported_links(domain: Seq<char>, page: Seq<char>, text: Seq<char>) -> Seq<
    Seq<char>,
> {
    links_in_domain(domain, scraped_links(page, anchor_hrefs(text)))
}

/// The links that the page `url`, fetched at `depth` with the content `text`,
/// gives to the coordinator: its links of the domain `domain`, in the order
/// of its anchors, each at depth `depth + 1`.
#[verifier::spinoff_prover]
pub fn page_links(domain: &str, depth: usize, url: Link, text: &str) -> (r: Vec<(usize, Link)>)
    requires
        depth < usize::MAX,
    ensures
        r@.len() == reported_links(domain@, url@.serialization, text@).len(),
        forall|i: int| 0 <= i < r@.len() ==> (#[trigger] r@[i]).0 == depth + 1,
        forall|i: int|
            0 <= i < r@.len() ==> (#[trigger] r@[i]).1@ == link_view(
                reported_links(domain@, url@.serialization, text@)[i],
            ),
{
    let ghost page = url@.serialization;
    let ghost rep = reported_links(domain@, page, text@);
    let scraper = match UrlScraper::new(url, text) {
        Ok(s) => s,
        Err(_) => {
            return Vec::new();
        },
    };
    let ghost all = scraper.links_spec();
    assert(all == scraped_links(page, anchor_hrefs(text@)));
    assert(rep == links_in_domain(domain@, all));
    let mut out: Vec<(usize, Link)> = Vec::new();
    let mut iter = scraper.into_iter();
    let ghost mut k: int = 0;
    let ghost mut sel: Seq<Seq<char>> = Seq::empty();
    assert(all.skip(0) =~= all);
    assert(all.take(0) =~= Seq::<Seq<char>>::empty());
    loop
        invariant
            depth < usize::MAX,
            rep == links_in_domain(domain@, all),
            rep == reported_links(domain@, page, text@),
            page == url@.serialization,
            0 <= k <= all.len(),
            iter.remaining() == all.skip(k),
            sel == links_in_domain(domain@, all.take(k)),
            out@.len() == sel.len(),
            forall|j: int| 0 <= j < out@.len() ==> (#[trigger] out@[j]).0 == depth + 1,
            forall|j: int| 0 <= j < out@.len() ==> (#[trigger] out@[j]).1@ == link_view(sel[j]),
        decreases all.len() - k,
    {
        let ghost before = iter.remaining();
        match iter.next() {
            Some(l) => {
                proof {
                    assert(before[0] == all[k]);
                    assert(all.skip(k + 1) =~= before.drop_first());
                    assert(all.take(k + 1).drop_last() =~= all.take(k));
                    assert(all.take(k + 1).last() == all[k]);
                    assert(l@ == link_view(all[k]));
                }
                let ghost prev_out = out@;
                let keep = is_same_domain(domain, &l);
                if keep {
                    out.push((depth + 1, l));
                }
                proof {
                    assert(keep == (url_domain(all[k]) == Some(domain@)));
                    let next_sel = if keep {
                        sel.push(all[k])
                    } else {
                        sel
                    };
                    assert(links_in_domain(domain@, all.take(k + 1)) == next_sel);
                    assert forall|j: int| 0 <= j < out@.len() implies (#[trigger] out@[j]).0 == depth
                        + 1 && out@[j].1@ == link_view(next_sel[j]) by {
                        if j < prev_out.len() {
                            assert(out@[j] == prev_out[j]);
                        }
                    }
                    sel = next_sel;
                    k = k + 1;
                }
            },
            None => {
                proof {
                    assert(all.take(k) =~= all);
                }
                return out;
            },
        }
    }
}

} // verus!
