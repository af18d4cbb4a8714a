# Bullfinch

A simple single-domain web crawler, with its decisions verified by Verus.

- `src/` is the verified library:
  - `link.rs`: absolute URLs (`Link`), parsed, joined and stripped of their
    fragment by the `url` crate; `is_same_domain`.
  - `urlscraper.rs`: the links of an HTML page (`UrlScraper`, `UrlIter`),
    from the `a` elements that `scraper` finds.
  - `crawler.rs`: the crawler's state (`Crawler`) and the coordinator's
    decisions: which links are dropped, recorded and fetched, and when a crawl
    has run out of work; with the laws that these decisions keep.
  - `worker.rs`: what a fetching worker does with a job, a content type and a
    fetched page.
  - `flock.rs`: the crawlers of the server, by id.
  - `errors.rs` (also as `error`): `BfError`.
- `app/` is the program: the command line (`links`), the HTTP server
  (`serve`), and the threads, channels and HTTP requests of a crawl.
- `tests/` exercise the library on concrete pages and URLs.
