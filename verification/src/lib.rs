//! Bullfinch: the decisions of a single-domain web crawler.
//!
//! The library holds what the crawler decides: which discovered links are
//! followed, which pages are recorded as visited, which links a fetched page
//! contributes, and when a crawl has run out of work. Fetching pages, threads
//! and channels are left to the program around it.
pub mod crawler;
pub mod error;
pub mod errors;
pub mod flock;
pub mod link;
pub mod urlscraper;
pub mod worker;

pub use crawler::Crawler;
pub use errors::BfError;
