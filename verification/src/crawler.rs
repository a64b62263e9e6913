//! The crawler's place in the system. Fetching and parsing are done by
//! collaborators outside this library.

use vstd::prelude::*;
use crate::error::SorcererError;
use crate::index::Document;

verus! {

/// The crawler orchestrator.
pub struct Crawler {}

impl Crawler {
    /// A crawler.
    pub fn new() -> (c: Crawler) {
        Crawler {  }
    }

    /// Crawls a URL and extracts its content. No fetcher is attached to
    /// this library, so every crawl is refused.
    pub fn crawl(&self, url: &str) -> (r: Result<Document, SorcererError>)
        ensures
            r matches Err(SorcererError::CrawlerError(msg)) && msg@ == "Not implemented yet"@,
    {
        Err(SorcererError::CrawlerError("Not implemented yet".to_owned()))
    }
}

impl Default for Crawler {
    fn default() -> (c: Crawler) {
        Crawler::new()
    }
}

} // verus!
