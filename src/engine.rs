//! Plain types shared with the search front ends.

use vstd::prelude::*;

verus! {

/// How a search result was obtained.
#[derive(Clone, Copy, Debug, PartialEq, Eq, Structural)]
pub enum SearchResultType {
    /// Exact match.
    Exact,
    /// Fuzzy match.
    Fuzzy,
    /// Served from the result cache.
    CacheHit,
    /// Fallback result when nothing matched well.
    Fallback,
}

/// Parameters of one search.
#[derive(Clone, Debug)]
pub struct SearchQuery {
    pub query: String,
    pub max_results: usize,
    pub use_cache: bool,
}

/// The ranker that scores candidates by Jaro-Winkler similarity, used when
/// no other ranker is available.
#[derive(Clone, Copy, Debug, PartialEq, Eq, Structural)]
pub struct RapidfuzzRanker;

impl RapidfuzzRanker {
    pub fn new() -> (r: Self)
        ensures
            r == RapidfuzzRanker,
    {
        RapidfuzzRanker
    }

    /// The ranker's name, for logs.
    pub fn name(&self) -> (r: &'static str)
        ensures
            r@ == "rapidfuzz"@,
    {
        "rapidfuzz"
    }
}

impl Default for RapidfuzzRanker {
    fn default() -> (r: Self)
        ensures
            r == RapidfuzzRanker,
    {
        RapidfuzzRanker::new()
    }
}

} // verus!
