use delta_s3::{RapidfuzzRanker, SearchQuery, SearchResultType};

#[test]
fn rapidfuzz_ranker_is_named() {
    let r = RapidfuzzRanker::new();
    assert_eq!(r.name(), "rapidfuzz");
    assert_eq!(RapidfuzzRanker::default(), r);
}

#[test]
fn search_types_compare_by_variant() {
    assert_eq!(SearchResultType::Fuzzy, SearchResultType::Fuzzy);
    assert_ne!(SearchResultType::Exact, SearchResultType::CacheHit);
    let q = SearchQuery { query: "doom".to_string(), max_results: 5, use_cache: true };
    assert_eq!(q.clone().max_results, 5);
}
