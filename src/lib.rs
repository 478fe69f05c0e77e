//! Fuzzy title matching: a bounded, lexical distance between a short query
//! and a catalog title, and a deterministic ranking of candidate titles.
//!
//! Scores are fixed-point integers: `SCALE` stands for 1.0, so a score of
//! `SCALE / 10` is 0.1.

pub mod text;
pub mod tables;
pub mod normalize;
pub mod overlap;
pub mod edit;
pub mod delta;
pub mod rank;
pub mod laws;
pub mod engine;

pub use delta::{
    Profile, apply_dlc_debias, compute_anchor_ratio, delta_of_tokens, is_dlc_like, join_tokens,
    semantic_delta_title, semantic_delta_v3,
};
pub use edit::{l_symmetric, levenshtein_distance, levenshtein_sim};
pub use engine::{RapidfuzzRanker, SearchQuery, SearchResultType};
pub use normalize::{map_roman_tokens, normalize_v2, should_map_roman, split_alnum};
pub use overlap::{jaccard_index, make_bigrams};
pub use rank::{
    RankedResult, best_is, evaluate_query, evaluate_query_full, evaluate_sampled, position_of,
    rank, top_matches,
};
pub use text::SCALE;

use vstd::prelude::*;

verus! {

/// Library version.
pub const VERSION: &'static str = "0.1.0";

} // verus!
