use delta_s3::{
    apply_dlc_debias, compute_anchor_ratio, is_dlc_like, jaccard_index, join_tokens,
    l_symmetric, levenshtein_distance, map_roman_tokens, levenshtein_sim, make_bigrams, normalize_v2,
    should_map_roman, split_alnum, Profile, SCALE,
};

fn words(ws: &[&str]) -> Vec<String> {
    ws.iter().map(|w| w.to_string()).collect()
}

#[test]
fn normalize_lowercases_and_splits() {
    assert_eq!(normalize_v2("Counter-Strike: Source"), words(&["counter", "strike", "source"]));
    assert_eq!(normalize_v2("  Half--Life  "), words(&["half", "life"]));
}

#[test]
fn normalize_composes_before_splitting() {
    // "e" followed by a combining acute accent composes into one letter
    assert_eq!(normalize_v2("Cafe\u{301} Noir"), words(&["caf\u{e9}", "noir"]));
}

#[test]
fn normalize_of_symbols_only_is_empty() {
    assert!(normalize_v2("").is_empty());
    assert!(normalize_v2("!!! -- ::").is_empty());
}

#[test]
fn roman_numerals_map_only_in_numeral_context() {
    assert_eq!(normalize_v2("Final Fantasy VII"), words(&["final", "fantasy", "7"]));
    assert_eq!(normalize_v2("Mix It Up"), words(&["mix", "it", "up"]));
    assert_eq!(normalize_v2("Rocky IV 2"), words(&["rocky", "4", "2"]));
    assert_eq!(normalize_v2("Doom XX"), words(&["doom", "20"]));
    assert_eq!(normalize_v2("Doom XXI"), words(&["doom", "xxi"]));
}

#[test]
fn numeral_context_needs_a_short_numeral_token() {
    assert!(should_map_roman(&words(&["doom", "2"])));
    assert!(should_map_roman(&words(&["doom", "ii"])));
    assert!(!should_map_roman(&words(&["doom", "12345"])));
    assert!(!should_map_roman(&words(&["mix", "master"])));
    assert!(!should_map_roman(&words(&[])));
}

#[test]
fn split_keeps_unicode_letters_and_digits() {
    assert_eq!(split_alnum("déjà-vu 42"), words(&["déjà", "vu", "42"]));
}

#[test]
fn bigrams_join_adjacent_tokens() {
    assert_eq!(make_bigrams(&words(&["a", "b", "c"])), words(&["a_b", "b_c"]));
    assert!(make_bigrams(&words(&["a"])).is_empty());
    assert!(make_bigrams(&words(&[])).is_empty());
}

#[test]
fn jaccard_counts_unigrams_and_bigrams() {
    assert_eq!(jaccard_index(&words(&["portal"]), &words(&["portal", "2"])), 333_333_333);
    assert_eq!(jaccard_index(&words(&["a", "a", "b"]), &words(&["a", "b", "b"])), 600_000_000);
    assert_eq!(jaccard_index(&words(&["x"]), &words(&["y"])), 0);
}

#[test]
fn jaccard_of_empty_sequences() {
    assert_eq!(jaccard_index(&words(&[]), &words(&[])), SCALE);
    assert_eq!(jaccard_index(&words(&["a"]), &words(&[])), 0);
    assert_eq!(jaccard_index(&words(&[]), &words(&["a"])), 0);
}

#[test]
fn levenshtein_counts_characters() {
    assert_eq!(levenshtein_distance("kitten", "sitting"), 3);
    assert_eq!(levenshtein_distance("", "abc"), 3);
    assert_eq!(levenshtein_distance("flaw", "lawn"), 2);
    assert_eq!(levenshtein_distance("Zoë", "Zoe"), 1);
}

#[test]
fn levenshtein_similarity_uses_character_lengths() {
    assert_eq!(levenshtein_sim("kitten", "sitting"), 571_428_571);
    assert_eq!(levenshtein_sim("Zoë", "Zoe"), 666_666_666);
    assert_eq!(levenshtein_sim("", ""), SCALE);
    assert_eq!(levenshtein_sim("abc", ""), 0);
}

#[test]
fn symmetric_edit_similarity() {
    assert_eq!(l_symmetric(&words(&["portal"]), &words(&["portal", "2"])), 750_000_000);
    assert_eq!(l_symmetric(&words(&["abc"]), &words(&["abd", "xyz"])), 499_999_999);
    assert_eq!(l_symmetric(&words(&[]), &words(&[])), SCALE);
    assert_eq!(l_symmetric(&words(&[]), &words(&["a"])), 0);
}

#[test]
fn anchor_ratio_over_punctuation_sets() {
    assert_eq!(compute_anchor_ratio("a+b:c", "a+c"), 500_000_000);
    assert_eq!(compute_anchor_ratio("ab", "cd"), SCALE);
    assert_eq!(compute_anchor_ratio("a.b", "c"), 0);
    assert_eq!(compute_anchor_ratio("#1", "#2"), SCALE);
}

#[test]
fn edition_keywords_are_found_by_substring() {
    assert!(is_dlc_like(&words(&["portal", "2", "goty", "edition"])));
    assert!(is_dlc_like(&words(&["hdmi"])));
    assert!(is_dlc_like(&words(&["gold"])));
    assert!(!is_dlc_like(&words(&["gol", "d"])));
    assert!(!is_dlc_like(&words(&["portal", "2"])));
}

#[test]
fn join_uses_the_separator() {
    assert_eq!(join_tokens(&words(&["a", "b", "c"]), " "), "a b c");
    assert_eq!(join_tokens(&words(&["a", "b"]), ""), "ab");
    assert_eq!(join_tokens(&words(&[]), " "), "");
}

#[test]
fn debias_penalises_only_edition_candidates() {
    let p = Profile::title();
    let plain = words(&["portal"]);
    let edition = words(&["portal", "goty"]);
    assert_eq!(apply_dlc_debias(&p, 400_000_000, &plain, &edition), 420_000_000);
    assert_eq!(apply_dlc_debias(&p, 400_000_000, &edition, &plain), 400_000_000);
    assert_eq!(apply_dlc_debias(&p, 400_000_000, &edition, &edition), 400_000_000);
    assert_eq!(apply_dlc_debias(&p, 990_000_000, &plain, &edition), SCALE);
}

#[test]
fn roman_tokens_map_on_given_tokens() {
    assert_eq!(map_roman_tokens(&words(&["doom", "ii"])), words(&["doom", "2"]));
    assert_eq!(map_roman_tokens(&words(&["rocky", "iv", "x", "12"])), words(&["rocky", "4", "10", "12"]));
    // a five-letter numeral gives no context on its own
    assert_eq!(map_roman_tokens(&words(&["xviii", "xxi"])), words(&["xviii", "xxi"]));
    assert_eq!(map_roman_tokens(&words(&["xviii", "ii"])), words(&["18", "2"]));
    assert_eq!(map_roman_tokens(&words(&["mix", "master"])), words(&["mix", "master"]));
    assert_eq!(map_roman_tokens(&words(&["mix", "2"])), words(&["mix", "2"]));
    assert!(map_roman_tokens(&words(&[])).is_empty());
}
