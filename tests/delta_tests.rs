use delta_s3::{semantic_delta_title, semantic_delta_v3, SCALE, VERSION};

fn as_unit(d: u64) -> f64 {
    d as f64 / SCALE as f64
}

#[test]
fn test_exact_match() {
    let delta = as_unit(semantic_delta_v3("zelda", "zelda"));
    assert!(delta < 0.1);
}

#[test]
fn test_roman_numeral() {
    let delta = as_unit(semantic_delta_v3("doom 2", "DOOM II"));
    assert!(delta < 0.3);
}

#[test]
fn test_dlc_debias() {
    let delta1 = as_unit(semantic_delta_v3("portal", "Portal 2"));
    let delta2 = as_unit(semantic_delta_v3("portal", "Portal 2 GOTY Edition"));
    assert!(delta2 > delta1);
}

#[test]
fn test_version() {
    assert!(!VERSION.is_empty());
}

#[test]
fn identical_titles_sit_at_the_capped_overlap_distance() {
    // overlap capped at 0.8, edit and anchor scores perfect: 0.4 * 0.2 = 0.08
    assert_eq!(semantic_delta_title("zelda", "zelda"), 80_000_000);
    assert_eq!(semantic_delta_title("Counter-Strike", "Counter-Strike"), 80_000_000);
    assert_eq!(semantic_delta_title("Mix Master", "mix master"), 80_000_000);
}

#[test]
fn near_identity_holds_for_several_texts() {
    for s in ["a", "Half-Life 2", "The Witcher 3: Wild Hunt", "Éclair déjà vu", "x1 y2 z3"] {
        assert!(semantic_delta_title(s, s) < SCALE / 10, "{}", s);
    }
}

#[test]
fn numerals_match_exactly_after_mapping() {
    assert_eq!(semantic_delta_title("doom 2", "DOOM II"), 80_000_000);
    assert_eq!(semantic_delta_title("DOOM II", "doom 2"), 80_000_000);
}

#[test]
fn edition_candidates_get_exact_penalised_distances() {
    assert_eq!(semantic_delta_title("portal", "Portal 2"), 300_000_000);
    assert_eq!(semantic_delta_title("portal", "Portal 2 GOTY Edition"), 402_500_000);
}

#[test]
fn distance_is_not_symmetric() {
    let forward = semantic_delta_title("portal", "Portal 2 GOTY Edition");
    let backward = semantic_delta_title("Portal 2 GOTY Edition", "portal");
    assert_eq!(backward, 469_047_619);
    assert_ne!(forward, backward);
}

#[test]
fn appending_a_keyword_can_lower_the_distance() {
    assert_eq!(semantic_delta_title("ultimat", "x"), 800_000_000);
    assert_eq!(semantic_delta_title("ultimat", "x ultimate"), 459_375_000);
}

#[test]
fn empty_inputs_are_at_full_distance() {
    assert_eq!(semantic_delta_title("", "abc"), SCALE);
    assert_eq!(semantic_delta_title("abc", ""), SCALE);
    assert_eq!(semantic_delta_title("", ""), SCALE);
    assert_eq!(semantic_delta_title("abc", "!!!"), SCALE);
    assert_eq!(semantic_delta_title("-- ::", "Portal"), SCALE);
}

#[test]
fn distances_stay_in_range() {
    let texts = ["", "a", "Doom II", "mix", "Portal 2 GOTY Edition", "!!", "Ω 12 ix", "x ultimate"];
    for q in texts {
        for c in texts {
            assert!(semantic_delta_title(q, c) <= SCALE);
        }
    }
}

#[test]
fn repeated_calls_give_identical_results() {
    let a = semantic_delta_v3("counter strike", "Counter-Strike: Source");
    for _ in 0..5 {
        assert_eq!(semantic_delta_v3("counter strike", "Counter-Strike: Source"), a);
    }
}

#[test]
fn title_and_auto_mode_agree() {
    assert_eq!(
        semantic_delta_title("vampire survivor", "Vampire Survivors"),
        semantic_delta_v3("vampire survivor", "Vampire Survivors")
    );
}
