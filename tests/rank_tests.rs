use delta_s3::{
    best_is, evaluate_query, evaluate_query_full, evaluate_sampled, position_of, rank,
    top_matches, RankedResult,
};

fn titles(ws: &[&str]) -> Vec<String> {
    ws.iter().map(|w| w.to_string()).collect()
}

#[test]
fn counter_strike_scenario() {
    let cands = titles(&["Counter-Strike", "Counter-Strike 2", "Counter-Strike: Source"]);
    let r = rank("Counter-Strike", &cands);
    assert_eq!(r.len(), 3);
    assert_eq!(r[0].index, 0);
    assert!(r[0].delta < 100_000_000);
    assert!(r[1].delta > r[0].delta);
    assert!(r[2].delta > r[0].delta);
    assert_eq!(
        r,
        vec![
            RankedResult { index: 0, delta: 80_000_000 },
            RankedResult { index: 2, delta: 198_095_238 },
            RankedResult { index: 1, delta: 226_666_666 },
        ]
    );
}

#[test]
fn ties_keep_input_order() {
    let cands = titles(&["Zelda", "b", "zelda", "ZELDA"]);
    let r = rank("zelda", &cands);
    let order: Vec<usize> = r.iter().map(|e| e.index).collect();
    assert_eq!(order, vec![0, 2, 3, 1]);
}

#[test]
fn ranking_is_the_same_for_any_pool_size() {
    let cands: Vec<String> = (0..200)
        .map(|i| format!("Title {} {}", i % 7, if i % 3 == 0 { "Edition" } else { "II" }))
        .collect();
    let one = rayon::ThreadPoolBuilder::new().num_threads(1).build().unwrap();
    let four = rayon::ThreadPoolBuilder::new().num_threads(4).build().unwrap();
    let a = one.install(|| rank("title 3", &cands));
    let b = four.install(|| rank("title 3", &cands));
    assert_eq!(a, b);
    assert_eq!(a, rank("title 3", &cands));
}

#[test]
fn rank_of_no_candidates_is_empty() {
    assert!(rank("anything", &titles(&[])).is_empty());
}

#[test]
fn top_matches_is_a_prefix_of_the_ranking() {
    let cands = titles(&["Counter-Strike", "Counter-Strike 2", "Counter-Strike: Source"]);
    let full = rank("Counter-Strike", &cands);
    assert_eq!(top_matches("Counter-Strike", &cands, 2), full[..2].to_vec());
    assert_eq!(top_matches("Counter-Strike", &cands, 10), full);
    assert!(top_matches("Counter-Strike", &cands, 0).is_empty());
}

#[test]
fn best_is_names_the_first_entry() {
    let cands = titles(&["Portal 2 GOTY Edition", "Portal 2", "Half-Life"]);
    assert!(best_is("portal 2", &cands, 1));
    assert!(!best_is("portal 2", &cands, 0));
    assert!(!best_is("portal 2", &cands, 3));
}

#[test]
fn position_finds_the_first_occurrence() {
    let cands = titles(&["a", "b", "a"]);
    assert_eq!(position_of(&cands, "a"), Some(0));
    assert_eq!(position_of(&cands, "b"), Some(1));
    assert_eq!(position_of(&cands, "c"), None);
}

#[test]
fn full_evaluation() {
    let cands = titles(&["Portal", "Portal 2", "Half-Life 2", "Doom II"]);
    assert!(evaluate_query_full("doom 2", "Doom II", &cands));
    assert!(evaluate_query_full("half life 2", "Half-Life 2", &cands));
    assert!(!evaluate_query_full("portal 2", "Portal", &cands));
    assert!(!evaluate_query_full("doom 2", "Quake", &cands));
}

#[test]
fn sampled_evaluation_with_given_distractors() {
    let cands = titles(&["Portal", "Portal 2", "Half-Life 2", "Doom II"]);
    assert!(evaluate_sampled("portal 2", &cands, 1, &vec![0, 2, 3]));
    assert!(!evaluate_sampled("portal 2", &cands, 0, &vec![1]));
    assert!(evaluate_sampled("portal 2", &cands, 0, &vec![2, 3]));
}

#[test]
fn sampled_evaluation_draws_from_the_catalog() {
    let mut cands: Vec<String> = (0..300).map(|i| format!("Filler Game {}", i)).collect();
    cands.push("Doom II".to_string());
    assert!(evaluate_query("doom 2", "Doom II", &cands));
    assert!(!evaluate_query("doom 2", "Quake", &cands));
    let small = titles(&["Portal", "Portal 2"]);
    assert!(!evaluate_query("portal 2", "Portal", &small));
    assert!(evaluate_query("portal 2", "Portal 2", &small));
}
