use zskins::fuzzy::{match_indices, rank_scores};

fn hs(items: &[&str]) -> Vec<String> {
    items.iter().map(|s| s.to_string()).collect()
}

#[test]
fn empty_needle_returns_all_in_original_order() {
    let h = hs(&["alpha", "beta", "gamma"]);
    let got = match_indices("", &h);
    assert_eq!(got, vec![(0, 0), (1, 0), (2, 0)]);
}

#[test]
fn subsequence_matches() {
    let h = hs(&["Firefox", "Chromium", "Notes"]);
    let got = match_indices("ffx", &h);
    assert!(got.iter().any(|(i, _)| *i == 0), "Firefox should match");
}

#[test]
fn lowercase_needle_is_case_insensitive() {
    let h = hs(&["Firefox"]);
    assert!(!match_indices("fire", &h).is_empty());
}

#[test]
fn uppercase_in_needle_forces_case_sensitivity() {
    let h = hs(&["firefox"]);
    assert!(match_indices("FIRE", &h).is_empty());
}

#[test]
fn no_match_returns_empty() {
    let h = hs(&["alpha", "beta"]);
    assert!(match_indices("zzzz", &h).is_empty());
}

#[test]
fn results_are_score_descending() {
    let h = hs(&["one", "one two three", "two", "three"]);
    let got = match_indices("one", &h);
    let scores: Vec<i32> = got.iter().map(|(_, s)| *s).collect();
    assert!(
        scores.windows(2).all(|w| w[0] >= w[1]),
        "results must be score-descending, got {scores:?}",
    );
}

#[test]
fn rank_scores_orders_by_score_then_index() {
    let got = rank_scores(&vec![Some(10), None, Some(30), Some(10), Some(30)]);
    assert_eq!(got, vec![(2, 30), (4, 30), (0, 10), (3, 10)]);
    assert!(rank_scores(&vec![None, None]).is_empty());
}

#[test]
fn match_indices_keeps_only_matches() {
    let h = hs(&["Terminal", "Files", "Term"]);
    let got = match_indices("term", &h);
    let mut idx: Vec<usize> = got.iter().map(|(i, _)| *i).collect();
    idx.sort();
    assert_eq!(idx, vec![0, 2]);
}
