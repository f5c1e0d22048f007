use peek::fuzzy::{fuzzy_match, rank_matches, FuzzyMatch, MAX_QUERY_LEN};

#[test]
fn test_empty_query_returns_all() {
    let candidates = vec!["dev", "build", "test"];
    let results = fuzzy_match("", &candidates);
    assert_eq!(results.len(), 3);
}

#[test]
fn test_exact_match() {
    let candidates = vec!["dev", "build", "test"];
    let results = fuzzy_match("dev", &candidates);
    assert!(!results.is_empty());
    assert_eq!(results[0].index, 0);
}

#[test]
fn test_fuzzy_match_subsequence() {
    let candidates = vec!["dev", "development", "docker"];
    let results = fuzzy_match("dv", &candidates);
    assert!(!results.is_empty());
    assert!(results.iter().any(|m| m.index == 0));
}

#[test]
fn test_no_match() {
    let candidates = vec!["dev", "build", "test"];
    let results = fuzzy_match("xyz", &candidates);
    assert!(results.is_empty());
}

#[test]
fn empty_query_keeps_order_with_zero_scores() {
    let results = fuzzy_match("", &["b", "a"]);
    assert_eq!(results, vec![FuzzyMatch { index: 0, score: 0 }, FuzzyMatch { index: 1, score: 0 }]);
}

#[test]
fn results_are_sorted_by_score() {
    let results = fuzzy_match("dv", &["docker", "dev", "development", "dv"]);
    for w in results.windows(2) {
        assert!(w[0].score > w[1].score || (w[0].score == w[1].score && w[0].index < w[1].index));
    }
    assert!(results.iter().all(|m| m.score > 0));
    assert!(!results.iter().any(|m| m.index == 0));
}

#[test]
fn ranking_is_stable_and_by_score() {
    let ranked = rank_matches(&vec![Some(5), None, Some(9), Some(5), Some(0)]);
    assert_eq!(
        ranked,
        vec![
            FuzzyMatch { index: 2, score: 9 },
            FuzzyMatch { index: 0, score: 5 },
            FuzzyMatch { index: 3, score: 5 },
            FuzzyMatch { index: 4, score: 0 },
        ]
    );
    assert!(rank_matches(&vec![None, None]).is_empty());
}

#[test]
fn longest_query_is_scored() {
    let long = "a".repeat(MAX_QUERY_LEN);
    let candidates = vec![long.as_str(), "b"];
    let results = fuzzy_match(&long, &candidates);
    assert_eq!(results.len(), 1);
    assert_eq!(results[0].index, 0);
    assert!(results[0].score > 0);
}
