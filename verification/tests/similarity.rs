use sandbag::analysis::similarity::{
    aligned_matches, levenshtein_distance, CosineSimilarity, ExactMatchSimilarity, JaccardSimilarity,
    LevenshteinSimilarity,
};

fn levenshtein_score(a: &str, b: &str) -> f64 {
    let (distance, max_len) = LevenshteinSimilarity.components(a, b);
    if max_len == 0 {
        1.0
    } else {
        1.0 - (distance as f64 / max_len as f64)
    }
}

fn jaccard_score(a: &str, b: &str) -> f64 {
    let (intersection, union) = JaccardSimilarity.components(a, b);
    if union == 0 {
        1.0
    } else {
        intersection as f64 / union as f64
    }
}

#[test]
fn similarity_test_levenshtein_similarity() {
    assert!((levenshtein_score("hello", "hello") - 1.0).abs() < f64::EPSILON);
    assert!((levenshtein_score("hello", "helo") - 0.8).abs() < 1e-9);
    assert!((levenshtein_score("", "hello") - 0.0).abs() < f64::EPSILON);
}

#[test]
fn similarity_test_jaccard_similarity() {
    assert!((jaccard_score("hello", "hello") - 1.0).abs() < f64::EPSILON);
    assert!(jaccard_score("hello", "world") < 1.0);
}

#[test]
fn levenshtein_components_are_exact() {
    assert_eq!(LevenshteinSimilarity.components("hello", "helo"), (1, 5));
    assert_eq!(LevenshteinSimilarity.components("", ""), (0, 0));
    assert_eq!(LevenshteinSimilarity.components("MD033", "MD034"), (1, 5));
    assert_eq!(LevenshteinSimilarity.components("kitten", "sitting"), (3, 7));
    // lengths are counted in bytes, the distance in characters
    assert_eq!(LevenshteinSimilarity.components("é", "e"), (1, 2));
    assert_eq!(levenshtein_distance("flaw", "lawn"), 2);
    assert_eq!(LevenshteinSimilarity.weight(), 40);
}

#[test]
fn jaccard_components_count_distinct_characters() {
    // {h,e,l,o} and {w,o,r,l,d}: common {l,o}; union {h,e,l,o,w,r,d}
    assert_eq!(JaccardSimilarity.components("hello", "world"), (2, 7));
    assert_eq!(JaccardSimilarity.components("MD033", "MD034"), (4, 5));
    assert_eq!(JaccardSimilarity.components("", ""), (0, 0));
    assert_eq!(JaccardSimilarity.components("aaa", ""), (0, 1));
    assert_eq!(JaccardSimilarity.weight(), 30);
}

#[test]
fn cosine_components_count_distinct_words() {
    assert_eq!(
        CosineSimilarity.components("MD033 inline HTML", "MD034 inline HTML"),
        (2, 3, 3)
    );
    assert_eq!(
        CosineSimilarity.components("a a b", "  b\tc  c "),
        (1, 2, 2)
    );
    assert_eq!(CosineSimilarity.components("", "word"), (0, 0, 1));
    assert_eq!(CosineSimilarity.weight(), 20);
}

#[test]
fn exact_components_compare_texts() {
    assert!(ExactMatchSimilarity.components("MD033", "MD033"));
    assert!(!ExactMatchSimilarity.components("MD033", "MD034"));
    assert!(ExactMatchSimilarity.components("", ""));
    assert_eq!(ExactMatchSimilarity.weight(), 10);
}

#[test]
fn aligned_matches_compare_positions() {
    assert_eq!(aligned_matches("hello", "help"), (3, 4));
    assert_eq!(aligned_matches("MD033", "MD034"), (4, 5));
    assert_eq!(aligned_matches("", "abc"), (0, 0));
    assert_eq!(aligned_matches("abc", "abc"), (3, 3));
}
