use sandbag::analysis::extractor::{RuleExtractor, MINIMUM_CONFIDENCE_THRESHOLD};
use sandbag::analysis::ConfigAction;

const MD_OUTPUT: &str = "MD033/no-inline-html: Inline HTML [Element: summary]markdownlintMD033";

#[test]
fn test_rule_extraction_empty_input() {
    let extractor = RuleExtractor::new();
    let results = extractor.extract_rules("");
    assert!(results.is_empty());
}

#[test]
fn test_rule_extraction_invalid_input() {
    let extractor = RuleExtractor::new();
    let results = extractor.extract_rules("This is not a linter output");
    assert!(results.is_empty());
}

#[test]
fn pattern_finds_the_rule_and_keeps_the_input() {
    let extractor = RuleExtractor::new();
    assert_eq!(extractor.pattern_count(), 3);
    assert_eq!(extractor.patterns()[0].linter, "markdownlint");
    assert_eq!(extractor.patterns()[0].confidence_weight, 9000);
    let m = extractor.apply_pattern(0, MD_OUTPUT).unwrap();
    assert_eq!(m.rule_id, "MD033");
    assert_eq!(m.linter, "markdownlint");
    assert_eq!(m.confidence, 0);
    assert_eq!(m.context.message.as_deref(), Some(MD_OUTPUT));
    assert!(matches!(m.suggested_action, ConfigAction::Disable));
    assert!(extractor.apply_pattern(0, "MD033: Inline HTML detected").is_none());
    let (k, c) = extractor.line_candidate("MD033: Inline HTML detected").unwrap();
    assert_eq!(k, 1);
    assert_eq!(c.rule_id, "MD033");
    assert_eq!(extractor.line_candidate("MD013").unwrap().0, 2);
}

#[test]
fn heuristic_confidence_weighs_match_pattern_and_context() {
    let extractor = RuleExtractor::new();
    let m = extractor.apply_pattern(0, MD_OUTPUT).unwrap();
    assert_eq!(extractor.calculate_context_relevance(&m), 10000);
    // 0.6 · 1 + 0.3 · 0.9 + 0.1 · 1.0
    assert_eq!(extractor.calculate_confidence_heuristic(&m, 0), 9700);
    let other = extractor.apply_pattern(0, "MD099: x markdownlint").unwrap();
    assert_eq!(extractor.calculate_context_relevance(&other), 7000);
    assert_eq!(extractor.calculate_confidence_heuristic(&other, 0), 9400);
}

#[test]
fn matches_are_kept_by_confidence() {
    let extractor = RuleExtractor::new();
    let kept = extractor.extract_rules(MD_OUTPUT);
    assert_eq!(kept.len(), 1);
    assert_eq!(kept[0].confidence, 9700);
    let kept = extractor.extract_rules_with(MD_OUTPUT, &vec![Some(MINIMUM_CONFIDENCE_THRESHOLD)]);
    assert_eq!(kept.len(), 1);
    assert_eq!(kept[0].rule_id, "MD033");
    assert_eq!(kept[0].confidence, MINIMUM_CONFIDENCE_THRESHOLD);
    assert!(extractor.extract_rules_with(MD_OUTPUT, &vec![Some(5999)]).is_empty());
    assert_eq!(extractor.extract_rules_with(MD_OUTPUT, &vec![None]).len(), 1);
}

#[test]
fn matches_come_out_most_confident_first() {
    let extractor = RuleExtractor::new();
    let r = extractor.extract_rules("MD041\nMD033: Inline HTML");
    assert_eq!(r.len(), 2);
    assert_eq!(r[0].rule_id, "MD033");
    assert_eq!(r[0].confidence, 9400);
    assert_eq!(r[1].rule_id, "MD041");
    assert_eq!(r[1].confidence, 9100);
}

#[test]
fn test_markdownlint_rule_extraction() {
    let extractor = RuleExtractor::new();
    let input = "MD033/no-inline-html: Inline HTML [Element: summary]markdownlintMD033";
    let results = extractor.extract_rules(input);
    assert_eq!(results.len(), 1);
    assert_eq!(results[0].rule_id, "MD033");
    assert_eq!(results[0].linter, "markdownlint");
    assert!(results[0].confidence > 8000);
    assert!(matches!(results[0].suggested_action, ConfigAction::Disable));
}

#[test]
fn test_rule_extraction_with_multiple_patterns() {
    let extractor = RuleExtractor::new();
    let inputs = vec![
        "MD033/no-inline-html: Inline HTML [Element: div]",
        "markdownlint MD033: No inline HTML",
        "MD033: Inline HTML detected",
    ];
    for input in inputs {
        let results = extractor.extract_rules(input);
        assert!(!results.is_empty(), "Failed to extract rule from: {}", input);
        assert_eq!(results[0].rule_id, "MD033");
    }
}

#[test]
fn test_rule_extraction_multiple_rules() {
    let extractor = RuleExtractor::new();
    let results = extractor.extract_rules("MD033: Inline HTML\nMD041: First line should be heading");
    assert_eq!(results.len(), 2);
    let rule_ids: Vec<&str> = results.iter().map(|r| r.rule_id.as_str()).collect();
    assert!(rule_ids.contains(&"MD033"));
    assert!(rule_ids.contains(&"MD041"));
}

#[test]
fn test_rule_extraction_confidence_scoring() {
    let extractor = RuleExtractor::new();
    let high_results = extractor.extract_rules(MD_OUTPUT);
    let low_results = extractor.extract_rules("Some random text that might contain MD033");
    if !low_results.is_empty() {
        assert!(high_results[0].confidence > low_results[0].confidence);
    }
}
