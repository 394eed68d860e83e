use sandbag::analysis::bayesian::{training_observation, TrainingLineError};
use sandbag::analysis::bayesian::{
    evidence_from_input, CountTable, EvidenceVector, LabeledObservation, NaiveBayesModel,
};

#[test]
fn evidence_counts_words_trigrams_and_positions() {
    let ev = evidence_from_input("MD033: No inline-HTML md033 at 1:10");
    let tokens: Vec<(String, u64)> = ev.token_counts.entries().clone();
    assert_eq!(
        tokens,
        vec![
            ("md033".to_string(), 2),
            ("no".to_string(), 1),
            ("inline".to_string(), 1),
            ("html".to_string(), 1),
            ("at".to_string(), 1),
            ("1".to_string(), 1),
            ("10".to_string(), 1),
        ]
    );
    assert!(ev.has_line_col);
    assert!(ev.file_extension.is_none());
    assert_eq!(ev.ngram_counts.get("MD0"), 1);
    assert_eq!(ev.ngram_counts.get("033"), 2);
    assert_eq!(ev.ngram_counts.get("d03"), 1);
    assert_eq!(ev.ngram_counts.get("zzz"), 0);
}

#[test]
fn evidence_of_short_or_plain_input() {
    let ev = evidence_from_input("ab");
    assert_eq!(ev.ngram_counts.len(), 0);
    assert_eq!(ev.token_counts.get("ab"), 1);
    assert!(!ev.has_line_col);

    let ev = evidence_from_input("");
    assert_eq!(ev.token_counts.len(), 0);
    assert_eq!(ev.ngram_counts.len(), 0);

    let ev = evidence_from_input("aaaa:");
    assert_eq!(ev.ngram_counts.get("aaa"), 2);
    assert_eq!(ev.ngram_counts.get("aa:"), 1);
    assert!(!ev.has_line_col);
}

#[test]
fn evidence_trigrams_read_bytes() {
    // "é" is two bytes, each read as the character of the same number.
    let ev = evidence_from_input("é!");
    let expected: String = [0xC3u8 as char, 0xA9u8 as char, '!'].iter().collect();
    assert_eq!(ev.ngram_counts.get(&expected), 1);
    assert_eq!(ev.ngram_counts.len(), 1);
}

#[test]
fn count_table_adds_in_first_seen_order() {
    let mut t = CountTable::new();
    t.add("b", 2);
    t.add("a", 1);
    t.add("b", 3);
    assert_eq!(t.get("b"), 5);
    assert_eq!(t.get("a"), 1);
    assert_eq!(t.get("c"), 0);
    assert_eq!(
        t.entries().clone(),
        vec![("b".to_string(), 5), ("a".to_string(), 1)]
    );
    let c = t.copy();
    assert_eq!(c.entries().clone(), t.entries().clone());
}

#[test]
fn model_counts_observations() {
    let mut model = NaiveBayesModel::new();
    let mut evidence = evidence_from_input("x 1:2:");
    evidence.file_extension = Some("md".to_string());
    let obs = LabeledObservation { rule_id: "MD033".to_string(), evidence };
    assert!(model.can_observe(&obs));
    model.add_observation(&obs);
    assert!(model.can_observe(&obs));
    model.add_observation(&obs);

    assert_eq!(model.total_rules(), 2);
    assert_eq!(model.rule_counts().get("MD033"), 2);
    let tables = model.feature_counts();
    assert_eq!(tables.len(), 1);
    assert_eq!(tables[0].0, "MD033");
    let feats = &tables[0].1;
    assert_eq!(feats.get("ext:md"), 2);
    assert_eq!(feats.get("has_line_col"), 2);
    assert_eq!(feats.get("tok:x"), 2);
    assert_eq!(feats.get("tok:1"), 2);
    assert_eq!(feats.get("ng: 1:"), 2);
    assert_eq!(feats.entries()[0].0, "ext:md");
    assert_eq!(feats.entries()[1].0, "has_line_col");
}

#[test]
fn model_observation_without_features_still_gets_a_table() {
    let mut model = NaiveBayesModel::new();
    let evidence = EvidenceVector {
        ngram_counts: CountTable::new(),
        token_counts: CountTable::new(),
        file_extension: None,
        has_line_col: false,
    };
    let obs = LabeledObservation { rule_id: "no-console".to_string(), evidence };
    model.add_observation(&obs);
    assert_eq!(model.feature_counts().len(), 1);
    assert_eq!(model.feature_counts()[0].1.len(), 0);
    assert_eq!(model.rule_counts().get("no-console"), 1);
}

#[test]
fn model_refuses_overflowing_counts() {
    let mut rules = CountTable::new();
    rules.add("MD033", u64::MAX);
    let model = NaiveBayesModel::from_parts(rules, Vec::new(), 5).unwrap();
    let obs = LabeledObservation {
        rule_id: "MD033".to_string(),
        evidence: evidence_from_input("x"),
    };
    assert!(!model.can_observe(&obs));

    let mut feats = CountTable::new();
    feats.add("tok:x", u64::MAX);
    let model =
        NaiveBayesModel::from_parts(CountTable::new(), vec![("MD033".to_string(), feats)], 0).unwrap();
    assert!(!model.can_observe(&obs));
    let other = LabeledObservation {
        rule_id: "MD034".to_string(),
        evidence: evidence_from_input("x"),
    };
    assert!(model.can_observe(&other));
}

#[test]
fn model_parts_must_name_each_rule_once() {
    let parts = vec![
        ("MD033".to_string(), CountTable::new()),
        ("MD033".to_string(), CountTable::new()),
    ];
    assert!(NaiveBayesModel::from_parts(CountTable::new(), parts, 0).is_none());
}

#[test]
fn training_lines_give_observations() {
    let o = training_observation("{\"rule_id\": \"MD033\", \"text\": \"MD033: Inline HTML\"}").unwrap();
    assert_eq!(o.rule_id, "MD033");
    assert!(matches!(training_observation("{oops"), Err(TrainingLineError::InvalidJson(_))));
    assert_eq!(training_observation("{\"rule_id\": 5, \"text\": \"x\"}").err(), Some(TrainingLineError::MissingRuleId));
    assert_eq!(training_observation("{\"rule_id\": \"MD033\"}").err(), Some(TrainingLineError::MissingText));
    assert_eq!(training_observation("[1, 2]").err(), Some(TrainingLineError::MissingRuleId));
}
