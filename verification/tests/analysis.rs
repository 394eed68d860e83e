use std::collections::HashMap;

use sandbag::analysis::confidence::ConfidenceCalculator;
use sandbag::analysis::semantic::{
    ClusteringAlgorithm, ClusteringEngine, DecisionNode, DecisionTree, NodeType, RuleGraph,
};
use sandbag::analysis::ontology::{GraphAnalyzer, LinterOntology, SemanticAnalyzer};
use sandbag::analysis::similarity::levenshtein_distance;
use sandbag::analysis::{ConfigAction, ConfigEntry, ConfigScope, ExtractedContext, RuleMatch, Severity};
use sandbag::utils::validation::{InputValidator, RuleValidator};
use sandbag::utils::{ErrorHandler, ValidationResult};
use sandbag::utils::fs::FSUtils;

fn rule_match(rule_id: &str, linter: &str, confidence: u32, severity: Option<Severity>) -> RuleMatch {
    RuleMatch {
        rule_id: rule_id.to_string(),
        linter: linter.to_string(),
        confidence,
        context: ExtractedContext { file_path: None, line_number: None, column: None, message: None, severity },
        suggested_action: ConfigAction::Disable,
    }
}

fn create_test_rule_match() -> RuleMatch {
    RuleMatch {
        rule_id: "MD033".to_string(),
        linter: "markdownlint".to_string(),
        confidence: 0,
        context: ExtractedContext {
            file_path: Some("test.md".to_string()),
            line_number: Some(10),
            column: Some(5),
            message: Some("MD033/no-inline-html: Inline HTML [Element: div]".to_string()),
            severity: Some(Severity::Warning),
        },
        suggested_action: ConfigAction::Disable,
    }
}

#[test]
fn test_confidence_calculation() {
    let calculator = ConfidenceCalculator::new();
    let rule_match = create_test_rule_match();
    let confidence = calculator.calculate_confidence(&rule_match);

    assert!(confidence > 0);
    assert!(confidence <= 10000);
}

#[test]
fn confidence_of_the_sample_match_is_exact() {
    let calculator = ConfidenceCalculator::new();
    // exact 0.8 (known linter), context 1.0, frequency 0.3, format 1.0:
    // 0.4*0.8 + 0.25*1.0 + 0.2*0.3 + 0.15*1.0 = 0.78
    assert_eq!(calculator.calculate_confidence(&create_test_rule_match()), 7800);
}

#[test]
fn learning_raises_the_frequency_score() {
    let mut calculator = ConfidenceCalculator::new();
    let m = create_test_rule_match();
    calculator.update_frequency("MD033");
    // frequency score 0.3 -> 0.6 adds 0.2 * 0.3 = 0.06
    assert_eq!(calculator.calculate_confidence(&m), 8400);
    for _ in 0..5 {
        calculator.update_frequency("MD033");
    }
    // six sightings: 0.8
    assert_eq!(calculator.calculate_confidence(&m), 8800);
}

#[test]
fn format_scores_by_rule_shape() {
    let calculator = ConfidenceCalculator::new();
    let base = |id: &str| {
        let mut m = rule_match(id, "other", 0, None);
        m.context.severity = None;
        calculator.calculate_confidence(&m)
    };
    // exact 0.5, context 0.5, frequency 0.3: 0.2 + 0.125 + 0.06 = 0.385, plus 0.15 * format
    assert_eq!(base("MD001"), 3850 + 1500);
    assert_eq!(base("ESLintRule"), 3850 + 1350);
    assert_eq!(base("no-console"), 3850 + 1050);
    assert_eq!(base("no_console"), 3850 + 450);
    assert_eq!(base("MDabc"), 3850 + 450);
}

#[test]
fn test_confidence_levels() {
    let calculator = ConfidenceCalculator::new();

    assert_eq!(calculator.get_confidence_level(9000), "High");
    assert_eq!(calculator.get_confidence_level(7000), "Medium");
    assert_eq!(calculator.get_confidence_level(4000), "Low");
    assert_eq!(calculator.get_confidence_level(1000), "Very Low");
}

#[test]
fn test_auto_apply_logic() {
    let calculator = ConfidenceCalculator::new();

    assert!(calculator.is_auto_apply(9000));
    assert!(!calculator.is_auto_apply(7000));
    assert!(calculator.requires_confirmation(7000));
    assert!(!calculator.requires_confirmation(9000));
}

#[test]
fn test_validate_rule_input() {
    let result = InputValidator::validate_rule_input("MD033/no-inline-html: Inline HTML");
    assert!(result.is_ok());

    let result = InputValidator::validate_rule_input("");
    assert!(!result.is_ok());

    let long_input = "MD033".repeat(250);
    let result = InputValidator::validate_rule_input(&long_input);
    assert!(result.is_ok());
    assert!(!result.warnings.is_empty());
}

#[test]
fn test_validate_rule_id() {
    let result = InputValidator::validate_rule_id("MD033");
    assert!(result.is_ok());

    let result = InputValidator::validate_rule_id("MD@33");
    assert!(!result.is_ok());

    let result = InputValidator::validate_rule_id("");
    assert!(!result.is_ok());
}

#[test]
fn rule_id_checks_report_each_problem() {
    let result = InputValidator::validate_rule_id(&"x@".repeat(30));
    assert_eq!(
        result.errors,
        vec!["Rule ID contains invalid characters".to_string(), "Rule ID is too long".to_string()]
    );
    let result = InputValidator::validate_rule_input("   ");
    assert_eq!(result.errors, vec!["Rule input cannot be empty".to_string()]);
    let result = InputValidator::validate_rule_input("plain text");
    assert_eq!(result.warnings, vec!["Input doesn't contain common linter identifiers".to_string()]);
}

#[test]
fn test_validate_config_entry() {
    let entry = ConfigEntry {
        rule_id: "MD033".to_string(),
        action: ConfigAction::Disable,
        scope: ConfigScope::Global,
        metadata: HashMap::new(),
    };

    let result = InputValidator::validate_config_entry(&entry);
    assert!(result.is_ok());
}

#[test]
fn test_validate_rule_match() {
    let rule_match = rule_match("MD033", "markdownlint", 9000, Some(Severity::Warning));
    let result = RuleValidator::validate_rule_match(&rule_match);
    assert!(result.is_ok());
}

#[test]
fn test_is_actionable() {
    let high_confidence = rule_match("MD033", "markdownlint", 9000, Some(Severity::Warning));
    let low_confidence = rule_match("MD033", "markdownlint", 3000, Some(Severity::Warning));

    assert!(RuleValidator::is_actionable(&high_confidence));
    assert!(!RuleValidator::is_actionable(&low_confidence));
}

#[test]
fn rule_match_checks() {
    let m = rule_match("MD033", "", 12000, None);
    let result = RuleValidator::validate_rule_match(&m);
    assert_eq!(
        result.errors,
        vec!["Linter name cannot be empty".to_string(), "Confidence must be between 0.0 and 1.0".to_string()]
    );
    let m = rule_match("MD033", "ruff", 1000, None);
    let result = RuleValidator::validate_rule_match(&m);
    assert!(result.is_ok());
    assert_eq!(result.warnings, vec!["Very low confidence match".to_string()]);
    assert_eq!(RuleValidator::get_suggested_action(&rule_match("a", "b", 8500, None)), ConfigAction::Disable);
    assert_eq!(RuleValidator::get_suggested_action(&rule_match("a", "b", 6000, None)), ConfigAction::Ignore);
    assert_eq!(RuleValidator::get_suggested_action(&rule_match("a", "b", 5999, None)), ConfigAction::Modify);
}

#[test]
fn file_path_checks() {
    let result = InputValidator::validate_file_path("dir/config.txt", false, false);
    assert!(result.is_ok());
    assert_eq!(
        result.warnings,
        vec!["File does not exist".to_string(), "Unusual file extension: txt".to_string()]
    );
    let result = InputValidator::validate_file_path("some_dir", true, true);
    assert!(!result.is_ok());
    assert_eq!(result.warnings, vec!["File has no extension".to_string()]);
    let result = InputValidator::validate_linter_name("rubocop");
    assert_eq!(result.warnings, vec!["Unknown linter: rubocop".to_string()]);
}

#[test]
fn validation_messages_are_prefixed() {
    let mut v = ValidationResult::new();
    v.add_warning("w".to_string());
    v.add_error("e".to_string());
    assert!(!v.is_ok());
    assert_eq!(v.get_messages(), vec!["Error: e".to_string(), "Warning: w".to_string()]);
}

#[test]
fn error_handler_messages() {
    assert_eq!(ErrorHandler::format_error("boom"), "Error: boom");
    assert_eq!(ErrorHandler::format_error_with_context("boom", "parsing"), "Error in parsing: boom");
    assert!(ErrorHandler::is_recoverable("boom"));
    assert_eq!(ErrorHandler::suggest_recovery("boom"), Some("Try again with different input".to_string()));
}

#[test]
fn file_extensions_ignore_case() {
    assert_eq!(FSUtils::get_file_extension("a/b/Config.JSON"), Some("json".to_string()));
    assert_eq!(FSUtils::get_file_extension(".markdownlint"), None);
    assert!(FSUtils::has_extension("x.Yml", "YML"));
    assert!(!FSUtils::has_extension("x.yaml", "yml"));
}

#[test]
fn levenshtein_distances() {
    assert_eq!(levenshtein_distance("hello", "hello"), 0);
    assert_eq!(levenshtein_distance("hello", "helo"), 1);
    assert_eq!(levenshtein_distance("", "hello"), 5);
    assert_eq!(levenshtein_distance("kitten", "sitting"), 3);
}

#[test]
fn clustering_engine_uses_kmeans() {
    let engine = ClusteringEngine::new();
    assert_eq!(engine.algorithm(), ClusteringAlgorithm::KMeans);
}

#[test]
fn decision_tree_recommends_after_many_disables() {
    let tree = DecisionTree::new();
    let mut rules: Vec<ConfigEntry> = (0..6)
        .map(|i| ConfigEntry {
            rule_id: format!("MD00{i}"),
            action: ConfigAction::Disable,
            scope: ConfigScope::Global,
            metadata: HashMap::new(),
        })
        .collect();
    assert_eq!(tree.count_actions(&rules, ConfigAction::Disable), 6);
    assert!(tree.recommends_specific_actions(&rules));
    rules[0].action = ConfigAction::Ignore;
    assert!(!tree.recommends_specific_actions(&rules));
    let leaf = DecisionNode::new_leaf("default".to_string());
    assert_eq!(leaf.node_type, NodeType::Leaf);
    let decision = DecisionNode::new_decision("action == Disable".to_string());
    assert_eq!(decision.condition, Some("action == Disable".to_string()));
}

#[test]
fn rule_graph_keeps_one_node_per_rule() {
    let mut graph = RuleGraph::new();
    let e = ConfigEntry {
        rule_id: "MD033".to_string(),
        action: ConfigAction::Disable,
        scope: ConfigScope::Global,
        metadata: HashMap::new(),
    };
    graph.add_rule(&e);
    graph.add_semantic_relationship("MD033", "security");
    graph.add_semantic_relationship("MD999", "style");
    graph.add_rule(&e);
    assert_eq!(graph.node_count(), 1);
    assert!(graph.get_node("MD033").unwrap().semantic_concepts.is_empty());
    graph.add_semantic_relationship("MD033", "html");
    assert_eq!(graph.get_node("MD033").unwrap().semantic_concepts, vec!["html".to_string()]);
}

#[test]
fn test_semantic_analyzer_creation() {
    let analyzer = SemanticAnalyzer::new();
    assert!(analyzer.ontology().concept_count() > 0);
}

#[test]
fn test_rule_semantics_analysis() {
    let analyzer = SemanticAnalyzer::new();
    let rule = ConfigEntry {
        rule_id: "MD033".to_string(),
        action: ConfigAction::Disable,
        scope: ConfigScope::Global,
        metadata: HashMap::new(),
    };

    let semantics = analyzer.analyze_rule_semantics(&rule);
    assert!(!semantics.concepts.is_empty());
    assert!(semantics.semantic_score > 0);
}

#[test]
fn rule_semantics_follow_the_default_ontology() {
    let analyzer = SemanticAnalyzer::new();
    let rule = ConfigEntry {
        rule_id: "MD013".to_string(),
        action: ConfigAction::Ignore,
        scope: ConfigScope::Global,
        metadata: HashMap::new(),
    };
    let s = analyzer.analyze_rule_semantics(&rule);
    assert_eq!(s.concepts, vec!["formatting"]);
    assert_eq!(s.semantic_score, 60);
    assert_eq!(s.related_rules, vec!["MD013", "MD041"]);
    assert_eq!(s.action_semantics.severity, "medium");
    assert_eq!(s.action_semantics.risk_level, 50);

    let unknown = ConfigEntry {
        rule_id: "no-console".to_string(),
        action: ConfigAction::Enable,
        scope: ConfigScope::Global,
        metadata: HashMap::new(),
    };
    let s = analyzer.analyze_rule_semantics(&unknown);
    assert!(s.concepts.is_empty());
    assert_eq!(s.semantic_score, 0);
    assert!(s.related_rules.is_empty());
    assert_eq!(s.action_semantics.impact, "enables rule enforcement");

    let o = analyzer.ontology();
    assert_eq!(o.concept_count(), 5);
    assert_eq!(o.concepts()[3].id, "security");
    assert_eq!(o.concepts()[3].semantic_weight, 90);
    assert_eq!(o.relationships().len(), 3);
    assert_eq!(o.concepts_of_rule("MD033"), vec!["security"]);
    assert_eq!(o.related_rules(&vec!["security".to_string(), "style".to_string()]), vec!["MD033"]);
}

fn config_entry(rule_id: &str, action: ConfigAction) -> ConfigEntry {
    ConfigEntry {
        rule_id: rule_id.to_string(),
        action,
        scope: ConfigScope::Global,
        metadata: HashMap::new(),
    }
}

#[test]
fn test_clustering_engine() {
    let engine = ClusteringEngine::new();
    let rules = vec![ConfigEntry {
        rule_id: "MD033".to_string(),
        action: ConfigAction::Disable,
        scope: ConfigScope::Global,
        metadata: HashMap::new(),
    }];

    let ontology = LinterOntology::default_ontology();
    let analysis = engine.cluster_rules(&rules, &ontology);

    assert!(!analysis.clusters.is_empty());
    assert!(analysis.silhouette_score >= 0);
}

#[test]
fn graph_analysis_attaches_ontology_concepts() {
    let ontology = LinterOntology::default_ontology();
    let mut analyzer = GraphAnalyzer::new();
    let rules = vec![
        config_entry("MD033", ConfigAction::Disable),
        config_entry("no-console", ConfigAction::Ignore),
        config_entry("MD013", ConfigAction::Disable),
    ];
    let analysis = analyzer.analyze_rule_graph(&rules, &ontology);
    assert!(analysis.centrality_scores.is_empty());
    assert!(analysis.community_structure.is_empty());
    let graph = analyzer.graph();
    assert_eq!(graph.node_count(), 3);
    assert_eq!(graph.get_node("MD033").unwrap().semantic_concepts, vec!["security"]);
    assert!(graph.get_node("no-console").unwrap().semantic_concepts.is_empty());
    assert_eq!(graph.get_node("MD013").unwrap().semantic_concepts, vec!["formatting"]);
}

#[test]
fn semantic_analysis_of_a_configuration() {
    let mut analyzer = SemanticAnalyzer::new();
    let mut rules = vec![
        config_entry("MD033", ConfigAction::Disable),
        config_entry("MD041", ConfigAction::Enable),
        config_entry("MD033", ConfigAction::Ignore),
    ];
    let result = analyzer.analyze_semantics(&rules);
    let keys: Vec<&str> = result.rule_semantics.iter().map(|(k, _)| k.as_str()).collect();
    assert_eq!(keys, vec!["MD033", "MD041"]);
    // the later MD033 entry replaced the earlier one
    assert_eq!(result.rule_semantics[0].1.action_semantics.severity, "medium");
    assert_eq!(result.rule_semantics[1].1.related_rules, vec!["MD013", "MD041"]);
    assert_eq!(result.clustering_analysis.clusters[0].rules, vec!["MD033", "MD041", "MD033"]);
    assert_eq!(result.clustering_analysis.clusters[0].centroid, vec![50; 10]);
    assert_eq!(result.decision_analysis.decision_paths.len(), 2);
    assert_eq!(result.decision_analysis.decision_paths[0].1.path, vec!["root", "action"]);
    assert!(result.decision_analysis.recommendations.is_empty());

    for id in ["a", "b", "c", "d", "e", "f"] {
        rules.push(config_entry(id, ConfigAction::Disable));
    }
    let result = analyzer.analyze_semantics(&rules);
    assert_eq!(result.decision_analysis.recommendations.len(), 1);
    assert_eq!(result.decision_analysis.recommendations[0].priority, 80);
}
