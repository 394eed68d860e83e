use sandbag::config::parser::insert_rule_from_metadata;
use sandbag::config::backup::select_expired_files;
use std::collections::HashMap;

use sandbag::analysis::{ConfigAction, ConfigEntry, ConfigScope};
use sandbag::config::backup::{backup_id, BackupError, BackupIndex, BackupInfo};
use sandbag::config::conflict_resolution::{
    Conflict, ConflictReport, ConflictResolution, ConflictResolver, ConflictSeverity, ConflictType,
};
use sandbag::config::diff::{diff_ast, AstChange};
use sandbag::config::manager::{ConfigManager, ParseError};
use sandbag::config::parser::{insert_rule, new_object, new_value, put_entry, set_path_value};
use sandbag::config::{ASTNode, ConfigAST, ConfigFormat, ConfigMetadata, NodeType};

fn kv(key: &str, value: &str) -> ASTNode {
    let k = ASTNode {
        node_type: NodeType::Key,
        value: Some(key.to_string()),
        children: vec![],
        metadata: HashMap::default(),
    };
    let v = ASTNode {
        node_type: NodeType::Value,
        value: Some(value.to_string()),
        children: vec![],
        metadata: HashMap::default(),
    };
    ASTNode {
        node_type: NodeType::KeyValue,
        value: None,
        children: vec![k, v],
        metadata: HashMap::default(),
    }
}

fn entry(rule_id: &str, action: ConfigAction, scope: ConfigScope) -> ConfigEntry {
    ConfigEntry { rule_id: rule_id.to_string(), action, scope, metadata: HashMap::new() }
}

fn empty_ast() -> ConfigAST {
    ConfigAST {
        format: ConfigFormat::Json,
        root: ASTNode { node_type: NodeType::Root, value: None, children: Vec::new(), metadata: HashMap::new() },
        metadata: ConfigMetadata {
            format: ConfigFormat::Json,
            file_path: "test.json".to_string(),
            last_modified: None,
            backup_count: 0,
        },
    }
}

/// The value under `key` in an object node, as text.
fn value_of(obj: &ASTNode, key: &str) -> Option<String> {
    obj.children
        .iter()
        .rev()
        .find(|kv| kv.children.len() == 2 && kv.children[0].value.as_deref() == Some(key))
        .and_then(|kv| kv.children[1].value.clone())
}

fn child_object<'a>(obj: &'a ASTNode, key: &str) -> &'a ASTNode {
    &obj.children
        .iter()
        .rev()
        .find(|kv| kv.children.len() == 2 && kv.children[0].value.as_deref() == Some(key))
        .unwrap()
        .children[1]
}

#[test]
fn test_diff_object_insert_update_remove() {
    let old = ASTNode {
        node_type: NodeType::Object,
        value: None,
        children: vec![kv("a", "1"), kv("b", "2")],
        metadata: HashMap::default(),
    };
    let new = ASTNode {
        node_type: NodeType::Object,
        value: None,
        children: vec![kv("a", "10"), kv("c", "3")],
        metadata: HashMap::default(),
    };

    let changes = diff_ast(&old, &new);
    assert!(changes.iter().any(|c| matches!(c, AstChange::Update { key, .. } if key.is_empty())));
    assert!(changes.iter().any(|c| matches!(c, AstChange::Remove { key, .. } if key == "b")));
    assert!(changes.iter().any(|c| matches!(c, AstChange::Insert { key, .. } if key == "c")));
}

#[test]
fn diff_of_a_tree_with_itself_is_empty() {
    let tree = ASTNode {
        node_type: NodeType::Object,
        value: None,
        children: vec![kv("a", "1"), kv("b", "2")],
        metadata: HashMap::default(),
    };
    assert!(diff_ast(&tree, &tree).is_empty());
}

#[test]
fn test_conflict_resolver_creation() {
    let resolver = ConflictResolver::new();
    assert!(resolver.strategy_count() > 0);
}

#[test]
fn test_conflict_analysis() {
    let mut resolver = ConflictResolver::new();
    let ast = empty_ast();
    let conflicts = resolver.analyze_conflicts(&ast);
    assert!(conflicts.is_empty());
}

#[test]
fn test_conflict_report() {
    let mut report = ConflictReport::new();
    let conflict = Conflict {
        conflict_type: ConflictType::ConflictingActions,
        rule_ids: vec!["MD033".to_string()],
        severity: ConflictSeverity::Error,
        description: "Test conflict".to_string(),
        suggested_resolution: ConflictResolution::KeepMostSpecific,
    };

    report.add_conflict(&conflict);
    assert_eq!(report.total_conflicts, 1);
    assert_eq!(report.conflicts_with_severity(ConflictSeverity::Error), Some(1));
}

#[test]
fn report_counts_by_severity_and_outcome() {
    let mut report = ConflictReport::new();
    let mk = |s| Conflict {
        conflict_type: ConflictType::RedundantRules,
        rule_ids: vec!["MD001".to_string()],
        severity: s,
        description: String::new(),
        suggested_resolution: ConflictResolution::RemoveConflicting,
    };
    report.add_conflict(&mk(ConflictSeverity::Info));
    report.add_conflict(&mk(ConflictSeverity::Warning));
    report.add_conflict(&mk(ConflictSeverity::Info));
    report.mark_resolved();
    report.mark_unresolved();
    report.mark_unresolved();
    report.set_resolution_time(1500);
    assert_eq!(report.total_conflicts, 3);
    assert_eq!(report.conflicts_with_severity(ConflictSeverity::Info), Some(2));
    assert_eq!(report.conflicts_with_severity(ConflictSeverity::Warning), Some(1));
    assert_eq!(report.conflicts_with_severity(ConflictSeverity::Critical), None);
    assert_eq!(report.resolved_conflicts, 1);
    assert_eq!(report.unresolved_conflicts, 2);
    assert_eq!(report.resolution_time, 1500);
}

#[test]
fn analysis_finds_each_kind_of_conflict() {
    let mut resolver = ConflictResolver::new();
    let rules = vec![
        entry("MD033", ConfigAction::Disable, ConfigScope::Global),
        entry("MD033", ConfigAction::Ignore, ConfigScope::FileSpecific),
        entry("MD013", ConfigAction::Disable, ConfigScope::Inline),
        entry("MD013", ConfigAction::Disable, ConfigScope::Inline),
    ];
    let conflicts = resolver.analyze_entries(&rules);
    let kinds: Vec<ConflictType> = conflicts.iter().map(|c| c.conflict_type).collect();
    assert_eq!(
        kinds,
        vec![ConflictType::ConflictingActions, ConflictType::ScopeConflict, ConflictType::RedundantRules]
    );
    assert_eq!(conflicts[0].description, "Multiple actions for rule: MD033");
    assert_eq!(conflicts[0].severity, ConflictSeverity::Error);
    assert_eq!(conflicts[1].description, "Rule MD033 has both global and specific scopes");
    assert_eq!(conflicts[2].description, "Multiple identical rules for MD013");
    assert_eq!(conflicts[2].severity, ConflictSeverity::Info);
    assert_eq!(resolver.get_conflict_history().len(), 3);
    resolver.clear_conflict_history();
    assert!(resolver.get_conflict_history().is_empty());
}

#[test]
fn global_rules_overlap_pairwise() {
    let mut resolver = ConflictResolver::new();
    let rules = vec![
        entry("A", ConfigAction::Disable, ConfigScope::Global),
        entry("B", ConfigAction::Disable, ConfigScope::Global),
        entry("C", ConfigAction::Disable, ConfigScope::Global),
    ];
    let conflicts = resolver.analyze_entries(&rules);
    let overlaps: Vec<&Conflict> =
        conflicts.iter().filter(|c| c.conflict_type == ConflictType::OverlappingRules).collect();
    assert_eq!(overlaps.len(), 3);
    assert_eq!(overlaps[0].description, "Rules A and B overlap");
    assert_eq!(overlaps[1].rule_ids, vec!["A".to_string(), "C".to_string()]);
    assert_eq!(overlaps[2].description, "Rules B and C overlap");
}

#[test]
fn resolution_keeps_conflicts_without_automatic_strategy() {
    let mut resolver = ConflictResolver::new();
    resolver.set_resolution_strategy(ConflictType::ScopeConflict, ConflictResolution::UserDecision);
    let rules = vec![
        entry("MD033", ConfigAction::Disable, ConfigScope::Global),
        entry("MD033", ConfigAction::Ignore, ConfigScope::Directory),
    ];
    let conflicts = resolver.analyze_entries(&rules);
    let mut ast = empty_ast();
    let unresolved = resolver.resolve_conflicts(&conflicts, &mut ast);
    assert_eq!(unresolved.len(), 1);
    assert_eq!(unresolved[0].conflict_type, ConflictType::ScopeConflict);
    assert!(resolver.validate_resolution(&ast));
}

#[test]
fn put_entry_replaces_or_appends() {
    let obj = new_object();
    let obj = put_entry(obj, "MD033", new_value("false"));
    let obj = put_entry(obj, "MD013", new_value("false"));
    let obj = put_entry(obj, "MD033", new_value("true"));
    assert_eq!(obj.children.len(), 2);
    assert_eq!(value_of(&obj, "MD033"), Some("true".to_string()));
    assert_eq!(value_of(&obj, "MD013"), Some("false".to_string()));
}

#[test]
fn set_path_creates_nested_objects() {
    let root = ASTNode { node_type: NodeType::Array, value: None, children: vec![], metadata: HashMap::new() };
    let root = set_path_value(root, "rules..inner", "no-console", new_value("off"));
    assert_eq!(root.node_type, NodeType::Object);
    let rules = child_object(&root, "rules");
    let inner = child_object(rules, "inner");
    assert_eq!(value_of(inner, "no-console"), Some("off".to_string()));
}

#[test]
fn insert_rule_uses_the_action_value() {
    let mut ast = empty_ast();
    insert_rule(&mut ast, "", "MD033", None, ConfigAction::Disable);
    insert_rule(&mut ast, "rules", "no-console", None, ConfigAction::Ignore);
    assert_eq!(value_of(&ast.root, "MD033"), Some("false".to_string()));
    assert_eq!(value_of(child_object(&ast.root, "rules"), "no-console"), Some("off".to_string()));
}

#[test]
fn format_detection_by_extension() {
    let manager = ConfigManager::new();
    assert_eq!(manager.detect_format("config.json"), ConfigFormat::Json);
    assert_eq!(manager.detect_format("config.YAML"), ConfigFormat::Yaml);
    assert_eq!(manager.detect_format("config.toml"), ConfigFormat::Toml);
    assert_eq!(manager.detect_format("README"), ConfigFormat::Json);
    assert_eq!(manager.detect_format("x.cfg"), ConfigFormat::Custom("cfg".to_string()));
    assert_eq!(manager.get_parser_for_file("a.yaml"), Ok(ConfigFormat::Yaml));
    assert_eq!(manager.get_parser_for_file("a.yml"), Err(ParseError::UnsupportedFormat("yml".to_string())));
    assert_eq!(manager.default_content(&ConfigFormat::Json), "{\n  \n}\n");
}

fn info(id: &str, path: &str, ts: i64) -> BackupInfo {
    BackupInfo {
        id: id.to_string(),
        original_path: path.to_string(),
        backup_path: format!("/backups/{id}.backup"),
        timestamp: ts,
        size: 10,
    }
}

#[test]
fn backup_index_lists_newest_first_and_expires_old() {
    let mut index = BackupIndex::new();
    index.insert(info("a", "x.json", 10));
    index.insert(info("b", "y.json", 30));
    index.insert(info("c", "x.json", 20));
    assert_eq!(index.list_backups("x.json"), vec!["c".to_string(), "a".to_string()]);
    assert_eq!(index.expired(25), vec!["a".to_string(), "c".to_string()]);
    index.insert(info("a", "x.json", 40));
    assert_eq!(index.len(), 3);
    assert_eq!(index.list_backups("x.json"), vec!["a".to_string(), "c".to_string()]);
    let removed = index.remove("a").unwrap();
    assert_eq!(removed.timestamp, 40);
    assert!(index.get("a").is_none());
    assert_eq!(index.get("b").unwrap().original_path, "y.json");
}

#[test]
fn backup_ids_and_error_messages() {
    assert_eq!(backup_id(Some("config.json"), 1700000000, 255), "config.json_1700000000_ff");
    assert_eq!(backup_id(None, -5, 0), "unknown_-5_0");
    assert_eq!(BackupError::BackupNotFound("x".to_string()).message(), "Backup not found: x");
}

#[test]
fn test_config_manager_creation() {
    let manager = ConfigManager::new();
    assert!(manager.get_parser_for_file("config.json").is_ok());
    assert!(manager.get_parser_for_file("config.yaml").is_ok());
}

#[test]
fn test_format_detection() {
    let manager = ConfigManager::new();
    assert!(matches!(manager.detect_format("config.json"), ConfigFormat::Json));
    assert!(matches!(manager.detect_format("config.yaml"), ConfigFormat::Yaml));
}

#[test]
fn cleanup_selects_old_backups_of_the_file() {
    let entries = vec![
        (".eslintrc.json_1.backup".to_string(), 10),
        (".eslintrc.json_2.backup".to_string(), 100),
        (".prettierrc_1.backup".to_string(), 10),
        ("notes.txt".to_string(), 1),
    ];
    assert_eq!(select_expired_files(&entries, ".eslintrc.json", 50), vec![0]);
    assert_eq!(select_expired_files(&entries, "", 50), vec![0, 2]);
    assert!(select_expired_files(&entries, "", 5).is_empty());
}

#[test]
fn diff_ignores_metadata() {
    let mut tagged = kv("a", "1");
    tagged.metadata.insert("line".to_string(), "3".to_string());
    let a = ASTNode { node_type: NodeType::Object, value: None, children: vec![tagged], metadata: HashMap::default() };
    let mut meta = HashMap::new();
    meta.insert("source".to_string(), "file".to_string());
    let b = ASTNode { node_type: NodeType::Object, value: None, children: vec![kv("a", "1")], metadata: meta };
    assert!(diff_ast(&a, &b).is_empty());
}

#[test]
fn report_total_is_the_sum_by_severity() {
    let mut report = ConflictReport::new();
    let c = Conflict {
        conflict_type: ConflictType::ConflictingActions,
        rule_ids: vec!["MD033".to_string()],
        severity: ConflictSeverity::Error,
        description: "x".to_string(),
        suggested_resolution: ConflictResolution::KeepMostSpecific,
    };
    report.add_conflict(&c);
    report.add_conflict(&c);
    assert_eq!(report.total_conflicts, 2);
    assert_eq!(report.conflicts_with_severity(ConflictSeverity::Error), Some(2));
    assert_eq!(report.conflicts_with_severity(ConflictSeverity::Info), None);
}

#[test]
fn metadata_names_the_path_and_value() {
    let mut ast = empty_ast();
    insert_rule_from_metadata(&mut ast, "no-console", ConfigAction::Disable, Some("\"rules\""), Some("\"warn\""));
    let rules = child_object(&ast.root, "rules");
    assert_eq!(value_of(rules, "no-console").as_deref(), Some("warn"));
    let mut ast = empty_ast();
    insert_rule_from_metadata(&mut ast, "MD033", ConfigAction::Disable, Some("5"), None);
    assert_eq!(value_of(&ast.root, "MD033").as_deref(), Some("false"));
}
