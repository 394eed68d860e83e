use sandbag::ui::enhanced::EnhancedCliRunner;
use sandbag::ui::error_recovery::ConfirmationPrompts;
use sandbag::analysis::{ConfigAction, ExtractedContext, RuleMatch, Severity};
use sandbag::linters::LinterRegistry;
use sandbag::ui::cli::{
    is_scan_candidate, looks_like_linter_output, rule_info_lines, select_suggestions, skip_directory,
};
use sandbag::ui::error_recovery::{ErrorRecoveryManager, RecoveryStrategy};
use sandbag::ui::help_system::HelpSystem;
use sandbag::ui::interactive::InteractiveManager;
use sandbag::ui::UIManager;

fn m(rule_id: &str, linter: &str, confidence: u32) -> RuleMatch {
    RuleMatch {
        rule_id: rule_id.to_string(),
        linter: linter.to_string(),
        confidence,
        context: ExtractedContext {
            file_path: None,
            line_number: None,
            column: None,
            message: None,
            severity: Some(Severity::Warning),
        },
        suggested_action: ConfigAction::Disable,
    }
}

#[test]
fn test_error_recovery_manager_creation() {
    let manager = ErrorRecoveryManager::new();
    assert_eq!(manager.get_max_retries(), 3);
    assert!(manager.is_interactive_mode());
}

#[test]
fn test_retry_logic() {
    let manager = ErrorRecoveryManager::new();
    assert!(manager.can_retry(0));
    assert!(manager.can_retry(1));
    assert!(manager.can_retry(2));
    assert!(!manager.can_retry(3));
}

#[test]
fn test_max_retries_setting() {
    let mut manager = ErrorRecoveryManager::new();
    manager.set_max_retries(5);
    assert_eq!(manager.get_max_retries(), 5);
    assert!(manager.can_retry(4));
    assert!(!manager.can_retry(5));
}

#[test]
fn recovery_decisions() {
    let mut manager = ErrorRecoveryManager::new();
    assert_eq!(manager.preset_error_strategy(), None);
    assert_eq!(manager.retry_message(1), "🔄 Retry 2/3");
    assert_eq!(manager.retry_message(3), "❌ Maximum retries exceeded");
    manager.set_interactive_mode(false);
    assert_eq!(manager.preset_error_strategy(), Some(RecoveryStrategy::Abort));
    assert!(manager.auto_confirms());
    assert_eq!(manager.preset_manual_input(Some("x")), Some("x".to_string()));
    assert_eq!(manager.preset_manual_input(None), Some(String::new()));
    assert_eq!(manager.preset_conflict_strategy(0), Some(RecoveryStrategy::Skip));
    assert_eq!(manager.preset_conflict_strategy(2), None);
    assert_eq!(ErrorRecoveryManager::strategy_for_selection(3), RecoveryStrategy::Alternative);
    assert_eq!(ErrorRecoveryManager::strategy_for_selection(9), RecoveryStrategy::Abort);
    assert_eq!(ErrorRecoveryManager::conflict_strategy_for_selection(1), RecoveryStrategy::ManualInput);
    assert!(ErrorRecoveryManager::needs_careful_review(7999));
    assert!(!ErrorRecoveryManager::needs_careful_review(8000));
}

#[test]
fn test_help_system_creation() {
    let help = HelpSystem::new();
    assert!(help.topic_count() > 0);
    assert!(help.example_topic_count() > 0);
}

#[test]
fn test_topic_help() {
    let help = HelpSystem::new();
    assert!(help.has_topic("add"));
    assert!(help.has_topic("scan"));
}

#[test]
fn test_examples() {
    let help = HelpSystem::new();
    assert!(help.has_examples("add"));
    assert!(help.has_examples("scan"));
}

#[test]
fn help_lookup_and_search() {
    let help = HelpSystem::new();
    assert_eq!(help.topic_names(), vec!["add".to_string(), "scan".to_string(), "config".to_string()]);
    assert_eq!(help.get_topic("scan").unwrap().title, "Scan Project for Rules");
    assert!(help.get_topic("batch").is_none());
    assert!(!help.has_examples("config"));
    assert_eq!(help.get_examples("add").unwrap().len(), 2);
    assert_eq!(help.search_help("BACKUP"), vec!["config".to_string()]);
    assert_eq!(help.search_help("scan"), vec!["scan".to_string()]);
    assert!(help.search_help("zzz").is_empty());
    assert!(help.is_interactive());
}

#[test]
fn ui_manager_messages() {
    let mut ui = UIManager::new();
    assert!(ui.interactive && !ui.verbose && !ui.dry_run);
    assert_eq!(ui.success_message("done"), "done");
    assert_eq!(ui.warning_message("careful"), None);
    assert_eq!(ui.dry_run_message("x"), None);
    assert_eq!(ui.rule_match_lines(&m("MD033", "markdownlint", 9550)), vec!["Rule: MD033 (95%)".to_string()]);
    ui.set_verbose(true);
    ui.set_dry_run(true);
    ui.set_interactive(false);
    assert!(!ui.interactive);
    assert_eq!(ui.success_message("done"), "✅ done");
    assert_eq!(ui.error_message("bad"), "❌ bad");
    assert_eq!(ui.warning_message("careful"), Some("⚠️  careful".to_string()));
    assert_eq!(ui.dry_run_message("x"), Some("🔍 [DRY RUN] x".to_string()));
    assert_eq!(
        ui.rule_match_lines(&m("MD033", "markdownlint", 9550)),
        vec![
            "📋 Rule: MD033 (95% confidence)".to_string(),
            "   Linter: markdownlint".to_string(),
            "   Action: Disable".to_string(),
        ]
    );
    let _ = InteractiveManager::new();
}

#[test]
fn scan_suggestions_filter_dedupe_sort_and_limit() {
    let found = vec![
        m("MD013", "markdownlint", 6500),
        m("MD033", "markdownlint", 9000),
        m("MD013", "markdownlint", 9900),
        m("no-console", "eslint", 4000),
        m("MD041", "markdownlint", 9000),
        m("MD009", "markdownlint", 7000),
    ];
    let shown = select_suggestions(&found, 3, false);
    let ids: Vec<&str> = shown.iter().map(|r| r.rule_id.as_str()).collect();
    assert_eq!(ids, vec!["MD033", "MD041", "MD009"]);
    let shown = select_suggestions(&found, 10, true);
    let ids: Vec<&str> = shown.iter().map(|r| r.rule_id.as_str()).collect();
    assert_eq!(ids, vec!["MD033", "MD041", "MD009", "MD013", "no-console"]);
    assert!(select_suggestions(&found, 0, true).is_empty());
}

#[test]
fn scan_file_choices() {
    assert!(skip_directory("repo/.git", false));
    assert!(skip_directory("repo/node_modules", true));
    assert!(skip_directory("repo/docs", false));
    assert!(!skip_directory("repo/docs", true));
    assert!(!skip_directory("repo/src", false));
    assert!(is_scan_candidate("logs/output.LOG"));
    assert!(is_scan_candidate("build/eslint-report"));
    assert!(!is_scan_candidate("src/main.rs"));
    assert!(looks_like_linter_output("src/a.md:3 MD013/line-length"));
    assert!(looks_like_linter_output("ESLINT found problems"));
    assert!(!looks_like_linter_output("all good"));
}

#[test]
fn info_lines_for_each_linter() {
    let registry = LinterRegistry::new();
    let lines = rule_info_lines(&registry, "MD033");
    assert_eq!(lines[0], "Linter: markdownlint");
    assert_eq!(lines[2], "Description: No inline HTML");
    assert_eq!(lines[3], "Format: MDxxx");
    assert!(lines[4].starts_with("Config files: [\".markdownlint.json\""));
    let lines = rule_info_lines(&registry, "no-console");
    assert_eq!(lines[0], "Linter: eslint");
    assert_eq!(lines[2], "Description: Disallow the use of console");
    let lines = rule_info_lines(&registry, "prettier/semi");
    assert_eq!(lines[0], "Linter: eslint");
    let lines = rule_info_lines(&registry, "prettier/printWidth");
    assert_eq!(lines[0], "Linter: prettier");
    assert_eq!(lines[2], "Option: printWidth");
    assert_eq!(lines[3], "Description: Line width exceeded");
    let lines = rule_info_lines(&registry, "XYZ");
    assert_eq!(
        lines,
        vec![
            "Unknown rule. Known linter formats: markdownlint => MDxxx, eslint => category/rule-name, prettier => prettier/rule-name"
                .to_string()
        ]
    );
}

#[test]
fn confirmation_prompts_say_what_they_ask() {
    let p = ConfirmationPrompts::file_overwrite(".eslintrc.json");
    assert_eq!(p.title, "⚠️  File Overwrite Warning");
    assert_eq!(
        p.details,
        vec!["File: .eslintrc.json", "This operation will overwrite the existing file"]
    );
    assert_eq!(p.question, "Overwrite the file?");
    assert!(!p.default);

    let p = ConfirmationPrompts::directory_creation("backups");
    assert_eq!(p.details, vec!["Directory: backups"]);
    assert!(p.default);

    let p = ConfirmationPrompts::cleanup_operation(12, "backups");
    assert_eq!(p.details, vec!["Items to remove: 12 backups"]);
    assert_eq!(p.question, "Proceed with cleanup?");
    assert!(p.default);

    let p = ConfirmationPrompts::configuration_reset();
    assert_eq!(p.details.len(), 2);
    assert_eq!(p.question, "Reset configuration to defaults?");
    assert!(!p.default);
}

#[test]
fn test_enhanced_cli_runner_creation() {
    let runner = EnhancedCliRunner::new();
    assert!(runner.interactive_mode());
    assert!(runner.color_enabled());
}

#[test]
fn test_confidence_bar_creation() {
    let runner = EnhancedCliRunner::new();
    let bar = runner.create_confidence_bar(8000);
    assert!(bar.contains("█"));
    assert!(bar.contains("░"));
}

#[test]
fn confidence_bars_count_tenths() {
    let runner = EnhancedCliRunner::new();
    assert_eq!(runner.create_confidence_bar(8000), "[████████░░]");
    assert_eq!(runner.create_confidence_bar(0), "[░░░░░░░░░░]");
    assert_eq!(runner.create_confidence_bar(10000), "[██████████]");
    assert_eq!(runner.create_confidence_bar(9999), "[█████████░]");
}

#[test]
fn enhanced_runner_analyzes_matches() {
    let mut runner = EnhancedCliRunner::new();
    runner.setup_display();
    assert!(runner.interactive_mode());
    let m = |id: &str, action: ConfigAction| RuleMatch {
        rule_id: id.to_string(),
        linter: "markdownlint".to_string(),
        confidence: 9500,
        context: ExtractedContext {
            file_path: None,
            line_number: None,
            column: None,
            message: None,
            severity: Some(Severity::Warning),
        },
        suggested_action: action,
    };
    let result = runner.analyze_matches(&[m("MD033", ConfigAction::Disable), m("MD041", ConfigAction::Disable)]);
    assert_eq!(result.rule_semantics.len(), 2);
    assert_eq!(result.rule_semantics[0].0, "MD033");
    assert_eq!(result.rule_semantics[0].1.concepts, vec!["security"]);
    assert_eq!(result.rule_semantics[1].1.concepts, vec!["formatting"]);
    assert!(result.decision_analysis.recommendations.is_empty());
}
