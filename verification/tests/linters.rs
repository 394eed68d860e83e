use sandbag::analysis::{ConfigAction, Severity};
use sandbag::linters::eslint::ESLintHandler;
use sandbag::linters::markdownlint::MarkdownlintHandler;
use sandbag::linters::prettier::PrettierHandler;
use sandbag::linters::{LinterFactory, LinterHandler, LinterKind, LinterRegistry};

#[test]
fn test_linter_registry_creation() {
    let registry = LinterRegistry::new();
    assert!(registry.is_linter_supported("markdownlint"));
    assert!(registry.is_linter_supported("eslint"));
    assert!(registry.is_linter_supported("prettier"));
    assert!(!registry.is_linter_supported("unknown"));
}

#[test]
fn test_find_handler() {
    let registry = LinterRegistry::new();

    let input = "MD033: No inline HTML";
    let handler = registry.find_handler(input);
    assert!(handler.is_some());
    assert_eq!(handler.unwrap().get_linter_name(), "markdownlint");

    let input = "1:10 error no-unused-vars 'x' is assigned a value but never used";
    let handler = registry.find_handler(input);
    assert!(handler.is_some());
    assert_eq!(handler.unwrap().get_linter_name(), "eslint");

    let input = "prettier/prettier: Missing semicolon";
    let handler = registry.find_handler(input);
    assert!(handler.is_some());
    assert_eq!(handler.unwrap().get_linter_name(), "prettier");
}

#[test]
fn mod_test_extract_rules() {
    let registry = LinterRegistry::new();

    let input = "MD033: No inline HTML";
    let rules = registry.extract_rules(input);
    assert!(!rules.is_empty());
    assert_eq!(rules[0].linter, "markdownlint");
    assert_eq!(rules[0].rule_id, "MD033");
}

#[test]
fn test_linter_factory() {
    assert!(LinterFactory::is_valid_linter("markdownlint"));
    assert!(LinterFactory::is_valid_linter("eslint"));
    assert!(LinterFactory::is_valid_linter("prettier"));
    assert!(!LinterFactory::is_valid_linter("unknown"));

    let available = LinterFactory::get_available_linters();
    assert!(available.contains(&"markdownlint".to_string()));
    assert!(available.contains(&"eslint".to_string()));
    assert!(available.contains(&"prettier".to_string()));
}

#[test]
fn test_create_handler() {
    assert!(LinterFactory::create_handler("markdownlint").is_some());
    assert!(LinterFactory::create_handler("eslint").is_some());
    assert!(LinterFactory::create_handler("prettier").is_some());
    assert!(LinterFactory::create_handler("unknown").is_none());
}

#[test]
fn test_supported_linters() {
    let registry = LinterRegistry::new();
    let supported = registry.get_supported_linters();

    assert!(supported.iter().any(|i| i.name == "markdownlint"));
    assert!(supported.iter().any(|i| i.name == "eslint"));
    assert!(supported.iter().any(|i| i.name == "prettier"));

    let markdownlint_info = supported.iter().find(|i| i.name == "markdownlint").unwrap();
    assert_eq!(markdownlint_info.name, "markdownlint");
    assert!(markdownlint_info.supported);
}

#[test]
fn registry_lists_linters_in_registration_order() {
    let registry = LinterRegistry::new();
    assert_eq!(registry.get_linter_names(), vec!["markdownlint", "eslint", "prettier"]);
    let supported = registry.get_supported_linters();
    assert_eq!(supported[0].rule_format, "MDxxx");
    assert_eq!(supported[1].rule_format, "category/rule-name");
    assert_eq!(supported[2].rule_format, "prettier/rule-name");
}

#[test]
fn registry_extracts_rules_line_by_line() {
    let registry = LinterRegistry::new();
    let rules = registry.extract_rules("MD033: No inline HTML\n\nprettier/prettier: Missing semicolon");
    assert_eq!(rules.len(), 2);
    assert_eq!(rules[0].rule_id, "MD033");
    assert_eq!(rules[1].rule_id, "prettier/prettier");
    assert_eq!(rules[1].linter, "prettier");
}

#[test]
fn registry_finds_no_handler_for_plain_text() {
    let registry = LinterRegistry::new();
    assert!(registry.find_handler("hello world").is_none());
    assert!(registry.extract_rules("hello world").is_empty());
}

#[test]
fn test_markdownlint_handler_creation() {
    let handler = MarkdownlintHandler::new();
    assert_eq!(handler.get_linter_name(), "markdownlint");
    assert!(handler.pattern_count() > 0);
    assert!(handler.rule_count() > 0);
}

#[test]
fn test_rule_extraction() {
    let handler = MarkdownlintHandler::new();
    let input = "MD033/no-inline-html: Inline HTML [Element: summary]markdownlintMD033";

    let result = handler.extract_rule_id(input).unwrap();
    assert_eq!(result.rule_id, "MD033");
    assert_eq!(result.linter, "markdownlint");
    assert!(result.confidence > 8000);
}

#[test]
fn test_rule_validation() {
    let handler = MarkdownlintHandler::new();

    assert!(handler.validate_rule_id("MD033"));
    assert!(handler.validate_rule_id("MD001"));
    assert!(!handler.validate_rule_id("MD1"));
    assert!(!handler.validate_rule_id("ESLint"));
}

#[test]
fn test_config_files() {
    let handler = MarkdownlintHandler::new();
    let config_files = handler.get_config_files();

    assert!(config_files.contains(&".markdownlint.json".to_string()));
    assert!(config_files.contains(&".markdownlint.yaml".to_string()));
    assert!(config_files.contains(&".markdownlint.yml".to_string()));
}

#[test]
fn test_rule_description() {
    let handler = MarkdownlintHandler::new();

    let description = handler.get_rule_description("MD033").unwrap();
    assert_eq!(description, "No inline HTML");

    assert!(handler.get_rule_description("INVALID").is_none());
}

#[test]
fn test_eslint_handler_creation() {
    let handler = ESLintHandler::new();
    assert!(handler.pattern_count() > 0);
    assert!(handler.severity_count() > 0);
}

#[test]
fn test_can_handle_eslint_output() {
    let handler = ESLintHandler::new();

    assert!(handler.can_handle("1:10 error no-unused-vars 'x' is assigned a value but never used"));
    assert!(handler.can_handle("eslint: no-console"));
    assert!(handler.can_handle("prefer-const/const: Use const instead of let"));
    assert!(!handler.can_handle("MD033: No inline HTML"));
}

#[test]
fn eslint_test_extract_rule_id() {
    let handler = ESLintHandler::new();

    let input = "1:10 error no-unused-vars 'x' is assigned a value but never used";
    assert_eq!(handler.extract_rule_id(input), Some("no-unused-vars".to_string()));

    let input = "2:5 warn prefer-const/const Use const instead of let";
    assert_eq!(handler.extract_rule_id(input), Some("prefer-const/const".to_string()));
}

#[test]
fn test_extract_severity() {
    let handler = ESLintHandler::new();

    let input = "1:10 error no-unused-vars 'x' is assigned a value but never used";
    assert_eq!(handler.extract_severity(input), Some(Severity::Error));

    let input = "2:5 warn prefer-const/const Use const instead of let";
    assert_eq!(handler.extract_severity(input), Some(Severity::Warning));
}

#[test]
fn eslint_test_extract_rules() {
    let handler = ESLintHandler::new();

    let input = "1:10 error no-unused-vars 'x' is assigned a value but never used\n2:5 warn prefer-const/const Use const instead of let";
    let rules = handler.extract_rules(input);

    assert_eq!(rules.len(), 2);
    assert_eq!(rules[0].rule_id, "no-unused-vars");
    assert_eq!(rules[0].linter, "eslint");
    assert_eq!(rules[1].rule_id, "prefer-const/const");
    assert_eq!(rules[1].linter, "eslint");
}

#[test]
fn eslint_test_calculate_confidence() {
    let handler = ESLintHandler::new();

    let input = "1:10 error no-unused-vars 'x' is assigned a value but never used";
    let confidence = handler.calculate_confidence(input);

    assert!(confidence > 8000);
    assert!(confidence <= 10000);
}

#[test]
fn eslint_test_suggest_action() {
    let handler = ESLintHandler::new();

    assert_eq!(handler.suggest_action("no-unused-vars", Some(&Severity::Error)), ConfigAction::Disable);
    assert_eq!(handler.suggest_action("prefer-const", Some(&Severity::Warning)), ConfigAction::Ignore);
    assert_eq!(handler.suggest_action("no-console", None), ConfigAction::Disable);
}

#[test]
fn eslint_describes_rules_with_or_without_category() {
    let handler = ESLintHandler::new();
    assert_eq!(handler.get_rule_description("no-console"), Some("Disallow the use of console".to_string()));
    assert_eq!(handler.get_rule_description("core/no-console"), Some("Disallow the use of console".to_string()));
    assert_eq!(handler.get_rule_description("made-up-rule"), None);
}

#[test]
fn test_prettier_handler_creation() {
    let handler = PrettierHandler::new();
    assert!(handler.pattern_count() > 0);
    assert!(!handler.get_configuration_options().is_empty());
}

#[test]
fn test_can_handle_prettier_output() {
    let handler = PrettierHandler::new();

    assert!(handler.can_handle("prettier/prettier: Missing semicolon"));
    assert!(handler.can_handle("Code style issues found: Line too long"));
    assert!(handler.can_handle("Formatting error: Inconsistent quotes"));
    assert!(!handler.can_handle("MD033: No inline HTML"));
}

#[test]
fn prettier_test_extract_rule_id() {
    let handler = PrettierHandler::new();

    let input = "prettier/prettier: Missing semicolon";
    assert_eq!(handler.extract_rule_id(input), Some("prettier/prettier".to_string()));

    let input = "Code style issues found: Line width exceeded";
    assert_eq!(handler.extract_rule_id(input), Some("prettier/prettier".to_string()));
}

#[test]
fn test_extract_context() {
    let handler = PrettierHandler::new();

    let input = "prettier/prettier: Missing semicolon";
    let context = handler.extract_context(input);

    assert_eq!(context.message, Some("Missing semicolon".to_string()));
    assert_eq!(context.severity, Some(Severity::Warning));
}

#[test]
fn prettier_test_extract_rules() {
    let handler = PrettierHandler::new();

    let input = "prettier/prettier: Missing semicolon\nCode style issues found: Line too long";
    let rules = handler.extract_rules(input);

    assert_eq!(rules.len(), 2);
    assert_eq!(rules[0].rule_id, "prettier/prettier");
    assert_eq!(rules[0].linter, "prettier");
    assert_eq!(rules[1].rule_id, "prettier/prettier");
    assert_eq!(rules[1].linter, "prettier");
}

#[test]
fn prettier_test_calculate_confidence() {
    let handler = PrettierHandler::new();

    let input = "prettier/prettier: Missing semicolon";
    let confidence = handler.calculate_confidence(input);

    assert!(confidence > 8000);
    assert!(confidence <= 10000);
}

#[test]
fn prettier_test_suggest_action() {
    let handler = PrettierHandler::new();

    assert_eq!(handler.suggest_action("prettier/prettier"), ConfigAction::Ignore);
    assert_eq!(handler.suggest_action("prettier/endOfLine"), ConfigAction::Modify);
    assert_eq!(handler.suggest_action("prettier/printWidth"), ConfigAction::Modify);
}

#[test]
fn test_validate_config() {
    let handler = PrettierHandler::new();

    let valid_config = r#"{"semi": true, "singleQuote": true}"#;
    let errors = handler.validate_config(valid_config);
    assert!(errors.is_empty());

    let invalid_config = r#"{"semi": true, "singleQuote": true"#;
    let errors = handler.validate_config(invalid_config);
    assert!(!errors.is_empty());
}

#[test]
fn test_get_configuration_options() {
    let handler = PrettierHandler::new();
    let options = handler.get_configuration_options();

    assert!(options.iter().any(|(k, _)| k == "semi"));
    assert!(options.iter().any(|(k, _)| k == "singleQuote"));
    assert!(options.iter().any(|(k, _)| k == "trailingComma"));
}

#[test]
fn handlers_by_kind_and_by_name() {
    let h = LinterHandler::for_kind(LinterKind::ESLint);
    assert_eq!(h.get_linter_name(), "eslint");
    let registry = LinterRegistry::new();
    let p = registry.get_handler_for_linter("prettier").unwrap();
    assert_eq!(p.get_linter_name(), "prettier");
    assert!(registry.get_handler_for_linter("ruff").is_none());
}
