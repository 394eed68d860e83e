use sandbag::config::document::parse_json_tree;
use sandbag::config::parser::new_object;
use sandbag::config::{ASTNode, ConfigFormat};
use sandbag::{PrettierSetting, Sandbag};

#[test]
fn sandbag_extracts_rules_with_builtin_linters() {
    let app = Sandbag::new();
    assert_eq!(app.linter_registry().get_linter_names(), vec!["markdownlint", "eslint", "prettier"]);
    let rules = app.extract_rules("MD033: No inline HTML");
    assert_eq!(rules.len(), 1);
    assert_eq!(rules[0].rule_id, "MD033");
    assert_eq!(rules[0].linter, "markdownlint");
}

#[test]
fn config_locations_per_linter() {
    assert_eq!(Sandbag::config_candidates("markdownlint").len(), 4);
    assert_eq!(Sandbag::config_candidates("eslint")[4], "eslint.config.js");
    assert!(Sandbag::config_candidates("pylint").is_empty());
    assert_eq!(
        Sandbag::fallback_config("eslint"),
        Some((".eslintrc.json".to_string(), "{\n  \"rules\": {}\n}\n".to_string()))
    );
    assert_eq!(Sandbag::fallback_config("pylint"), None);
    let candidates = Sandbag::config_candidates("prettier");
    let exists = vec![false, false, false, true, true];
    assert_eq!(Sandbag::choose_config_path(&candidates, &exists, ".prettierrc.json"), ".prettierrc.yaml");
    assert_eq!(Sandbag::choose_config_path(&candidates, &vec![], ".prettierrc.json"), ".prettierrc.json");
}

#[test]
fn edit_format_and_prettier_setting() {
    assert_eq!(Sandbag::edit_format(".markdownlint.YML"), ConfigFormat::Yaml);
    assert_eq!(Sandbag::edit_format(".prettierrc"), ConfigFormat::Json);
    assert_eq!(Sandbag::edit_format("a.jsonc"), ConfigFormat::Json);
    assert_eq!(Sandbag::prettier_setting("prettier/prettier", Some("Missing Semicolon")), PrettierSetting::NoSemicolons);
    assert_eq!(Sandbag::prettier_setting("prettier/printWidth", None), PrettierSetting::WideLines);
    assert_eq!(
        Sandbag::prettier_setting("prettier/prettier", Some("Inconsistent quotes")),
        PrettierSetting::Note("Handled rule prettier/prettier".to_string())
    );
}

fn entry(node: &ASTNode, i: usize) -> (String, &ASTNode) {
    let kv = &node.children[i];
    (kv.children[0].value.clone().unwrap(), &kv.children[1])
}

#[test]
fn applying_rules_edits_the_tree() {
    let md = Sandbag::apply_rule_to_tree(new_object(), "markdownlint", "MD033", None);
    assert_eq!(md.children.len(), 1);
    let (k, v) = entry(&md, 0);
    assert_eq!(k, "MD033");
    assert_eq!(v.value.as_deref(), Some("false"));

    let es = Sandbag::apply_rule_to_tree(new_object(), "eslint", "no-console", None);
    let (k, rules) = entry(&es, 0);
    assert_eq!(k, "rules");
    let (k, v) = entry(rules, 0);
    assert_eq!(k, "no-console");
    assert_eq!(v.value.as_deref(), Some("off"));

    let again = Sandbag::apply_rule_to_tree(es, "eslint", "no-console", None);
    assert_eq!(again.children.len(), 1);
    assert_eq!(entry(&again, 0).1.children.len(), 1);

    let pr = Sandbag::apply_rule_to_tree(new_object(), "prettier", "prettier/prettier", Some("Missing semicolon"));
    let (k, v) = entry(&pr, 0);
    assert_eq!(k, "semi");
    assert_eq!(v.value.as_deref(), Some("false"));

    let other = Sandbag::apply_rule_to_tree(new_object(), "pylint", "C0301", None);
    assert!(other.children.is_empty());
}

#[test]
fn add_md033_sets_it_false() {
    let app = Sandbag::new();
    let rules = app.extract_rules("MD033");
    assert_eq!(rules.len(), 1);
    assert_eq!(rules[0].rule_id, "MD033");
    assert_eq!(rules[0].linter, "markdownlint");
    let root = parse_json_tree("{\"default\": true}").unwrap();
    let edited = Sandbag::apply_rule_to_tree(root, &rules[0].linter, &rules[0].rule_id, None);
    assert_eq!(edited.children.len(), 2);
    let (k, v) = entry(&edited, 1);
    assert_eq!(k, "MD033");
    assert_eq!(v.value.as_deref(), Some("false"));
}

#[test]
fn eslint_rules_are_turned_off_and_prettier_gets_its_setting() {
    let app = Sandbag::new();
    let es = app.extract_rules("1:1 error no-console unexpected console statement");
    assert_eq!(es[0].linter, "eslint");
    let root = parse_json_tree("{\"rules\": {}}").unwrap();
    let edited = Sandbag::apply_rule_to_tree(root, &es[0].linter, &es[0].rule_id, None);
    let (k, rules) = entry(&edited, 0);
    assert_eq!(k, "rules");
    let (k, v) = entry(rules, 0);
    assert_eq!(k, es[0].rule_id);
    assert_eq!(v.value.as_deref(), Some("off"));
    let pr = app.extract_rules("prettier/prettier: Missing semicolon");
    assert_eq!(pr[0].linter, "prettier");
    let edited = Sandbag::apply_rule_to_tree(
        parse_json_tree("{}").unwrap(),
        &pr[0].linter,
        &pr[0].rule_id,
        pr[0].context.message.as_deref(),
    );
    let (k, v) = entry(&edited, 0);
    assert_eq!(k, "semi");
    assert_eq!(v.value.as_deref(), Some("false"));
}
