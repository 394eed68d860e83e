use sandbag::config::backup::{backup_file_id, backup_file_matches, count_backup_files, ids_newest_first};
use sandbag::ui::cli::{apply_candidates, apply_fallback, apply_path, CliRunner};

#[test]
fn apply_targets_per_linter() {
    assert_eq!(
        apply_candidates("markdownlint"),
        vec![".markdownlint.json", ".markdownlint.yaml", ".markdownlint.yml"]
    );
    assert_eq!(
        apply_candidates("eslint"),
        vec![".eslintrc.json", ".eslintrc.yaml", ".eslintrc.yml"]
    );
    assert_eq!(
        apply_candidates("prettier"),
        vec![".prettierrc.json", ".prettierrc.yaml", ".prettierrc.yml"]
    );
    assert!(apply_candidates("stylelint").is_empty());
    assert_eq!(apply_fallback("markdownlint"), ".markdownlint.json");
    assert_eq!(apply_fallback("eslint"), ".eslintrc.json");
    assert_eq!(apply_fallback("prettier"), ".prettierrc.json");
    assert_eq!(apply_fallback("other"), "config.json");
    assert_eq!(apply_path("eslint"), "rules");
    assert_eq!(apply_path("markdownlint"), "");
}

#[test]
fn runner_takes_global_options() {
    let mut runner = CliRunner::new();
    let ui = runner.ui();
    assert!(ui.interactive);
    assert!(!ui.verbose);
    assert!(!ui.dry_run);
    runner.apply_global_options(true, true);
    let ui = runner.ui();
    assert!(ui.interactive);
    assert!(ui.verbose);
    assert!(ui.dry_run);
    assert!(runner.application().linter_registry().is_linter_supported("eslint"));
}

#[test]
fn backup_files_are_recognised_by_stem_and_suffix() {
    assert!(backup_file_matches("config_1700000000_ab.backup", "config"));
    assert!(!backup_file_matches("config_1700000000_ab.bak", "config"));
    assert!(!backup_file_matches("other_1700000000_ab.backup", "config"));
    assert_eq!(
        backup_file_id("config_1700000000_ab.backup", "config"),
        Some("config_1700000000_ab".to_string())
    );
    assert_eq!(
        backup_file_id("config_1.backup.backup", "config"),
        Some("config_1".to_string())
    );
    assert_eq!(backup_file_id("config_1.json", "config"), None);
}

#[test]
fn backup_files_are_counted() {
    let names = vec![
        "config_1.backup".to_string(),
        "config_2.backup".to_string(),
        "config_3.txt".to_string(),
        "other_1.backup".to_string(),
    ];
    assert_eq!(count_backup_files(&names, "config"), 2);
    assert_eq!(count_backup_files(&Vec::new(), "config"), 0);
}

#[test]
fn backup_ids_come_newest_first() {
    let entries = vec![
        ("a".to_string(), 10),
        ("b".to_string(), 30),
        ("c".to_string(), 20),
        ("d".to_string(), 30),
    ];
    assert_eq!(ids_newest_first(&entries), vec!["b", "d", "c", "a"]);
}
