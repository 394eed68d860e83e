//! Validation of user input, rule identifiers, paths and rule matches.
use vstd::prelude::*;
use crate::analysis::{ConfigAction, ConfigEntry, RuleMatch};
use crate::text::{alphanumeric, byte_len, has_sub, is_alphanumeric, str_contains, str_equal, str_trim, to_chars, trim};
use crate::utils::{concat, passing, with_error, with_warning, ValidationModel, ValidationResult};
use crate::utils::fs::{file_extension, path_extension};

verus! {

/// The validation with `from`'s errors appended when `from` did not pass.
pub open spec fn with_errors_of(v: ValidationModel, from: ValidationModel) -> ValidationModel {
    if !from.is_valid && from.errors.len() > 0 {
        ValidationModel { is_valid: false, errors: v.errors + from.errors, warnings: v.warnings }
    } else {
        v
    }
}

/// What checking a rule input finds: blank input is an error; input over a thousand bytes,
/// or without `MD`, `ESLint` or `pylint` in it, draws a warning.
pub open spec fn rule_input_check(input: Seq<char>) -> ValidationModel {
    if trim(input).len() == 0 {
        with_error(passing(), "Rule input cannot be empty"@)
    } else {
        let a = if byte_len(input) > 1000 {
            with_warning(passing(), "Rule input is very long, consider using a file"@)
        } else {
            passing()
        };
        if !has_sub(input, "MD"@) && !has_sub(input, "ESLint"@) && !has_sub(input, "pylint"@) {
            with_warning(a, "Input doesn't contain common linter identifiers"@)
        } else {
            a
        }
    }
}

/// Every character is alphanumeric, `-` or `_`.
pub open spec fn rule_id_chars_ok(id: Seq<char>) -> bool {
    forall|i: int| 0 <= i < id.len() ==> #[trigger] id_char_ok(id[i])
}

/// An ASCII letter or digit.
pub open spec fn ascii_alnum(c: char) -> bool {
    ('a' <= c && c <= 'z') || ('A' <= c && c <= 'Z') || ('0' <= c && c <= '9')
}

/// A character a rule identifier may hold: an alphanumeric character (among ASCII
/// characters, a letter or digit), `-` or `_`.
pub open spec fn id_char_ok(c: char) -> bool {
    if c <= '\u{7f}' {
        ascii_alnum(c) || c == '-' || c == '_'
    } else {
        alphanumeric(c)
    }
}

/// What checking a rule identifier finds: a blank identifier, other characters than
/// alphanumerics, `-` and `_`, and more than fifty bytes are errors.
pub open spec fn rule_id_check(id: Seq<char>) -> ValidationModel {
    if trim(id).len() == 0 {
        with_error(passing(), "Rule ID cannot be empty"@)
    } else {
        let a = if !rule_id_chars_ok(id) {
            with_error(passing(), "Rule ID contains invalid characters"@)
        } else {
            passing()
        };
        if byte_len(id) > 50 {
            with_error(a, "Rule ID is too long"@)
        } else {
            a
        }
    }
}

/// The file extensions of configuration formats.
pub open spec fn usual_extension(e: Seq<char>) -> bool {
    e == "json"@ || e == "yaml"@ || e == "yml"@ || e == "toml"@ || e == "ini"@
}

/// What checking a file path finds, given whether the file exists and whether the path is a
/// directory.
pub open spec fn file_path_check(path: Seq<char>, exists: bool, is_dir: bool) -> ValidationModel {
    let a = if !exists {
        with_warning(passing(), "File does not exist"@)
    } else {
        passing()
    };
    let b = if is_dir {
        with_error(a, "Path is a directory, expected a file"@)
    } else {
        a
    };
    match file_extension(path) {
        Some(e) => if !usual_extension(e) {
            with_warning(b, "Unusual file extension: "@ + e)
        } else {
            b
        },
        None => with_warning(b, "File has no extension"@),
    }
}

/// The linters the validator knows by name.
pub open spec fn known_linter_name(l: Seq<char>) -> bool {
    l == "markdownlint"@ || l == "eslint"@ || l == "pylint"@ || l == "ruff"@ || l == "clippy"@ || l
        == "stylelint"@
}

/// What checking a linter name finds: a blank name is an error, an unknown one a warning.
pub open spec fn linter_name_check(l: Seq<char>) -> ValidationModel {
    if trim(l).len() == 0 {
        with_error(passing(), "Linter name cannot be empty"@)
    } else if !known_linter_name(l) {
        with_warning(passing(), "Unknown linter: "@ + l)
    } else {
        passing()
    }
}

/// What checking a rule match finds: the errors of its identifier and linter name, a
/// confidence above 1.0 as an error, and one below 0.3 as a warning.
pub open spec fn rule_match_check(id: Seq<char>, linter: Seq<char>, confidence: u32) -> ValidationModel {
    let a = with_errors_of(with_errors_of(passing(), rule_id_check(id)), linter_name_check(linter));
    let b = if confidence > 10000 {
        with_error(a, "Confidence must be between 0.0 and 1.0"@)
    } else {
        a
    };
    if confidence < 3000 {
        with_warning(b, "Very low confidence match"@)
    } else {
        b
    }
}

/// The action suggested for a confidence.
pub open spec fn action_for_confidence(confidence: u32) -> ConfigAction {
    if confidence >= 8500 {
        ConfigAction::Disable
    } else if confidence >= 6000 {
        ConfigAction::Ignore
    } else {
        ConfigAction::Modify
    }
}

/// Appends `from`'s errors to `result` when `from` did not pass.
fn copy_errors(result: &mut ValidationResult, from: &ValidationResult)
    ensures
        final(result)@ == with_errors_of(old(result)@, from@),
{
    if !from.is_ok() {
        let ghost start = result@;
        let mut i: usize = 0;
        while i < from.errors.len()
            invariant
                !from.is_valid,
                i <= from.errors@.len(),
                result@.warnings == start.warnings,
                result@.errors == start.errors + from@.errors.take(i as int),
                i > 0 ==> !result@.is_valid,
                i == 0 ==> result@ == start,
            decreases from.errors@.len() - i,
        {
            result.add_error(from.errors[i].clone());
            assert(from@.errors.take(i + 1) =~= from@.errors.take(i as int).push(from@.errors[i as int]));
            i = i + 1;
        }
        assert(from@.errors.take(from.errors@.len() as int) =~= from@.errors);
    }
}

/// Whether the text is empty once trimmed.
fn is_blank(s: &str) -> (b: bool)
    ensures
        b == (trim(s@).len() == 0),
{
    let t = str_trim(s);
    t.as_str().is_empty()
}

/// Checks of user input.
pub struct InputValidator;

impl InputValidator {
    /// Checks a rule input.
    pub fn validate_rule_input(input: &str) -> (r: ValidationResult)
        ensures
            r@ == rule_input_check(input@),
    {
        let mut result = ValidationResult::new();
        if is_blank(input) {
            result.add_error(String::from_str("Rule input cannot be empty"));
            return result;
        }
        if input.len() > 1000 {
            result.add_warning(String::from_str("Rule input is very long, consider using a file"));
        }
        if !str_contains(input, "MD") && !str_contains(input, "ESLint") && !str_contains(
            input,
            "pylint",
        ) {
            result.add_warning(String::from_str("Input doesn't contain common linter identifiers"));
        }
        result
    }

    /// Checks the form of a rule identifier.
    pub fn validate_rule_id(rule_id: &str) -> (r: ValidationResult)
        ensures
            r@ == rule_id_check(rule_id@),
    {
        let mut result = ValidationResult::new();
        if is_blank(rule_id) {
            result.add_error(String::from_str("Rule ID cannot be empty"));
            return result;
        }
        let chars = to_chars(rule_id);
        let mut ok = true;
        let mut i: usize = 0;
        while i < chars.len()
            invariant
                i <= chars@.len(),
                chars@ == rule_id@,
                ok == forall|t: int| 0 <= t < i ==> #[trigger] id_char_ok(chars@[t]),
            decreases chars@.len() - i,
        {
            let c = chars[i];
            let allowed = is_alphanumeric(c) || c == '-' || c == '_';
            assert(allowed == id_char_ok(c));
            if !allowed {
                ok = false;
            }
            i = i + 1;
        }
        if !ok {
            result.add_error(String::from_str("Rule ID contains invalid characters"));
        }
        if rule_id.len() > 50 {
            result.add_error(String::from_str("Rule ID is too long"));
        }
        result
    }

    /// Checks a configuration entry: its rule identifier's errors are its own.
    pub fn validate_config_entry(entry: &ConfigEntry) -> (r: ValidationResult)
        ensures
            r@ == with_errors_of(passing(), rule_id_check(entry.rule_id@)),
    {
        let mut result = ValidationResult::new();
        let rule_validation = Self::validate_rule_id(entry.rule_id.as_str());
        copy_errors(&mut result, &rule_validation);
        result
    }

    /// Checks a file path, given whether the file exists and whether the path names a
    /// directory.
    pub fn validate_file_path(path: &str, exists: bool, is_dir: bool) -> (r: ValidationResult)
        ensures
            r@ == file_path_check(path@, exists, is_dir),
    {
        let mut result = ValidationResult::new();
        if !exists {
            result.add_warning(String::from_str("File does not exist"));
        }
        if is_dir {
            result.add_error(String::from_str("Path is a directory, expected a file"));
        }
        match path_extension(path) {
            Some(ext) => {
                let e = ext.as_str();
                if !(str_equal(e, "json") || str_equal(e, "yaml") || str_equal(e, "yml")
                    || str_equal(e, "toml") || str_equal(e, "ini")) {
                    result.add_warning(concat("Unusual file extension: ", e));
                }
            },
            None => {
                result.add_warning(String::from_str("File has no extension"));
            },
        }
        result
    }

    /// Checks a linter name.
    pub fn validate_linter_name(linter: &str) -> (r: ValidationResult)
        ensures
            r@ == linter_name_check(linter@),
    {
        let mut result = ValidationResult::new();
        if is_blank(linter) {
            result.add_error(String::from_str("Linter name cannot be empty"));
            return result;
        }
        if !(str_equal(linter, "markdownlint") || str_equal(linter, "eslint") || str_equal(
            linter,
            "pylint",
        ) || str_equal(linter, "ruff") || str_equal(linter, "clippy") || str_equal(
            linter,
            "stylelint",
        )) {
            result.add_warning(concat("Unknown linter: ", linter));
        }
        result
    }
}

/// Checks of rule matches.
pub struct RuleValidator;

impl RuleValidator {
    /// Checks a rule match.
    pub fn validate_rule_match(rule_match: &RuleMatch) -> (r: ValidationResult)
        ensures
            r@ == rule_match_check(rule_match.rule_id@, rule_match.linter@, rule_match.confidence),
    {
        let mut result = ValidationResult::new();
        let rule_validation = InputValidator::validate_rule_id(rule_match.rule_id.as_str());
        copy_errors(&mut result, &rule_validation);
        let linter_validation = InputValidator::validate_linter_name(rule_match.linter.as_str());
        copy_errors(&mut result, &linter_validation);
        if rule_match.confidence > 10000 {
            result.add_error(String::from_str("Confidence must be between 0.0 and 1.0"));
        }
        if rule_match.confidence < 3000 {
            result.add_warning(String::from_str("Very low confidence match"));
        }
        result
    }

    /// Whether the match is confident enough to act on (0.6 or more).
    pub fn is_actionable(rule_match: &RuleMatch) -> (b: bool)
        ensures
            b == (rule_match.confidence >= 6000),
    {
        rule_match.confidence >= 6000
    }

    /// The action suggested by the match's confidence.
    pub fn get_suggested_action(rule_match: &RuleMatch) -> (a: ConfigAction)
        ensures
            a == action_for_confidence(rule_match.confidence),
    {
        if rule_match.confidence >= 8500 {
            ConfigAction::Disable
        } else if rule_match.confidence >= 6000 {
            ConfigAction::Ignore
        } else {
            ConfigAction::Modify
        }
    }
}

/// A validation passes exactly when it recorded no error.
pub open spec fn consistent(v: ValidationModel) -> bool {
    v.is_valid == (v.errors.len() == 0)
}

/// Every check passes exactly when it finds no error: rule inputs, rule identifiers,
/// configuration entries, file paths, linter names and rule matches.
pub proof fn law_checks_pass_without_errors(
    input: Seq<char>,
    path: Seq<char>,
    exists: bool,
    is_dir: bool,
    linter: Seq<char>,
    confidence: u32,
)
    ensures
        consistent(rule_input_check(input)),
        consistent(rule_id_check(input)),
        consistent(with_errors_of(passing(), rule_id_check(input))),
        consistent(file_path_check(path, exists, is_dir)),
        consistent(linter_name_check(linter)),
        consistent(rule_match_check(input, linter, confidence)),
{
}

/// Law: an identifier made only of ASCII letters, digits, `-` and `_`, not empty and at
/// most fifty bytes long, passes the rule identifier check with no message at all; one that
/// holds any other ASCII character fails it for invalid characters.
pub proof fn law_rule_id_characters(id: Seq<char>)
    ensures
        id.len() > 0 && byte_len(id) <= 50 && (forall|i: int|
            0 <= i < id.len() ==> (ascii_alnum(#[trigger] id[i]) || id[i] == '-' || id[i] == '_'))
            ==> rule_id_check(id) == passing(),
        (exists|i: int|
            0 <= i < id.len() && #[trigger] id[i] <= '\u{7f}' && !ascii_alnum(id[i]) && id[i] != '-' && id[i] != '_')
            ==> !rule_id_check(id).is_valid,
{
    if id.len() > 0 && byte_len(id) <= 50 && (forall|i: int|
        0 <= i < id.len() ==> (ascii_alnum(#[trigger] id[i]) || id[i] == '-' || id[i] == '_')) {
        assert(ascii_alnum(id[0]) || id[0] == '-' || id[0] == '_');
        assert(!crate::text::is_ws(id[0]));
        assert(crate::text::trim_start(id) == id);
        assert(ascii_alnum(id.last()) || id.last() == '-' || id.last() == '_');
        assert(!crate::text::is_ws(id.last()));
        assert(crate::text::trim_end(id) == id);
        assert(rule_id_chars_ok(id)) by {
            assert forall|i: int| 0 <= i < id.len() implies #[trigger] id_char_ok(id[i]) by {
                assert(ascii_alnum(id[i]) || id[i] == '-' || id[i] == '_');
            }
        }
    }
    if exists|i: int|
        0 <= i < id.len() && #[trigger] id[i] <= '\u{7f}' && !ascii_alnum(id[i]) && id[i] != '-' && id[i] != '_' {
        let i = choose|i: int|
            0 <= i < id.len() && #[trigger] id[i] <= '\u{7f}' && !ascii_alnum(id[i]) && id[i] != '-' && id[i] != '_';
        assert(!id_char_ok(id[i]));
    }
}

} // verus!
