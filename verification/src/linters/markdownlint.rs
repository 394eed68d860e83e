//! Markdownlint output: rule identifiers of the form `MDxxx`.
use vstd::prelude::*;
use crate::analysis::{ConfigAction, ContextModel, ExtractedContext, MatchModel, RuleMatch, Severity, matches_model};
use crate::config::opt_chars;
use crate::linters::{lit, lookup, lookup_text, push_pair, push_str, strings_model, table_model};
use crate::pattern::{captures, get_group, group, regex_captures};
use crate::text::{
    has_sub, is_digit, is_prefix, nonempty_trimmed_lines, parse_u32, parse_u32_spec, str_contains,
    str_has_char, to_chars, trimmed_lines, vecs_model,
};

verus! {

/// Patterns that find a markdownlint rule identifier, tried in order; group 1 is the rule.
pub open spec fn md_patterns() -> Seq<Seq<char>> {
    seq![
        "(MD\\d{3})(?:/[\\w-]+)?:.*?markdownlint(?:MD\\d{3})?"@,
        "markdownlint.*?(MD\\d{3})"@,
        "(MD\\d{3}):.*"@,
        "^(MD\\d{3})$"@,
    ]
}

/// Known markdownlint rules and their descriptions.
pub open spec fn md_rules() -> Seq<(Seq<char>, Seq<char>)> {
    seq![
        ("MD001"@, "Heading levels should only increment by one level at a time"@),
        ("MD002"@, "First heading should be a top level heading"@),
        ("MD003"@, "Heading style"@),
        ("MD004"@, "Unordered list style"@),
        ("MD005"@, "Inconsistent indentation for list items at the same level"@),
        ("MD006"@, "Consider starting bulleted lists at the beginning of the line"@),
        ("MD007"@, "Unordered list indentation"@),
        ("MD009"@, "No trailing spaces"@),
        ("MD010"@, "No hard tabs"@),
        ("MD011"@, "No reversed links"@),
        ("MD012"@, "No multiple consecutive blank lines"@),
        ("MD013"@, "Line length"@),
        ("MD014"@, "Dollar signs used before commands without showing output"@),
        ("MD018"@, "No space after hash on atx style heading"@),
        ("MD019"@, "Multiple spaces after hash on atx style heading"@),
        ("MD020"@, "No space inside hashes on closed atx style heading"@),
        ("MD021"@, "Multiple spaces inside hashes on closed atx style heading"@),
        ("MD022"@, "Headings should be surrounded by blank lines"@),
        ("MD023"@, "Headings must start at the beginning of the line"@),
        ("MD024"@, "Multiple headings with the same content"@),
        ("MD025"@, "Multiple top level headings in the same document"@),
        ("MD026"@, "Trailing punctuation in heading"@),
        ("MD027"@, "Multiple spaces after blockquote symbol"@),
        ("MD028"@, "Blank line inside blockquote"@),
        ("MD029"@, "Ordered list item prefix"@),
        ("MD030"@, "List item marker"@),
        ("MD031"@, "Blank lines around fenced code blocks"@),
        ("MD032"@, "Lists should be surrounded by blank lines"@),
        ("MD033"@, "No inline HTML"@),
        ("MD034"@, "Bare URL used"@),
        ("MD035"@, "Horizontal rule style"@),
        ("MD036"@, "No emphasis used for headings"@),
        ("MD037"@, "No space inside emphasis markers"@),
        ("MD038"@, "No space inside code span elements"@),
        ("MD039"@, "No space inside link text"@),
        ("MD040"@, "Fenced code blocks should have a language specified"@),
        ("MD041"@, "First line in file should be a top level heading"@),
        ("MD042"@, "No empty links"@),
        ("MD043"@, "Required heading structure"@),
        ("MD044"@, "Proper names should have the correct capitalization"@),
        ("MD045"@, "Images should have alternate text (alt text)"@),
        ("MD046"@, "Code block style"@),
        ("MD047"@, "Files should end with a single newline character"@)
    ]
}

/// A Markdown file path followed by a line number; group 1 is the path, group 2 the line.
pub open spec fn md_path_pattern() -> Seq<char> {
    "(?P<path>[^\\s:]+\\.(md|markdown)):(?P<line>\\d+)(?::\\d+)?"@
}

/// A looser form of [`md_path_pattern`], for paths with other characters.
pub open spec fn md_path_pattern_loose() -> Seq<char> {
    "(?P<path>\\S+\\.(md|markdown)):(?P<line>\\d+)"@
}

/// A Markdown file position; group 2 is the line number.
pub open spec fn md_line_pattern() -> Seq<char> {
    "[^\\s:]+\\.(md|markdown):(?P<line>\\d+)(?::\\d+)?"@
}

/// A Markdown file position with a column; group 2 is the column.
pub open spec fn md_column_pattern() -> Seq<char> {
    "[^\\s:]+\\.(md|markdown):\\d+:(?P<col>\\d+)"@
}

/// Confidence of a markdownlint match: half, plus three tenths for a known rule, two tenths
/// when the text names markdownlint and one tenth when it holds the rule identifier,
/// capped at certainty.
pub open spec fn md_confidence(input: Seq<char>, rule_id: Seq<char>) -> u32 {
    let c = 5000 + (if lookup(md_rules(), rule_id) is Some {
        3000int
    } else {
        0
    }) + (if has_sub(input, "markdownlint"@) {
        2000int
    } else {
        0
    }) + (if has_sub(input, rule_id) {
        1000int
    } else {
        0
    });
    if c > 10000 {
        10000
    } else {
        c as u32
    }
}

/// The file path in a markdownlint line.
pub open spec fn md_file_path(input: Seq<char>) -> Option<Seq<char>> {
    match regex_captures(md_path_pattern(), input) {
        Some(c) => group(c, 1),
        None => match regex_captures(md_path_pattern_loose(), input) {
            Some(c) => group(c, 1),
            None => None,
        },
    }
}

/// A number in group 2 of the first match of `pattern`.
pub open spec fn md_number(pattern: Seq<char>, input: Seq<char>) -> Option<u32> {
    match regex_captures(pattern, input) {
        Some(c) => match group(c, 2) {
            Some(t) => parse_u32_spec(t),
            None => None,
        },
        None => None,
    }
}

/// The context of a markdownlint line.
pub open spec fn md_context(input: Seq<char>) -> ContextModel {
    ContextModel {
        file_path: md_file_path(input),
        line_number: md_number(md_line_pattern(), input),
        column: md_number(md_column_pattern(), input),
        message: Some(input),
        severity: Some(Severity::Warning),
    }
}

/// The match for the first of the patterns from the `k`-th on that matches the line.
pub open spec fn md_extract_from(input: Seq<char>, k: int) -> Option<MatchModel>
    decreases md_patterns().len() - k,
{
    if k < 0 || k >= md_patterns().len() {
        None
    } else {
        match regex_captures(md_patterns()[k], input) {
            Some(c) => match group(c, 1) {
                Some(id) => Some(
                    MatchModel {
                        rule_id: id,
                        linter: "markdownlint"@,
                        confidence: md_confidence(input, id),
                        context: md_context(input),
                        suggested_action: ConfigAction::Disable,
                    },
                ),
                None => None,
            },
            None => md_extract_from(input, k + 1),
        }
    }
}

/// The rule match for one line of markdownlint output.
pub open spec fn md_extract(input: Seq<char>) -> Option<MatchModel> {
    md_extract_from(input, 0)
}

/// The matches of each line in turn, for the lines that yield one.
pub open spec fn md_extract_lines(lines: Seq<Seq<char>>) -> Seq<MatchModel>
    decreases lines.len(),
{
    if lines.len() == 0 {
        Seq::empty()
    } else {
        md_extract_lines(lines.drop_last()) + match md_extract(lines.last()) {
            Some(m) => seq![m],
            None => Seq::empty(),
        }
    }
}

/// Whether a text looks like markdownlint output.
pub open spec fn md_can_handle(input: Seq<char>) -> bool {
    (has_sub(input, "MD"@) && input.contains(':')) || md_extract(input) is Some
}

/// Whether a rule identifier has the form `MD` followed by three ASCII digits.
pub open spec fn md_valid_rule_id(id: Seq<char>) -> bool {
    &&& is_prefix("MD"@, id)
    &&& id.len() == 5
    &&& forall|i: int| 2 <= i < 5 ==> is_digit(#[trigger] id[i])
}

/// Configuration file names markdownlint reads.
pub open spec fn md_config_files() -> Seq<Seq<char>> {
    seq![
        ".markdownlint.json"@,
        ".markdownlint.jsonc"@,
        ".markdownlint.yaml"@,
        ".markdownlint.yml"@,
        "markdownlint.json"@,
        "markdownlint.yaml"@,
        "markdownlint.yml"@,
    ]
}

/// Markdownlint handler.
#[derive(Debug)]
pub struct MarkdownlintHandler {
    config_patterns: Vec<String>,
    rule_database: Vec<(String, String)>,
}

impl MarkdownlintHandler {
    /// The handler always holds the markdownlint patterns and rule table.
    #[verifier::type_invariant]
    spec fn inv(self) -> bool {
        &&& strings_model(self.config_patterns@) == md_patterns()
        &&& table_model(self.rule_database@) == md_rules()
    }

    /// The rule patterns the handler holds.
    pub closed spec fn patterns_spec(&self) -> Seq<Seq<char>> {
        strings_model(self.config_patterns@)
    }

    /// The rule table (identifier, description) the handler holds.
    pub closed spec fn rules_spec(&self) -> Seq<(Seq<char>, Seq<char>)> {
        table_model(self.rule_database@)
    }

    /// Create a new Markdownlint handler.
    #[verifier::spinoff_prover]
    #[verifier::rlimit(60)]
    pub fn new() -> (h: Self)
        ensures
            h.patterns_spec() == md_patterns(),
            h.rules_spec() == md_rules(),
    {
        let mut config_patterns: Vec<String> = Vec::new();
        push_str(&mut config_patterns, "(MD\\d{3})(?:/[\\w-]+)?:.*?markdownlint(?:MD\\d{3})?");
        push_str(&mut config_patterns, "markdownlint.*?(MD\\d{3})");
        push_str(&mut config_patterns, "(MD\\d{3}):.*");
        push_str(&mut config_patterns, "^(MD\\d{3})$");
        assert(strings_model(config_patterns@) =~= md_patterns());
        let mut db: Vec<(String, String)> = Vec::new();
        push_pair(&mut db, "MD001", "Heading levels should only increment by one level at a time");
    push_pair(&mut db, "MD002", "First heading should be a top level heading");
    push_pair(&mut db, "MD003", "Heading style");
    push_pair(&mut db, "MD004", "Unordered list style");
    push_pair(&mut db, "MD005", "Inconsistent indentation for list items at the same level");
    push_pair(&mut db, "MD006", "Consider starting bulleted lists at the beginning of the line");
    push_pair(&mut db, "MD007", "Unordered list indentation");
    push_pair(&mut db, "MD009", "No trailing spaces");
    push_pair(&mut db, "MD010", "No hard tabs");
    push_pair(&mut db, "MD011", "No reversed links");
    push_pair(&mut db, "MD012", "No multiple consecutive blank lines");
    push_pair(&mut db, "MD013", "Line length");
    push_pair(&mut db, "MD014", "Dollar signs used before commands without showing output");
    push_pair(&mut db, "MD018", "No space after hash on atx style heading");
    push_pair(&mut db, "MD019", "Multiple spaces after hash on atx style heading");
    push_pair(&mut db, "MD020", "No space inside hashes on closed atx style heading");
    push_pair(&mut db, "MD021", "Multiple spaces inside hashes on closed atx style heading");
    push_pair(&mut db, "MD022", "Headings should be surrounded by blank lines");
    push_pair(&mut db, "MD023", "Headings must start at the beginning of the line");
    push_pair(&mut db, "MD024", "Multiple headings with the same content");
    push_pair(&mut db, "MD025", "Multiple top level headings in the same document");
    push_pair(&mut db, "MD026", "Trailing punctuation in heading");
    push_pair(&mut db, "MD027", "Multiple spaces after blockquote symbol");
    push_pair(&mut db, "MD028", "Blank line inside blockquote");
    push_pair(&mut db, "MD029", "Ordered list item prefix");
    push_pair(&mut db, "MD030", "List item marker");
    push_pair(&mut db, "MD031", "Blank lines around fenced code blocks");
    push_pair(&mut db, "MD032", "Lists should be surrounded by blank lines");
    push_pair(&mut db, "MD033", "No inline HTML");
    push_pair(&mut db, "MD034", "Bare URL used");
    push_pair(&mut db, "MD035", "Horizontal rule style");
    push_pair(&mut db, "MD036", "No emphasis used for headings");
    push_pair(&mut db, "MD037", "No space inside emphasis markers");
    push_pair(&mut db, "MD038", "No space inside code span elements");
    push_pair(&mut db, "MD039", "No space inside link text");
    push_pair(&mut db, "MD040", "Fenced code blocks should have a language specified");
    push_pair(&mut db, "MD041", "First line in file should be a top level heading");
    push_pair(&mut db, "MD042", "No empty links");
    push_pair(&mut db, "MD043", "Required heading structure");
    push_pair(&mut db, "MD044", "Proper names should have the correct capitalization");
    push_pair(&mut db, "MD045", "Images should have alternate text (alt text)");
    push_pair(&mut db, "MD046", "Code block style");
    push_pair(&mut db, "MD047", "Files should end with a single newline character");
        assert(table_model(db@) =~= md_rules());
        MarkdownlintHandler { config_patterns, rule_database: db }
    }

    /// Number of rule-identifier patterns.
    pub fn pattern_count(&self) -> (n: usize)
        ensures
            n == md_patterns().len(),
    {
        proof {
            use_type_invariant(self);
        }
        self.config_patterns.len()
    }

    /// Number of known rules.
    pub fn rule_count(&self) -> (n: usize)
        ensures
            n == md_rules().len(),
    {
        proof {
            use_type_invariant(self);
        }
        self.rule_database.len()
    }

    /// Calculate extraction confidence for a rule.
    pub fn calculate_extraction_confidence(&self, input: &str, rule_id: &str) -> (c: u32)
        ensures
            c == md_confidence(input@, rule_id@),
    {
        proof {
            use_type_invariant(self);
        }
        let mut confidence: u32 = 5000;
        let key = to_chars(rule_id);
        if lookup_text(&self.rule_database, &key).is_some() {
            confidence = confidence + 3000;
        }
        if str_contains(input, "markdownlint") {
            confidence = confidence + 2000;
        }
        if str_contains(input, rule_id) {
            confidence = confidence + 1000;
        }
        if confidence > 10000 {
            10000
        } else {
            confidence
        }
    }

    /// The file path in a markdownlint line.
    pub fn extract_file_path(&self, input: &str) -> (r: Option<String>)
        ensures
            opt_chars(r) == md_file_path(input@),
    {
        match captures("(?P<path>[^\\s:]+\\.(md|markdown)):(?P<line>\\d+)(?::\\d+)?", input) {
            Some(c) => get_group(&c, 1),
            None => match captures("(?P<path>\\S+\\.(md|markdown)):(?P<line>\\d+)", input) {
                Some(c) => get_group(&c, 1),
                None => None,
            },
        }
    }

    fn number_in(pattern: &str, input: &str) -> (r: Option<u32>)
        ensures
            r == md_number(pattern@, input@),
    {
        match captures(pattern, input) {
            Some(c) => match get_group(&c, 2) {
                Some(t) => {
                    let v = to_chars(t.as_str());
                    parse_u32(&v)
                },
                None => None,
            },
            None => None,
        }
    }

    /// The line number in a markdownlint line.
    pub fn extract_line_number(&self, input: &str) -> (r: Option<u32>)
        ensures
            r == md_number(md_line_pattern(), input@),
    {
        Self::number_in("[^\\s:]+\\.(md|markdown):(?P<line>\\d+)(?::\\d+)?", input)
    }

    /// The column in a markdownlint line.
    pub fn extract_column(&self, input: &str) -> (r: Option<u32>)
        ensures
            r == md_number(md_column_pattern(), input@),
    {
        Self::number_in("[^\\s:]+\\.(md|markdown):\\d+:(?P<col>\\d+)", input)
    }

    /// Extract context from markdownlint output.
    pub fn extract_context(&self, input: &str) -> (r: ExtractedContext)
        ensures
            r@ == md_context(input@),
    {
        ExtractedContext {
            file_path: self.extract_file_path(input),
            line_number: self.extract_line_number(input),
            column: self.extract_column(input),
            message: Some(lit(input)),
            severity: Some(Severity::Warning),
        }
    }

    /// Extract the rule of one line of output.
    pub fn extract_rule_id(&self, input: &str) -> (r: Option<RuleMatch>)
        ensures
            match r {
                Some(m) => md_extract(input@) == Some(m@),
                None => md_extract(input@) is None,
            },
    {
        proof {
            use_type_invariant(self);
        }
        let mut k: usize = 0;
        while k < self.config_patterns.len()
            invariant
                strings_model(self.config_patterns@) == md_patterns(),
                k <= self.config_patterns@.len(),
                md_extract(input@) == md_extract_from(input@, k as int),
            decreases self.config_patterns@.len() - k,
        {
            assert(self.config_patterns@[k as int]@ == md_patterns()[k as int]);
            match captures(self.config_patterns[k].as_str(), input) {
                Some(c) => {
                    match get_group(&c, 1) {
                        Some(rule_id) => {
                            let confidence = self.calculate_extraction_confidence(
                                input,
                                rule_id.as_str(),
                            );
                            let m = RuleMatch {
                                rule_id,
                                linter: lit("markdownlint"),
                                confidence,
                                context: self.extract_context(input),
                                suggested_action: ConfigAction::Disable,
                            };
                            return Some(m);
                        },
                        None => {
                            return None;
                        },
                    }
                },
                None => {},
            }
            k = k + 1;
        }
        None
    }

    /// Whether a text looks like markdownlint output.
    pub fn can_handle(&self, input: &str) -> (b: bool)
        ensures
            b == md_can_handle(input@),
    {
        (str_contains(input, "MD") && str_has_char(input, ':')) || self.extract_rule_id(
            input,
        ).is_some()
    }

    /// Extract the rules of every non-empty line of output.
    pub fn extract_rules(&self, input: &str) -> (r: Vec<RuleMatch>)
        ensures
            matches_model(r@) == md_extract_lines(trimmed_lines(input@)),
    {
        let lines = nonempty_trimmed_lines(input);
        let ghost ls = trimmed_lines(input@);
        let mut rules: Vec<RuleMatch> = Vec::new();
        let mut i: usize = 0;
        while i < lines.len()
            invariant
                vecs_model(lines@) == ls,
                i <= lines@.len(),
                matches_model(rules@) == md_extract_lines(ls.take(i as int)),
            decreases lines@.len() - i,
        {
            let line = crate::text::chars_to_string(&lines[i]);
            assert(line@ == ls[i as int]);
            assert(ls.take(i + 1).drop_last() == ls.take(i as int));
            match self.extract_rule_id(line.as_str()) {
                Some(m) => {
                    rules.push(m);
                    assert(matches_model(rules@) =~= matches_model(rules@.drop_last()).push(m@));
                },
                None => {},
            }
            assert(matches_model(rules@) =~= md_extract_lines(ls.take(i + 1)));
            i = i + 1;
        }
        assert(ls.take(lines@.len() as int) == ls);
        rules
    }

    /// Name of the linter.
    pub fn get_linter_name(&self) -> (s: &'static str)
        ensures
            s@ == "markdownlint"@,
    {
        "markdownlint"
    }

    /// Configuration file names for this linter.
    pub fn get_config_file_patterns(&self) -> (v: Vec<String>)
        ensures
            strings_model(v@) == md_config_files(),
    {
        let mut v: Vec<String> = Vec::new();
        push_str(&mut v, ".markdownlint.json");
        push_str(&mut v, ".markdownlint.jsonc");
        push_str(&mut v, ".markdownlint.yaml");
        push_str(&mut v, ".markdownlint.yml");
        push_str(&mut v, "markdownlint.json");
        push_str(&mut v, "markdownlint.yaml");
        push_str(&mut v, "markdownlint.yml");
        assert(strings_model(v@) =~= md_config_files());
        v
    }

    /// Rule identifier format of this linter.
    pub fn get_rule_format(&self) -> (s: &'static str)
        ensures
            s@ == "MDxxx"@,
    {
        "MDxxx"
    }

    /// Validate if a rule ID follows markdownlint format.
    pub fn validate_rule_id(&self, rule_id: &str) -> (b: bool)
        ensures
            b == md_valid_rule_id(rule_id@),
    {
        md_rule_id_ok(rule_id)
    }

    /// Get rule description from database.
    pub fn get_rule_description(&self, rule_id: &str) -> (r: Option<String>)
        ensures
            opt_chars(r) == lookup(md_rules(), rule_id@),
    {
        proof {
            use_type_invariant(self);
        }
        let key = to_chars(rule_id);
        lookup_text(&self.rule_database, &key)
    }

    /// Configuration file names (same as [`Self::get_config_file_patterns`]).
    pub fn get_config_files(&self) -> (v: Vec<String>)
        ensures
            strings_model(v@) == md_config_files(),
    {
        self.get_config_file_patterns()
    }
}

/// Whether a rule identifier has the form `MD` followed by three ASCII digits.
pub fn md_rule_id_ok(rule_id: &str) -> (b: bool)
    ensures
        b == md_valid_rule_id(rule_id@),
{
    let v = to_chars(rule_id);
    let md = to_chars("MD");
    if !crate::text::vec_starts_with(&v, &md) || v.len() != 5 {
        return false;
    }
    let mut i: usize = 2;
    while i < 5
        invariant
            v@ == rule_id@,
            v@.len() == 5,
            2 <= i <= 5,
            forall|t: int| 2 <= t < i ==> is_digit(v@[t]),
        decreases 5 - i,
    {
        if !('0' <= v[i] && v[i] <= '9') {
            return false;
        }
        i = i + 1;
    }
    true
}

proof fn lemma_md_extract_context(input: Seq<char>, k: int)
    ensures
        md_extract_from(input, k) matches Some(m) ==> m.context == md_context(input),
    decreases md_patterns().len() - k,
{
    if 0 <= k < md_patterns().len() {
        lemma_md_extract_context(input, k + 1);
    }
}

/// Law: the position a markdownlint line reports is read where it stands. The line number is
/// the number right after `<path>.md:` (the `line` group of `<path>.md:<line>[:<col>]`), the
/// column is the number after the line (the `col` group of `<path>.md:<line>:<col>`), never
/// the other way round; and a rule extracted from the line carries that position.
pub proof fn law_md_position(input: Seq<char>)
    ensures
        md_context(input).line_number == md_number(
            "[^\\s:]+\\.(md|markdown):(?P<line>\\d+)(?::\\d+)?"@,
            input,
        ),
        md_context(input).column == md_number("[^\\s:]+\\.(md|markdown):\\d+:(?P<col>\\d+)"@, input),
        md_extract(input) matches Some(m) ==> m.context == md_context(input),
{
    lemma_md_extract_context(input, 0);
}

} // verus!
