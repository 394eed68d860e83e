//! ESLint output: `line:col severity rule message` lines and `category/rule` identifiers.
use vstd::prelude::*;
use crate::analysis::{ConfigAction, ContextModel, ExtractedContext, MatchModel, RuleMatch, Severity, matches_model};
use crate::config::opt_chars;
use crate::linters::{lit, lookup, lookup_text, push_pair, push_str, strings_model, table_model};
use crate::pattern::{captures, get_group, group, regex_captures};
use crate::text::{
    chars_to_string, count_char, has_sub, is_prefix, nonempty_trimmed_lines, parse_u32,
    parse_u32_spec, split_words, str_contains, str_count_char, str_has_char, str_trim, to_chars,
    trim, trim_vec, trimmed_lines, vec_starts_with, vecs_model, words,
};

verus! {

/// Patterns for ESLint output, tried in order.
pub open spec fn eslint_patterns() -> Seq<Seq<char>> {
    seq![
        "(\\d+):(\\d+)\\s+error\\s+(\\w+)\\s+(.+)"@,
        "(\\d+):(\\d+)\\s+warn\\s+(\\w+)\\s+(.+)"@,
        "(\\d+):(\\d+)\\s+(\\w+)\\s+(\\w+)\\s+(.+)"@,
        "(\\d+):(\\d+)\\s+(\\w+)\\s+(\\w+)/(\\w+)\\s+(.+)"@,
        "(\\w+)/(\\w+):\\s*(.+)"@,
        "(\\w+)/(\\w+)\\s+\\((\\w+)\\)\\s+(.+)"@,
        "eslint:\\s*(\\w+)"@
    ]
}

/// Descriptions of common ESLint rules.
pub open spec fn eslint_descriptions() -> Seq<(Seq<char>, Seq<char>)> {
    seq![
        ("no-unused-vars"@, "Disallow unused variables"@),
        ("no-console"@, "Disallow the use of console"@),
        ("eqeqeq"@, "Require === and !=="@),
        ("quotes"@, "Enforce the consistent use of quotes"@),
        ("semi"@, "Require or disallow semicolons"@),
        ("prefer-const"@, "Suggest using const"@),
        ("no-undef"@, "Disallow the use of undeclared variables"@),
        ("no-extra-semi"@, "Disallow unnecessary semicolons"@),
        ("no-redeclare"@, "Disallow variable redeclaration"@),
        ("no-eval"@, "Disallow the use of eval()"@),
        ("no-debugger"@, "Disallow the use of debugger"@),
        ("curly"@, "Require consistent brace style for all control statements"@),
        ("no-trailing-spaces"@, "Disallow trailing whitespace at the end of lines"@),
        ("comma-dangle"@, "Require or disallow trailing commas"@),
        ("no-mixed-spaces-and-tabs"@, "Disallow mixed spaces and tabs for indentation"@),
        ("no-empty"@, "Disallow empty block statements"@),
        ("no-use-before-define"@, "Disallow the use of variables before they are defined"@),
        ("no-shadow"@, "Disallow variable declarations from shadowing variables declared in the outer scope"@),
        ("consistent-return"@, "Require return statements to either always or never specify values"@)
    ]
}

/// The severity an ESLint severity word names.
pub open spec fn severity_of(word: Seq<char>) -> Option<Severity> {
    if word == "error"@ {
        Some(Severity::Error)
    } else if word == "warn"@ {
        Some(Severity::Warning)
    } else if word == "info"@ {
        Some(Severity::Info)
    } else if word == "off"@ {
        Some(Severity::Off)
    } else {
        None
    }
}

/// `a`, a slash, then `b`.
pub open spec fn slash_join(a: Seq<char>, b: Seq<char>) -> Seq<char> {
    a + "/"@ + b
}

/// The rule a regular-expression match names: group 1 for the bare `eslint:` form, else
/// group 3, else groups 4 and 5 or 1 and 2 joined by a slash.
pub open spec fn rule_of_captures(c: Seq<Option<Seq<char>>>, t: Seq<char>) -> Option<Seq<char>> {
    if c.len() == 2 && is_prefix("eslint:"@, t) && group(c, 1) is Some {
        group(c, 1)
    } else if c.len() >= 5 && group(c, 3) is Some {
        group(c, 3)
    } else if c.len() >= 6 && group(c, 4) is Some && group(c, 5) is Some {
        Some(slash_join(group(c, 4)->0, group(c, 5)->0))
    } else if c.len() >= 3 && group(c, 1) is Some && group(c, 2) is Some {
        Some(slash_join(group(c, 1)->0, group(c, 2)->0))
    } else {
        None
    }
}

/// The rule named by the first pattern, from the `k`-th on, that matches and names one.
pub open spec fn rule_from(t: Seq<char>, k: int) -> Option<Seq<char>>
    decreases eslint_patterns().len() - k,
{
    if k < 0 || k >= eslint_patterns().len() {
        None
    } else {
        match regex_captures(eslint_patterns()[k], t) {
            Some(c) => match rule_of_captures(c, t) {
                Some(r) => Some(r),
                None => rule_from(t, k + 1),
            },
            None => rule_from(t, k + 1),
        }
    }
}

/// The rule identifier in a line of ESLint output.
pub open spec fn eslint_rule_id(input: Seq<char>) -> Option<Seq<char>> {
    let t = trim(input);
    let w = words(t);
    if is_prefix("eslint:"@, t) {
        Some(trim(t.subrange(7, t.len() as int)))
    } else if (has_sub(t, "error"@) || has_sub(t, "warn"@)) && w.len() >= 4 && (w[1] == "error"@
        || w[1] == "warn"@) {
        Some(w[2])
    } else {
        rule_from(t, 0)
    }
}

/// The severity named by the first pattern, from the `k`-th on, that matches with a
/// severity group.
pub open spec fn severity_from(t: Seq<char>, k: int) -> Option<Severity>
    decreases eslint_patterns().len() - k,
{
    if k < 0 || k >= eslint_patterns().len() {
        None
    } else {
        match regex_captures(eslint_patterns()[k], t) {
            Some(c) => if c.len() >= 4 && group(c, 3) is Some {
                severity_of(group(c, 3)->0)
            } else if c.len() >= 3 && group(c, 2) is Some {
                severity_of(group(c, 2)->0)
            } else {
                severity_from(t, k + 1)
            },
            None => severity_from(t, k + 1),
        }
    }
}

/// The severity of a line of ESLint output: the first severity word it contains, else the
/// one a pattern captures.
pub open spec fn eslint_severity(input: Seq<char>) -> Option<Severity> {
    let t = trim(input);
    if has_sub(t, "error"@) {
        Some(Severity::Error)
    } else if has_sub(t, "warn"@) {
        Some(Severity::Warning)
    } else if has_sub(t, "info"@) {
        Some(Severity::Info)
    } else if has_sub(t, "off"@) {
        Some(Severity::Off)
    } else {
        severity_from(t, 0)
    }
}

/// A captured number.
pub open spec fn number_group(c: Seq<Option<Seq<char>>>, i: int) -> Option<u32> {
    match group(c, i) {
        Some(t) => parse_u32_spec(t),
        None => None,
    }
}

/// The captured group, trimmed.
pub open spec fn trimmed_group(c: Seq<Option<Seq<char>>>, i: int) -> Option<Seq<char>> {
    match group(c, i) {
        Some(t) => Some(trim(t)),
        None => None,
    }
}

/// The context from the first pattern, from the `k`-th on, that matches with six groups or
/// more: line, column and the last group as message.
pub open spec fn context_from(input: Seq<char>, k: int) -> ContextModel
    decreases eslint_patterns().len() - k,
{
    if k < 0 || k >= eslint_patterns().len() {
        ContextModel {
            file_path: None,
            line_number: None,
            column: None,
            message: Some(trim(input)),
            severity: eslint_severity(input),
        }
    } else {
        match regex_captures(eslint_patterns()[k], input) {
            Some(c) => if c.len() >= 6 {
                ContextModel {
                    file_path: None,
                    line_number: number_group(c, 1),
                    column: number_group(c, 2),
                    message: trimmed_group(c, c.len() - 1),
                    severity: eslint_severity(input),
                }
            } else {
                context_from(input, k + 1)
            },
            None => context_from(input, k + 1),
        }
    }
}

/// The context of a line of ESLint output.
pub open spec fn eslint_context(input: Seq<char>) -> ContextModel {
    context_from(input, 0)
}

/// Confidence of an ESLint match: six tenths, two more for a colon and a space, two for an
/// identifiable rule, one for a severity, one for a slash and a colon, one for two colons or
/// more; capped at certainty.
pub open spec fn eslint_confidence(input: Seq<char>) -> u32 {
    let c = 6000 + (if input.contains(':') && input.contains(' ') {
        2000int
    } else {
        0
    }) + (if eslint_rule_id(input) is Some {
        2000int
    } else {
        0
    }) + (if eslint_severity(input) is Some {
        1000int
    } else {
        0
    }) + (if input.contains('/') && input.contains(':') {
        1000int
    } else {
        0
    }) + (if count_char(input, ':') >= 2 {
        1000int
    } else {
        0
    });
    if c > 10000 {
        10000
    } else {
        c as u32
    }
}

/// The action suggested for an ESLint rule of the given severity.
pub open spec fn eslint_action(rule_id: Seq<char>, severity: Option<Severity>) -> ConfigAction {
    match severity {
        Some(Severity::Error) => ConfigAction::Disable,
        Some(Severity::Warning) => ConfigAction::Ignore,
        Some(Severity::Info) => ConfigAction::Modify,
        Some(Severity::Hint) => ConfigAction::Modify,
        Some(Severity::Off) => ConfigAction::Enable,
        None => if has_sub(rule_id, "no-"@) {
            ConfigAction::Disable
        } else {
            ConfigAction::Ignore
        },
    }
}

/// The ESLint match for one line, when the line names a rule.
pub open spec fn eslint_match(line: Seq<char>) -> Option<MatchModel> {
    match eslint_rule_id(line) {
        Some(id) => Some(
            MatchModel {
                rule_id: id,
                linter: "eslint"@,
                confidence: eslint_confidence(line),
                context: eslint_context(line),
                suggested_action: eslint_action(id, eslint_context(line).severity),
            },
        ),
        None => None,
    }
}

/// The matches of each line in turn, for the lines that name a rule.
pub open spec fn eslint_extract_lines(lines: Seq<Seq<char>>) -> Seq<MatchModel>
    decreases lines.len(),
{
    if lines.len() == 0 {
        Seq::empty()
    } else {
        eslint_extract_lines(lines.drop_last()) + match eslint_match(lines.last()) {
            Some(m) => seq![m],
            None => Seq::empty(),
        }
    }
}

/// Whether a text looks like ESLint output.
pub open spec fn eslint_can_handle(input: Seq<char>) -> bool {
    ||| has_sub(input, "eslint"@)
    ||| count_char(input, ':') >= 2
    ||| has_sub(input, "error"@)
    ||| has_sub(input, "warn"@)
    ||| (input.contains('/') && input.contains(':') && !has_sub(input, "prettier"@))
    ||| eslint_rule_id(input) is Some
}

/// The part of `id` after its first slash at or after position `i`, or all of `id`.
pub open spec fn after_slash_from(id: Seq<char>, i: int) -> Seq<char>
    decreases id.len() - i,
{
    if i < 0 || i >= id.len() {
        id
    } else if id[i] == '/' {
        id.subrange(i + 1, id.len() as int)
    } else {
        after_slash_from(id, i + 1)
    }
}

/// The part of a rule identifier after its first slash, or the whole identifier.
pub open spec fn after_first_slash(id: Seq<char>) -> Seq<char> {
    after_slash_from(id, 0)
}

/// Configuration file names ESLint reads.
pub open spec fn eslint_config_files() -> Seq<Seq<char>> {
    seq![".eslintrc.js"@, ".eslintrc.json"@, ".eslintrc.yaml"@, ".eslintrc.yml"@, "eslint.config.js"@]
}

/// ESLint linter handler.
#[derive(Debug)]
pub struct ESLintHandler {
    rule_patterns: Vec<String>,
    severity_words: Vec<String>,
    rule_descriptions: Vec<(String, String)>,
}

fn severity_word(w: &Vec<char>) -> (r: Option<Severity>)
    ensures
        r == severity_of(w@),
{
    if crate::text::vec_equal(w, &to_chars("error")) {
        Some(Severity::Error)
    } else if crate::text::vec_equal(w, &to_chars("warn")) {
        Some(Severity::Warning)
    } else if crate::text::vec_equal(w, &to_chars("info")) {
        Some(Severity::Info)
    } else if crate::text::vec_equal(w, &to_chars("off")) {
        Some(Severity::Off)
    } else {
        None
    }
}

fn after_slash(v: &Vec<char>) -> (r: Vec<char>)
    ensures
        r@ == after_first_slash(v@),
{
    let mut i: usize = 0;
    while i < v.len()
        invariant
            i <= v@.len(),
            after_first_slash(v@) == after_slash_from(v@, i as int),
        decreases v@.len() - i,
    {
        if v[i] == '/' {
            let mut rest: Vec<char> = Vec::new();
            let mut k: usize = i + 1;
            while k < v.len()
                invariant
                    i < v@.len(),
                    i + 1 <= k <= v@.len(),
                    rest@ == v@.subrange(i + 1, k as int),
                decreases v@.len() - k,
            {
                rest.push(v[k]);
                assert(v@.subrange(i + 1, k + 1) == v@.subrange(i + 1, k as int).push(v@[k as int]));
                k = k + 1;
            }
            return rest;
        }
        i = i + 1;
    }
    v.clone()
}

fn join_with_slash(a: &String, b: &String) -> (r: String)
    ensures
        r@ == slash_join(a@, b@),
{
    let mut r = a.clone();
    r.append("/");
    r.append(b.as_str());
    r
}

impl ESLintHandler {
    /// The handler always holds the ESLint patterns and rule descriptions.
    #[verifier::type_invariant]
    spec fn inv(self) -> bool {
        &&& strings_model(self.rule_patterns@) == eslint_patterns()
        &&& strings_model(self.severity_words@) == seq!["error"@, "warn"@, "info"@, "off"@]
        &&& table_model(self.rule_descriptions@) == eslint_descriptions()
    }

    /// The rule patterns the handler holds.
    pub closed spec fn patterns_spec(&self) -> Seq<Seq<char>> {
        strings_model(self.rule_patterns@)
    }

    /// The severity words the handler knows.
    pub closed spec fn severities_spec(&self) -> Seq<Seq<char>> {
        strings_model(self.severity_words@)
    }

    /// The rule descriptions (identifier, description) the handler holds.
    pub closed spec fn descriptions_spec(&self) -> Seq<(Seq<char>, Seq<char>)> {
        table_model(self.rule_descriptions@)
    }

    /// Create a new ESLint handler.
    #[verifier::spinoff_prover]
    #[verifier::rlimit(40)]
    pub fn new() -> (h: Self)
        ensures
            h.patterns_spec() == eslint_patterns(),
            h.severities_spec() == seq!["error"@, "warn"@, "info"@, "off"@],
            h.descriptions_spec() == eslint_descriptions(),
    {
        let mut rule_patterns: Vec<String> = Vec::new();
        push_str(&mut rule_patterns, "(\\d+):(\\d+)\\s+error\\s+(\\w+)\\s+(.+)");
        push_str(&mut rule_patterns, "(\\d+):(\\d+)\\s+warn\\s+(\\w+)\\s+(.+)");
        push_str(&mut rule_patterns, "(\\d+):(\\d+)\\s+(\\w+)\\s+(\\w+)\\s+(.+)");
        push_str(&mut rule_patterns, "(\\d+):(\\d+)\\s+(\\w+)\\s+(\\w+)/(\\w+)\\s+(.+)");
        push_str(&mut rule_patterns, "(\\w+)/(\\w+):\\s*(.+)");
        push_str(&mut rule_patterns, "(\\w+)/(\\w+)\\s+\\((\\w+)\\)\\s+(.+)");
        push_str(&mut rule_patterns, "eslint:\\s*(\\w+)");
        assert(strings_model(rule_patterns@) =~= eslint_patterns());
        let mut severity_words: Vec<String> = Vec::new();
        push_str(&mut severity_words, "error");
        push_str(&mut severity_words, "warn");
        push_str(&mut severity_words, "info");
        push_str(&mut severity_words, "off");
        assert(strings_model(severity_words@) =~= seq!["error"@, "warn"@, "info"@, "off"@]);
        let mut descriptions: Vec<(String, String)> = Vec::new();
        push_pair(&mut descriptions, "no-unused-vars", "Disallow unused variables");
        push_pair(&mut descriptions, "no-console", "Disallow the use of console");
        push_pair(&mut descriptions, "eqeqeq", "Require === and !==");
        push_pair(&mut descriptions, "quotes", "Enforce the consistent use of quotes");
        push_pair(&mut descriptions, "semi", "Require or disallow semicolons");
        push_pair(&mut descriptions, "prefer-const", "Suggest using const");
        push_pair(&mut descriptions, "no-undef", "Disallow the use of undeclared variables");
        push_pair(&mut descriptions, "no-extra-semi", "Disallow unnecessary semicolons");
        push_pair(&mut descriptions, "no-redeclare", "Disallow variable redeclaration");
        push_pair(&mut descriptions, "no-eval", "Disallow the use of eval()");
        push_pair(&mut descriptions, "no-debugger", "Disallow the use of debugger");
        push_pair(&mut descriptions, "curly", "Require consistent brace style for all control statements");
        push_pair(&mut descriptions, "no-trailing-spaces", "Disallow trailing whitespace at the end of lines");
        push_pair(&mut descriptions, "comma-dangle", "Require or disallow trailing commas");
        push_pair(&mut descriptions, "no-mixed-spaces-and-tabs", "Disallow mixed spaces and tabs for indentation");
        push_pair(&mut descriptions, "no-empty", "Disallow empty block statements");
        push_pair(&mut descriptions, "no-use-before-define", "Disallow the use of variables before they are defined");
        push_pair(&mut descriptions, "no-shadow", "Disallow variable declarations from shadowing variables declared in the outer scope");
        push_pair(&mut descriptions, "consistent-return", "Require return statements to either always or never specify values");
        assert(table_model(descriptions@) =~= eslint_descriptions());
        ESLintHandler { rule_patterns, severity_words, rule_descriptions: descriptions }
    }

    /// Number of patterns.
    pub fn pattern_count(&self) -> (n: usize)
        ensures
            n == eslint_patterns().len(),
    {
        proof {
            use_type_invariant(self);
        }
        self.rule_patterns.len()
    }

    /// Number of severity words understood.
    pub fn severity_count(&self) -> (n: usize)
        ensures
            n == 4,
    {
        proof {
            use_type_invariant(self);
            assert(strings_model(self.severity_words@).len() == 4);
        }
        self.severity_words.len()
    }

    /// Get rule description if known (accepts `category/rule` or `rule`).
    pub fn get_rule_description(&self, rule_id: &str) -> (r: Option<String>)
        ensures
            opt_chars(r) == lookup(eslint_descriptions(), after_first_slash(rule_id@)),
    {
        proof {
            use_type_invariant(self);
        }
        let v = to_chars(rule_id);
        let rest = after_slash(&v);
        lookup_text(&self.rule_descriptions, &rest)
    }

    fn rule_of_caps(c: &Vec<Option<String>>, t: &Vec<char>) -> (r: Option<String>)
        ensures
            opt_chars(r) == rule_of_captures(c@.map_values(|o: Option<String>| opt_chars(o)), t@),
    {
        let ghost cm = c@.map_values(|o: Option<String>| opt_chars(o));
        let g1 = get_group(c, 1);
        let g2 = get_group(c, 2);
        let g3 = get_group(c, 3);
        let g4 = get_group(c, 4);
        let g5 = get_group(c, 5);
        if c.len() == 2 && vec_starts_with(t, &to_chars("eslint:")) && g1.is_some() {
            return g1;
        }
        if c.len() >= 5 && g3.is_some() {
            return g3;
        }
        if c.len() >= 6 {
            match (&g4, &g5) {
                (Some(a), Some(b)) => {
                    return Some(join_with_slash(a, b));
                },
                _ => {},
            }
        }
        if c.len() >= 3 {
            match (&g1, &g2) {
                (Some(a), Some(b)) => {
                    return Some(join_with_slash(a, b));
                },
                _ => {},
            }
        }
        None
    }

    /// Extract rule ID from ESLint output.
    pub fn extract_rule_id(&self, input: &str) -> (r: Option<String>)
        ensures
            opt_chars(r) == eslint_rule_id(input@),
    {
        proof {
            use_type_invariant(self);
        }
        let t = str_trim(input);
        let tv = to_chars(t.as_str());
        let ghost w = words(tv@);
        proof {
            reveal_strlit("eslint:");
        }
        if vec_starts_with(&tv, &to_chars("eslint:")) {
            let mut rest: Vec<char> = Vec::new();
            let mut k: usize = 7;
            while k < tv.len()
                invariant
                    7 <= tv@.len(),
                    7 <= k <= tv@.len(),
                    rest@ == tv@.subrange(7, k as int),
                decreases tv@.len() - k,
            {
                rest.push(tv[k]);
                assert(tv@.subrange(7, k + 1) == tv@.subrange(7, k as int).push(tv@[k as int]));
                k = k + 1;
            }
            let trimmed = trim_vec(&rest);
            return Some(chars_to_string(&trimmed));
        }
        if str_contains(t.as_str(), "error") || str_contains(t.as_str(), "warn") {
            let parts = split_words(&tv);
            if parts.len() >= 4 {
                assert(parts@[1]@ == w[1]);
                assert(parts@[2]@ == w[2]);
                if crate::text::vec_equal(&parts[1], &to_chars("error"))
                    || crate::text::vec_equal(&parts[1], &to_chars("warn")) {
                    return Some(chars_to_string(&parts[2]));
                }
            }
        }
        let mut k: usize = 0;
        while k < self.rule_patterns.len()
            invariant
                strings_model(self.rule_patterns@) == eslint_patterns(),
                k <= self.rule_patterns@.len(),
                tv@ == t@,
                t@ == trim(input@),
                eslint_rule_id(input@) == rule_from(t@, 0),
                rule_from(t@, 0) == rule_from(t@, k as int),
            decreases self.rule_patterns@.len() - k,
        {
            assert(self.rule_patterns@[k as int]@ == eslint_patterns()[k as int]);
            match captures(self.rule_patterns[k].as_str(), t.as_str()) {
                Some(c) => {
                    let r = Self::rule_of_caps(&c, &tv);
                    assert(regex_captures(eslint_patterns()[k as int], t@) == Some(
                        c@.map_values(|o: Option<String>| opt_chars(o)),
                    ));
                    if r.is_some() {
                        return r;
                    }
                },
                None => {},
            }
            k = k + 1;
        }
        None
    }

    fn severity_of_caps(c: &Vec<Option<String>>) -> (r: Option<Option<Severity>>)
        ensures
            ({
                let cm = c@.map_values(|o: Option<String>| opt_chars(o));
                if c@.len() >= 4 && group(cm, 3) is Some {
                    r == Some(severity_of(group(cm, 3)->0))
                } else if c@.len() >= 3 && group(cm, 2) is Some {
                    r == Some(severity_of(group(cm, 2)->0))
                } else {
                    r is None
                }
            }),
    {
        let g3 = get_group(c, 3);
        let g2 = get_group(c, 2);
        if c.len() >= 4 {
            match &g3 {
                Some(s) => {
                    return Some(severity_word(&to_chars(s.as_str())));
                },
                None => {},
            }
        }
        if c.len() >= 3 {
            match &g2 {
                Some(s) => {
                    return Some(severity_word(&to_chars(s.as_str())));
                },
                None => {},
            }
        }
        None
    }

    /// Extract severity from ESLint output.
    pub fn extract_severity(&self, input: &str) -> (r: Option<Severity>)
        ensures
            r == eslint_severity(input@),
    {
        proof {
            use_type_invariant(self);
        }
        let t = str_trim(input);
        if str_contains(t.as_str(), "error") {
            return Some(Severity::Error);
        } else if str_contains(t.as_str(), "warn") {
            return Some(Severity::Warning);
        } else if str_contains(t.as_str(), "info") {
            return Some(Severity::Info);
        } else if str_contains(t.as_str(), "off") {
            return Some(Severity::Off);
        }
        let mut k: usize = 0;
        while k < self.rule_patterns.len()
            invariant
                strings_model(self.rule_patterns@) == eslint_patterns(),
                k <= self.rule_patterns@.len(),
                t@ == trim(input@),
                eslint_severity(input@) == severity_from(t@, 0),
                severity_from(t@, 0) == severity_from(t@, k as int),
            decreases self.rule_patterns@.len() - k,
        {
            assert(self.rule_patterns@[k as int]@ == eslint_patterns()[k as int]);
            match captures(self.rule_patterns[k].as_str(), t.as_str()) {
                Some(c) => {
                    assert(regex_captures(eslint_patterns()[k as int], t@) == Some(
                        c@.map_values(|o: Option<String>| opt_chars(o)),
                    ));
                    match Self::severity_of_caps(&c) {
                        Some(s) => {
                            return s;
                        },
                        None => {},
                    }
                },
                None => {},
            }
            k = k + 1;
        }
        None
    }

    fn number_of(c: &Vec<Option<String>>, i: usize) -> (r: Option<u32>)
        ensures
            r == number_group(c@.map_values(|o: Option<String>| opt_chars(o)), i as int),
    {
        match get_group(c, i) {
            Some(s) => parse_u32(&to_chars(s.as_str())),
            None => None,
        }
    }

    /// Extract context information from ESLint output.
    pub fn extract_context(&self, input: &str) -> (r: ExtractedContext)
        ensures
            r@ == eslint_context(input@),
    {
        proof {
            use_type_invariant(self);
        }
        let mut k: usize = 0;
        while k < self.rule_patterns.len()
            invariant
                strings_model(self.rule_patterns@) == eslint_patterns(),
                k <= self.rule_patterns@.len(),
                context_from(input@, 0) == context_from(input@, k as int),
            decreases self.rule_patterns@.len() - k,
        {
            assert(self.rule_patterns@[k as int]@ == eslint_patterns()[k as int]);
            match captures(self.rule_patterns[k].as_str(), input) {
                Some(c) => {
                    if c.len() >= 6 {
                        let ghost cm = c@.map_values(|o: Option<String>| opt_chars(o));
                        let message = match get_group(&c, c.len() - 1) {
                            Some(m) => Some(str_trim(m.as_str())),
                            None => None,
                        };
                        assert(opt_chars(message) == trimmed_group(cm, c@.len() - 1));
                        return ExtractedContext {
                            file_path: None,
                            line_number: Self::number_of(&c, 1),
                            column: Self::number_of(&c, 2),
                            message,
                            severity: self.extract_severity(input),
                        };
                    }
                },
                None => {},
            }
            k = k + 1;
        }
        ExtractedContext {
            file_path: None,
            line_number: None,
            column: None,
            message: Some(str_trim(input)),
            severity: self.extract_severity(input),
        }
    }

    /// Calculate confidence score for ESLint rule.
    pub fn calculate_confidence(&self, input: &str) -> (c: u32)
        ensures
            c == eslint_confidence(input@),
    {
        let mut confidence: u32 = 6000;
        if str_has_char(input, ':') && str_has_char(input, ' ') {
            confidence = confidence + 2000;
        }
        if self.extract_rule_id(input).is_some() {
            confidence = confidence + 2000;
        }
        if self.extract_severity(input).is_some() {
            confidence = confidence + 1000;
        }
        if str_has_char(input, '/') && str_has_char(input, ':') {
            confidence = confidence + 1000;
        }
        if str_count_char(input, ':') >= 2 {
            confidence = confidence + 1000;
        }
        if confidence > 10000 {
            10000
        } else {
            confidence
        }
    }

    /// Suggest action based on ESLint rule and severity.
    pub fn suggest_action(&self, rule_id: &str, severity: Option<&Severity>) -> (a: ConfigAction)
        ensures
            a == eslint_action(
                rule_id@,
                match severity {
                    Some(s) => Some(*s),
                    None => None,
                },
            ),
    {
        match severity {
            Some(Severity::Error) => ConfigAction::Disable,
            Some(Severity::Warning) => ConfigAction::Ignore,
            Some(Severity::Info) => ConfigAction::Modify,
            Some(Severity::Hint) => ConfigAction::Modify,
            Some(Severity::Off) => ConfigAction::Enable,
            None => {
                if str_contains(rule_id, "no-") {
                    ConfigAction::Disable
                } else {
                    ConfigAction::Ignore
                }
            },
        }
    }

    /// Whether a text looks like ESLint output.
    pub fn can_handle(&self, input: &str) -> (b: bool)
        ensures
            b == eslint_can_handle(input@),
    {
        str_contains(input, "eslint") || str_count_char(input, ':') >= 2 || str_contains(
            input,
            "error",
        ) || str_contains(input, "warn") || (str_has_char(input, '/') && str_has_char(input, ':')
            && !str_contains(input, "prettier")) || self.extract_rule_id(input).is_some()
    }

    /// The match for one line, when it names a rule.
    pub fn match_line(&self, line: &str) -> (r: Option<RuleMatch>)
        ensures
            match r {
                Some(m) => eslint_match(line@) == Some(m@),
                None => eslint_match(line@) is None,
            },
    {
        match self.extract_rule_id(line) {
            Some(rule_id) => {
                let context = self.extract_context(line);
                let confidence = self.calculate_confidence(line);
                let suggested_action = self.suggest_action(rule_id.as_str(), context.severity.as_ref());
                Some(RuleMatch { rule_id, linter: lit("eslint"), confidence, context, suggested_action })
            },
            None => None,
        }
    }

    /// Extract the rules of every non-empty line of output.
    pub fn extract_rules(&self, input: &str) -> (r: Vec<RuleMatch>)
        ensures
            matches_model(r@) == eslint_extract_lines(trimmed_lines(input@)),
    {
        let lines = nonempty_trimmed_lines(input);
        let ghost ls = trimmed_lines(input@);
        let mut rules: Vec<RuleMatch> = Vec::new();
        let mut i: usize = 0;
        while i < lines.len()
            invariant
                vecs_model(lines@) == ls,
                i <= lines@.len(),
                matches_model(rules@) == eslint_extract_lines(ls.take(i as int)),
            decreases lines@.len() - i,
        {
            let line = chars_to_string(&lines[i]);
            assert(line@ == ls[i as int]);
            assert(ls.take(i + 1).drop_last() == ls.take(i as int));
            match self.match_line(line.as_str()) {
                Some(m) => {
                    rules.push(m);
                    assert(matches_model(rules@) =~= matches_model(rules@.drop_last()).push(m@));
                },
                None => {},
            }
            assert(matches_model(rules@) =~= eslint_extract_lines(ls.take(i + 1)));
            i = i + 1;
        }
        assert(ls.take(lines@.len() as int) == ls);
        rules
    }

    /// Name of the linter.
    pub fn get_linter_name(&self) -> (s: &'static str)
        ensures
            s@ == "eslint"@,
    {
        "eslint"
    }

    /// Configuration file names for this linter.
    pub fn get_config_file_patterns(&self) -> (v: Vec<String>)
        ensures
            strings_model(v@) == eslint_config_files(),
    {
        let mut v: Vec<String> = Vec::new();
        push_str(&mut v, ".eslintrc.js");
        push_str(&mut v, ".eslintrc.json");
        push_str(&mut v, ".eslintrc.yaml");
        push_str(&mut v, ".eslintrc.yml");
        push_str(&mut v, "eslint.config.js");
        assert(strings_model(v@) =~= eslint_config_files());
        v
    }

    /// Rule identifier format of this linter.
    pub fn get_rule_format(&self) -> (s: &'static str)
        ensures
            s@ == "category/rule-name"@,
    {
        "category/rule-name"
    }
}

} // verus!
