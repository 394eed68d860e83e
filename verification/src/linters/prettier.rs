//! Prettier output: formatting messages mapped to Prettier options.
use vstd::prelude::*;
use crate::analysis::{ConfigAction, ContextModel, ExtractedContext, MatchModel, RuleMatch, Severity, matches_model};
use crate::config::opt_chars;
use crate::linters::{lit, push_pair, push_str, strings_model, table_model};
use crate::pattern::{captures, get_group, group, is_valid_json, json_parses, regex_captures};
use crate::text::{
    alphanumeric, chars_to_string, has_sub, is_alphanumeric, lowercase, nonempty_trimmed_lines,
    str_contains, str_trim, to_chars, to_lowercase, trim, trimmed_lines, vec_contains, vec_equal,
    vecs_model,
};

verus! {

/// Patterns for Prettier output, tried in order; group 1 is the message.
pub open spec fn prettier_patterns() -> Seq<Seq<char>> {
    seq![
        "prettier/prettier:\\s*(.+)"@,
        "Code style issues found:\\s*(.+)"@,
        "Formatting error:\\s*(.+)"@,
        "prettier:\\s*(.+)"@
    ]
}

/// Prettier options and what each is about.
pub open spec fn prettier_options() -> Seq<(Seq<char>, Seq<char>)> {
    seq![
        ("semi"@, "Add or remove semicolons"@),
        ("singleQuote"@, "Use single quotes"@),
        ("trailingComma"@, "Add trailing commas"@),
        ("printWidth"@, "Line width exceeded"@),
        ("tabWidth"@, "Incorrect indentation width"@),
        ("useTabs"@, "Use tabs or spaces"@),
        ("bracketSpacing"@, "Spaces in brackets"@),
        ("arrowParens"@, "Parentheses around arrow function parameters"@),
        ("endOfLine"@, "Inconsistent line endings"@),
        ("quoteProps"@, "Property name quoting"@),
        ("jsxSingleQuote"@, "JSX quote style"@),
        ("proseWrap"@, "Markdown prose wrapping"@),
        ("htmlWhitespaceSensitivity"@, "HTML whitespace sensitivity"@),
        ("vueIndentScriptAndStyle"@, "Indent Vue script/style"@),
        ("embeddedLanguageFormatting"@, "Format contents of template strings"@)
    ]
}

/// Words that mark formatting output.
pub open spec fn formatting_keywords() -> Seq<Seq<char>> {
    seq!["format"@, "style"@, "semi"@, "quote"@, "comma"@, "width"@, "tab"@]
}

/// Pieces of `s` between characters that are not alphanumeric, built left to right.
pub open spec fn token_fold(s: Seq<char>) -> (Seq<Seq<char>>, Seq<char>)
    decreases s.len(),
{
    if s.len() == 0 {
        (Seq::empty(), Seq::empty())
    } else {
        let (done, cur) = token_fold(s.drop_last());
        if !alphanumeric(s.last()) {
            (done.push(cur), Seq::empty())
        } else {
            (done, cur.push(s.last()))
        }
    }
}

/// The pieces of `s` between non-alphanumeric characters, empty pieces included (as
/// `str::split` with that predicate).
pub open spec fn tokens(s: Seq<char>) -> Seq<Seq<char>> {
    let (done, cur) = token_fold(s);
    done.push(cur)
}

/// The option names whose lower-case form occurs in the lower-case message.
pub open spec fn candidates(msg_lower: Seq<char>) -> Seq<Seq<char>> {
    prettier_options().map_values(|p: (Seq<char>, Seq<char>)| p.0).filter(
        |r: Seq<char>| has_sub(msg_lower, lowercase(r)),
    )
}

/// The first candidate, from the `i`-th on, whose lower-case form is one of the tokens.
pub open spec fn first_exact(c: Seq<Seq<char>>, toks: Seq<Seq<char>>, i: int) -> Option<Seq<char>>
    decreases c.len() - i,
{
    if i < 0 || i >= c.len() {
        None
    } else if toks.contains(lowercase(c[i])) {
        Some(c[i])
    } else {
        first_exact(c, toks, i + 1)
    }
}

/// `prettier/` followed by `name`.
pub open spec fn prettier_rule(name: Seq<char>) -> Seq<char> {
    "prettier/"@ + name
}

/// The rule for a matched line and its message: the general rule for `prettier/prettier:`
/// lines, else the one option the message mentions, else among several the first whose
/// name is a word of the message, else the general rule.
pub open spec fn rule_of_message(input: Seq<char>, msg: Seq<char>) -> Seq<char> {
    if has_sub(input, "prettier/prettier:"@) {
        "prettier/prettier"@
    } else {
        let ml = lowercase(msg);
        let c = candidates(ml);
        if c.len() == 1 {
            prettier_rule(c[0])
        } else if c.len() > 1 {
            match first_exact(c, tokens(ml), 0) {
                Some(r) => prettier_rule(r),
                None => "prettier/prettier"@,
            }
        } else {
            "prettier/prettier"@
        }
    }
}

/// The rule from the first pattern, from the `k`-th on, that matches with a message group.
pub open spec fn rule_from(input: Seq<char>, k: int) -> Option<Seq<char>>
    decreases prettier_patterns().len() - k,
{
    if k < 0 || k >= prettier_patterns().len() {
        None
    } else {
        match regex_captures(prettier_patterns()[k], input) {
            Some(c) => if c.len() >= 2 && group(c, 1) is Some {
                Some(rule_of_message(input, group(c, 1)->0))
            } else {
                rule_from(input, k + 1)
            },
            None => rule_from(input, k + 1),
        }
    }
}

/// The rule identifier in a line of Prettier output.
pub open spec fn prettier_rule_id(input: Seq<char>) -> Option<Seq<char>> {
    rule_from(input, 0)
}

/// The context from the first pattern, from the `k`-th on, that matches with a message.
pub open spec fn context_from(input: Seq<char>, k: int) -> ContextModel
    decreases prettier_patterns().len() - k,
{
    if k < 0 || k >= prettier_patterns().len() {
        ContextModel {
            file_path: None,
            line_number: None,
            column: None,
            message: Some(trim(input)),
            severity: Some(Severity::Warning),
        }
    } else {
        match regex_captures(prettier_patterns()[k], input) {
            Some(c) => if c.len() >= 2 && group(c, 1) is Some {
                ContextModel {
                    file_path: None,
                    line_number: None,
                    column: None,
                    message: Some(trim(group(c, 1)->0)),
                    severity: Some(Severity::Warning),
                }
            } else {
                context_from(input, k + 1)
            },
            None => context_from(input, k + 1),
        }
    }
}

/// The context of a line of Prettier output.
pub open spec fn prettier_context(input: Seq<char>) -> ContextModel {
    context_from(input, 0)
}

/// Whether the lower-case text holds one of the formatting keywords.
pub open spec fn mentions_formatting(input: Seq<char>) -> bool {
    exists|i: int| 0 <= i < formatting_keywords().len() && has_sub(lowercase(input), #[trigger] formatting_keywords()[i])
}

/// Confidence of a Prettier match: six tenths, two more when the text names Prettier, two
/// for an identifiable rule, one for a formatting keyword; capped at certainty.
pub open spec fn prettier_confidence(input: Seq<char>) -> u32 {
    let c = 6000 + (if has_sub(input, "prettier"@) {
        2000int
    } else {
        0
    }) + (if prettier_rule_id(input) is Some {
        2000int
    } else {
        0
    }) + (if mentions_formatting(input) {
        1000int
    } else {
        0
    });
    if c > 10000 {
        10000
    } else {
        c as u32
    }
}

/// The action suggested for a Prettier rule.
pub open spec fn prettier_action(rule_id: Seq<char>) -> ConfigAction {
    if has_sub(rule_id, "endOfLine"@) || has_sub(rule_id, "printWidth"@) {
        ConfigAction::Modify
    } else {
        ConfigAction::Ignore
    }
}

/// The Prettier match for one line, when the line yields a rule.
pub open spec fn prettier_match(line: Seq<char>) -> Option<MatchModel> {
    match prettier_rule_id(line) {
        Some(id) => Some(
            MatchModel {
                rule_id: id,
                linter: "prettier"@,
                confidence: prettier_confidence(line),
                context: prettier_context(line),
                suggested_action: prettier_action(id),
            },
        ),
        None => None,
    }
}

/// The matches of each line in turn.
pub open spec fn prettier_extract_lines(lines: Seq<Seq<char>>) -> Seq<MatchModel>
    decreases lines.len(),
{
    if lines.len() == 0 {
        Seq::empty()
    } else {
        prettier_extract_lines(lines.drop_last()) + match prettier_match(lines.last()) {
            Some(m) => seq![m],
            None => Seq::empty(),
        }
    }
}

/// Whether a text looks like Prettier output.
pub open spec fn prettier_can_handle(input: Seq<char>) -> bool {
    ||| has_sub(input, "prettier"@)
    ||| has_sub(input, "format"@)
    ||| has_sub(input, "style"@)
    ||| prettier_rule_id(input) is Some
}

/// Problems found in a Prettier configuration text.
pub open spec fn config_problems(config: Seq<char>) -> Seq<Seq<char>> {
    (if json_parses(config) {
        Seq::empty()
    } else {
        seq!["Invalid JSON format"@]
    }) + (if !has_sub(config, "semi"@) && !has_sub(config, "singleQuote"@) {
        seq!["Missing common Prettier options"@]
    } else {
        Seq::empty()
    })
}

/// Configuration file names Prettier reads.
pub open spec fn prettier_config_files() -> Seq<Seq<char>> {
    seq![
        ".prettierrc"@,
        ".prettierrc.js"@,
        ".prettierrc.json"@,
        ".prettierrc.yaml"@,
        ".prettierrc.yml"@,
        "prettier.config.js"@,
        "package.json"@,
    ]
}

/// Prettier linter handler.
#[derive(Debug)]
pub struct PrettierHandler {
    rule_patterns: Vec<String>,
    formatting_rules: Vec<(String, String)>,
}

fn tokens_of(s: &Vec<char>) -> (r: Vec<Vec<char>>)
    ensures
        vecs_model(r@) == tokens(s@),
{
    let mut done: Vec<Vec<char>> = Vec::new();
    let mut cur: Vec<char> = Vec::new();
    let mut i: usize = 0;
    while i < s.len()
        invariant
            i <= s@.len(),
            (vecs_model(done@), cur@) == token_fold(s@.take(i as int)),
        decreases s@.len() - i,
    {
        assert(s@.take(i + 1).drop_last() == s@.take(i as int));
        let c = s[i];
        if !is_alphanumeric(c) {
            let piece = cur;
            done.push(piece);
            cur = Vec::new();
            assert(vecs_model(done@) =~= vecs_model(done@.drop_last()).push(piece@));
        } else {
            cur.push(c);
        }
        i = i + 1;
    }
    assert(s@.take(s@.len() as int) == s@);
    let last = cur;
    done.push(last);
    assert(vecs_model(done@) =~= vecs_model(done@.drop_last()).push(last@));
    done
}

fn prefixed(name: &str) -> (r: String)
    ensures
        r@ == prettier_rule(name@),
{
    let mut r = lit("prettier/");
    r.append(name);
    r
}

fn mentions_formatting_text(input: &str) -> (b: bool)
    ensures
        b == mentions_formatting(input@),
{
    let lower = to_lowercase(input);
    let lv = to_chars(lower.as_str());
    let mut kws: Vec<String> = Vec::new();
    push_str(&mut kws, "format");
    push_str(&mut kws, "style");
    push_str(&mut kws, "semi");
    push_str(&mut kws, "quote");
    push_str(&mut kws, "comma");
    push_str(&mut kws, "width");
    push_str(&mut kws, "tab");
    assert(strings_model(kws@) =~= formatting_keywords());
    let mut i: usize = 0;
    while i < kws.len()
        invariant
            strings_model(kws@) == formatting_keywords(),
            lv@ == lowercase(input@),
            i <= kws@.len(),
            forall|t: int| 0 <= t < i ==> !has_sub(lowercase(input@), #[trigger] formatting_keywords()[t]),
        decreases kws@.len() - i,
    {
        let kv = to_chars(kws[i].as_str());
        assert(kws@[i as int]@ == formatting_keywords()[i as int]);
        if vec_contains(&lv, &kv) {
            return true;
        }
        i = i + 1;
    }
    false
}

impl PrettierHandler {
    /// The handler always holds the Prettier patterns and option table.
    #[verifier::type_invariant]
    spec fn inv(self) -> bool {
        &&& strings_model(self.rule_patterns@) == prettier_patterns()
        &&& table_model(self.formatting_rules@) == prettier_options()
    }

    /// The rule patterns the handler holds.
    pub closed spec fn patterns_spec(&self) -> Seq<Seq<char>> {
        strings_model(self.rule_patterns@)
    }

    /// The option table (option, description) the handler holds.
    pub closed spec fn options_spec(&self) -> Seq<(Seq<char>, Seq<char>)> {
        table_model(self.formatting_rules@)
    }

    /// Create a new Prettier handler.
    #[verifier::spinoff_prover]
    #[verifier::rlimit(40)]
    pub fn new() -> (h: Self)
        ensures
            h.patterns_spec() == prettier_patterns(),
            h.options_spec() == prettier_options(),
    {
        let mut rule_patterns: Vec<String> = Vec::new();
        push_str(&mut rule_patterns, "prettier/prettier:\\s*(.+)");
        push_str(&mut rule_patterns, "Code style issues found:\\s*(.+)");
        push_str(&mut rule_patterns, "Formatting error:\\s*(.+)");
        push_str(&mut rule_patterns, "prettier:\\s*(.+)");
        assert(strings_model(rule_patterns@) =~= prettier_patterns());
        let mut formatting_rules: Vec<(String, String)> = Vec::new();
        push_pair(&mut formatting_rules, "semi", "Add or remove semicolons");
        push_pair(&mut formatting_rules, "singleQuote", "Use single quotes");
        push_pair(&mut formatting_rules, "trailingComma", "Add trailing commas");
        push_pair(&mut formatting_rules, "printWidth", "Line width exceeded");
        push_pair(&mut formatting_rules, "tabWidth", "Incorrect indentation width");
        push_pair(&mut formatting_rules, "useTabs", "Use tabs or spaces");
        push_pair(&mut formatting_rules, "bracketSpacing", "Spaces in brackets");
        push_pair(&mut formatting_rules, "arrowParens", "Parentheses around arrow function parameters");
        push_pair(&mut formatting_rules, "endOfLine", "Inconsistent line endings");
        push_pair(&mut formatting_rules, "quoteProps", "Property name quoting");
        push_pair(&mut formatting_rules, "jsxSingleQuote", "JSX quote style");
        push_pair(&mut formatting_rules, "proseWrap", "Markdown prose wrapping");
        push_pair(&mut formatting_rules, "htmlWhitespaceSensitivity", "HTML whitespace sensitivity");
        push_pair(&mut formatting_rules, "vueIndentScriptAndStyle", "Indent Vue script/style");
        push_pair(&mut formatting_rules, "embeddedLanguageFormatting", "Format contents of template strings");
        assert(table_model(formatting_rules@) =~= prettier_options());
        PrettierHandler { rule_patterns, formatting_rules }
    }

    /// Number of patterns.
    pub fn pattern_count(&self) -> (n: usize)
        ensures
            n == prettier_patterns().len(),
    {
        proof {
            use_type_invariant(self);
        }
        self.rule_patterns.len()
    }

    /// Prettier configuration options with their descriptions.
    pub fn get_configuration_options(&self) -> (r: Vec<(String, String)>)
        ensures
            table_model(r@) == prettier_options(),
    {
        proof {
            use_type_invariant(self);
        }
        let mut r: Vec<(String, String)> = Vec::new();
        let mut i: usize = 0;
        while i < self.formatting_rules.len()
            invariant
                i <= self.formatting_rules@.len(),
                table_model(r@) == table_model(self.formatting_rules@).take(i as int),
            decreases self.formatting_rules@.len() - i,
        {
            let ghost before = r@;
            let a = self.formatting_rules[i].0.clone();
            let b = self.formatting_rules[i].1.clone();
            r.push((a, b));
            assert(r@ == before.push((a, b)));
            assert(table_model(r@) =~= table_model(before).push((a@, b@)));
            assert(table_model(self.formatting_rules@).take(i + 1) =~= table_model(
                self.formatting_rules@,
            ).take(i as int).push(table_model(self.formatting_rules@)[i as int]));
            i = i + 1;
        }
        assert(table_model(self.formatting_rules@).take(i as int) =~= table_model(self.formatting_rules@));
        r
    }

    fn option_candidates(&self, msg_lower: &String) -> (r: Vec<String>)
        ensures
            strings_model(r@) == candidates(msg_lower@),
    {
        proof {
            use_type_invariant(self);
        }
        let ghost names = prettier_options().map_values(|p: (Seq<char>, Seq<char>)| p.0);
        let ml = to_chars(msg_lower.as_str());
        let mut r: Vec<String> = Vec::new();
        let mut i: usize = 0;
        while i < self.formatting_rules.len()
            invariant
                table_model(self.formatting_rules@) == prettier_options(),
                names == prettier_options().map_values(|p: (Seq<char>, Seq<char>)| p.0),
                ml@ == msg_lower@,
                i <= self.formatting_rules@.len(),
                strings_model(r@) == names.take(i as int).filter(
                    |x: Seq<char>| has_sub(msg_lower@, lowercase(x)),
                ),
            decreases self.formatting_rules@.len() - i,
        {
            let name = &self.formatting_rules[i].0;
            assert(name@ == names[i as int]);
            let lower = to_lowercase(name.as_str());
            let lv = to_chars(lower.as_str());
            assert(names.take(i + 1).drop_last() =~= names.take(i as int));
            reveal_with_fuel(Seq::filter, 1);
            if vec_contains(&ml, &lv) {
                r.push(name.clone());
                assert(strings_model(r@) =~= strings_model(r@.drop_last()).push(name@));
            }
            i = i + 1;
        }
        assert(names.take(self.formatting_rules@.len() as int) =~= names);
        r
    }

    fn first_exact_candidate(c: &Vec<String>, toks: &Vec<Vec<char>>) -> (r: Option<usize>)
        ensures
            match r {
                Some(i) => i < c@.len() && first_exact(strings_model(c@), vecs_model(toks@), 0) == Some(c@[i as int]@),
                None => first_exact(strings_model(c@), vecs_model(toks@), 0) is None,
            },
    {
        let ghost cs = strings_model(c@);
        let ghost ts = vecs_model(toks@);
        let mut i: usize = 0;
        while i < c.len()
            invariant
                cs == strings_model(c@),
                ts == vecs_model(toks@),
                i <= c@.len(),
                first_exact(cs, ts, 0) == first_exact(cs, ts, i as int),
            decreases c@.len() - i,
        {
            let lower = to_lowercase(c[i].as_str());
            let lv = to_chars(lower.as_str());
            assert(cs[i as int] == c@[i as int]@);
            let mut j: usize = 0;
            let mut found = false;
            while j < toks.len()
                invariant
                    ts == vecs_model(toks@),
                    j <= toks@.len(),
                    lv@ == lowercase(cs[i as int]),
                    found == (exists|t: int| 0 <= t < j && ts[t] == lv@),
                decreases toks@.len() - j,
            {
                if vec_equal(&toks[j], &lv) {
                    found = true;
                }
                assert(ts[j as int] == toks@[j as int]@);
                j = j + 1;
            }
            if found {
                assert(ts.contains(lv@));
                return Some(i);
            }
            assert(!ts.contains(lv@)) by {
                if ts.contains(lv@) {
                    let t = choose|t: int| 0 <= t < ts.len() && ts[t] == lv@;
                    assert(ts[t] == lv@);
                }
            }
            i = i + 1;
        }
        None
    }

    fn rule_for_message(&self, input: &str, msg: &String) -> (r: String)
        ensures
            r@ == rule_of_message(input@, msg@),
    {
        if str_contains(input, "prettier/prettier:") {
            return lit("prettier/prettier");
        }
        let ml = to_lowercase(msg.as_str());
        let c = self.option_candidates(&ml);
        if c.len() == 1 {
            return prefixed(c[0].as_str());
        }
        if c.len() > 1 {
            let mlv = to_chars(ml.as_str());
            let toks = tokens_of(&mlv);
            match Self::first_exact_candidate(&c, &toks) {
                Some(i) => {
                    return prefixed(c[i].as_str());
                },
                None => {
                    return lit("prettier/prettier");
                },
            }
        }
        lit("prettier/prettier")
    }

    /// Extract rule ID from Prettier output.
    pub fn extract_rule_id(&self, input: &str) -> (r: Option<String>)
        ensures
            opt_chars(r) == prettier_rule_id(input@),
    {
        proof {
            use_type_invariant(self);
        }
        let mut k: usize = 0;
        while k < self.rule_patterns.len()
            invariant
                strings_model(self.rule_patterns@) == prettier_patterns(),
                k <= self.rule_patterns@.len(),
                rule_from(input@, 0) == rule_from(input@, k as int),
            decreases self.rule_patterns@.len() - k,
        {
            assert(self.rule_patterns@[k as int]@ == prettier_patterns()[k as int]);
            match captures(self.rule_patterns[k].as_str(), input) {
                Some(c) => {
                    assert(regex_captures(prettier_patterns()[k as int], input@) == Some(
                        c@.map_values(|o: Option<String>| opt_chars(o)),
                    ));
                    if c.len() >= 2 {
                        match get_group(&c, 1) {
                            Some(msg) => {
                                return Some(self.rule_for_message(input, &msg));
                            },
                            None => {},
                        }
                    }
                },
                None => {},
            }
            k = k + 1;
        }
        None
    }

    /// Extract context information from Prettier output.
    pub fn extract_context(&self, input: &str) -> (r: ExtractedContext)
        ensures
            r@ == prettier_context(input@),
    {
        proof {
            use_type_invariant(self);
        }
        let mut k: usize = 0;
        while k < self.rule_patterns.len()
            invariant
                strings_model(self.rule_patterns@) == prettier_patterns(),
                k <= self.rule_patterns@.len(),
                context_from(input@, 0) == context_from(input@, k as int),
            decreases self.rule_patterns@.len() - k,
        {
            assert(self.rule_patterns@[k as int]@ == prettier_patterns()[k as int]);
            match captures(self.rule_patterns[k].as_str(), input) {
                Some(c) => {
                    assert(regex_captures(prettier_patterns()[k as int], input@) == Some(
                        c@.map_values(|o: Option<String>| opt_chars(o)),
                    ));
                    if c.len() >= 2 {
                        match get_group(&c, 1) {
                            Some(msg) => {
                                return ExtractedContext {
                                    file_path: None,
                                    line_number: None,
                                    column: None,
                                    message: Some(str_trim(msg.as_str())),
                                    severity: Some(Severity::Warning),
                                };
                            },
                            None => {},
                        }
                    }
                },
                None => {},
            }
            k = k + 1;
        }
        ExtractedContext {
            file_path: None,
            line_number: None,
            column: None,
            message: Some(str_trim(input)),
            severity: Some(Severity::Warning),
        }
    }

    /// Calculate confidence score for Prettier rule.
    pub fn calculate_confidence(&self, input: &str) -> (c: u32)
        ensures
            c == prettier_confidence(input@),
    {
        let mut confidence: u32 = 6000;
        if str_contains(input, "prettier") {
            confidence = confidence + 2000;
        }
        if self.extract_rule_id(input).is_some() {
            confidence = confidence + 2000;
        }
        if mentions_formatting_text(input) {
            confidence = confidence + 1000;
        }
        if confidence > 10000 {
            10000
        } else {
            confidence
        }
    }

    /// Suggest action based on Prettier rule.
    pub fn suggest_action(&self, rule_id: &str) -> (a: ConfigAction)
        ensures
            a == prettier_action(rule_id@),
    {
        if str_contains(rule_id, "endOfLine") || str_contains(rule_id, "printWidth") {
            ConfigAction::Modify
        } else {
            ConfigAction::Ignore
        }
    }

    /// Validate Prettier configuration: the problems found in it.
    pub fn validate_config(&self, config: &str) -> (errors: Vec<String>)
        ensures
            strings_model(errors@) == config_problems(config@),
    {
        let mut errors: Vec<String> = Vec::new();
        if !is_valid_json(config) {
            push_str(&mut errors, "Invalid JSON format");
        }
        if !str_contains(config, "semi") && !str_contains(config, "singleQuote") {
            push_str(&mut errors, "Missing common Prettier options");
        }
        assert(strings_model(errors@) =~= config_problems(config@));
        errors
    }

    /// Whether a text looks like Prettier output.
    pub fn can_handle(&self, input: &str) -> (b: bool)
        ensures
            b == prettier_can_handle(input@),
    {
        str_contains(input, "prettier") || str_contains(input, "format") || str_contains(
            input,
            "style",
        ) || self.extract_rule_id(input).is_some()
    }

    /// The match for one line, when it yields a rule.
    pub fn match_line(&self, line: &str) -> (r: Option<RuleMatch>)
        ensures
            match r {
                Some(m) => prettier_match(line@) == Some(m@),
                None => prettier_match(line@) is None,
            },
    {
        match self.extract_rule_id(line) {
            Some(rule_id) => {
                let context = self.extract_context(line);
                let confidence = self.calculate_confidence(line);
                let suggested_action = self.suggest_action(rule_id.as_str());
                Some(RuleMatch { rule_id, linter: lit("prettier"), confidence, context, suggested_action })
            },
            None => None,
        }
    }

    /// Extract the rules of every non-empty line of output.
    pub fn extract_rules(&self, input: &str) -> (r: Vec<RuleMatch>)
        ensures
            matches_model(r@) == prettier_extract_lines(trimmed_lines(input@)),
    {
        let lines = nonempty_trimmed_lines(input);
        let ghost ls = trimmed_lines(input@);
        let mut rules: Vec<RuleMatch> = Vec::new();
        let mut i: usize = 0;
        while i < lines.len()
            invariant
                vecs_model(lines@) == ls,
                i <= lines@.len(),
                matches_model(rules@) == prettier_extract_lines(ls.take(i as int)),
            decreases lines@.len() - i,
        {
            let line = chars_to_string(&lines[i]);
            assert(line@ == ls[i as int]);
            assert(ls.take(i + 1).drop_last() == ls.take(i as int));
            match self.match_line(line.as_str()) {
                Some(m) => {
                    rules.push(m);
                    assert(matches_model(rules@) =~= matches_model(rules@.drop_last()).push(m@));
                },
                None => {},
            }
            assert(matches_model(rules@) =~= prettier_extract_lines(ls.take(i + 1)));
            i = i + 1;
        }
        assert(ls.take(lines@.len() as int) == ls);
        rules
    }

    /// Name of the linter.
    pub fn get_linter_name(&self) -> (s: &'static str)
        ensures
            s@ == "prettier"@,
    {
        "prettier"
    }

    /// Configuration file names for this linter.
    pub fn get_config_file_patterns(&self) -> (v: Vec<String>)
        ensures
            strings_model(v@) == prettier_config_files(),
    {
        let mut v: Vec<String> = Vec::new();
        push_str(&mut v, ".prettierrc");
        push_str(&mut v, ".prettierrc.js");
        push_str(&mut v, ".prettierrc.json");
        push_str(&mut v, ".prettierrc.yaml");
        push_str(&mut v, ".prettierrc.yml");
        push_str(&mut v, "prettier.config.js");
        push_str(&mut v, "package.json");
        assert(strings_model(v@) =~= prettier_config_files());
        v
    }

    /// Rule identifier format of this linter.
    pub fn get_rule_format(&self) -> (s: &'static str)
        ensures
            s@ == "prettier/rule-name"@,
    {
        "prettier/rule-name"
    }
}

} // verus!
