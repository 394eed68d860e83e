//! Decisions of the command-line commands: which files a scan reads, which suggestions it
//! shows, and in what order.
//!
//! The terminal front end walks the directories, reads the files and prints; it asks these
//! functions what to do.
use vstd::prelude::*;
use crate::analysis::{MatchModel, RuleMatch, matches_model};
use crate::text::{has_sub, is_prefix, lowercase, str_contains, str_equal, str_starts_with, to_lowercase};
use crate::utils::fs::{file_extension, file_name, path_extension, path_file_name};
use crate::utils::concat;
use crate::linters::{LinterKind, LinterRegistry, kind_format, lookup, strings_model, table_model};
use crate::linters::markdownlint::{MarkdownlintHandler, md_config_files, md_rules};
use crate::linters::eslint::{ESLintHandler, after_first_slash, eslint_config_files, eslint_descriptions};
use crate::linters::prettier::{PrettierHandler, prettier_config_files, prettier_options};

verus! {

/// Whether a lower-cased text holds one of the marks of linter output.
pub open spec fn linter_output_marks(lower: Seq<char>) -> bool {
    ||| has_sub(lower, "md0"@)
    ||| has_sub(lower, "md1"@)
    ||| has_sub(lower, "eslint"@)
    ||| has_sub(lower, "prettier/"@)
    ||| has_sub(lower, ": error "@)
    ||| has_sub(lower, ": warn "@)
    ||| has_sub(lower, "warning "@)
}

/// Whether a file's text looks like linter output, ignoring case.
pub fn looks_like_linter_output(content: &str) -> (b: bool)
    ensures
        b == linter_output_marks(lowercase(content@)),
{
    let lower = to_lowercase(content);
    let l = lower.as_str();
    str_contains(l, "md0") || str_contains(l, "md1") || str_contains(l, "eslint") || str_contains(
        l,
        "prettier/",
    ) || str_contains(l, ": error ") || str_contains(l, ": warn ") || str_contains(l, "warning ")
}

/// The final component of a path, or nothing.
pub open spec fn name_or_empty(path: Seq<char>) -> Seq<char> {
    match file_name(path) {
        Some(n) => n,
        None => Seq::empty(),
    }
}

/// Directories a scan does not enter: hidden ones, `target`, `node_modules`, and `docs`
/// unless documentation is included.
pub open spec fn skipped_directory(name: Seq<char>, include_docs: bool) -> bool {
    ||| is_prefix("."@, name)
    ||| name == "target"@
    ||| name == "node_modules"@
    ||| (!include_docs && name == "docs"@)
}

/// Whether a scan leaves out the directory at `path`.
pub fn skip_directory(path: &str, include_docs: bool) -> (b: bool)
    ensures
        b == skipped_directory(name_or_empty(path@), include_docs),
{
    let name = match path_file_name(path) {
        Some(n) => n,
        None => String::new(),
    };
    let n = name.as_str();
    str_starts_with(n, ".") || str_equal(n, "target") || str_equal(n, "node_modules") || (
    !include_docs && str_equal(n, "docs"))
}

/// File extensions of text a scan reads.
pub open spec fn text_extension(e: Seq<char>) -> bool {
    e == "md"@ || e == "txt"@ || e == "log"@ || e == "json"@ || e == "yaml"@ || e == "yml"@
}

/// File names that suggest a linter report.
pub open spec fn loglike_name(n: Seq<char>) -> bool {
    has_sub(n, "lint"@) || has_sub(n, "problems"@) || has_sub(n, "errors"@)
}

/// Whether a scan reads the file at `path`: a text extension, or a name that suggests a
/// linter report, both ignoring case.
pub open spec fn scanned_file(path: Seq<char>) -> bool {
    let ext = match file_extension(path) {
        Some(e) => lowercase(e),
        None => lowercase(Seq::empty()),
    };
    text_extension(ext) || loglike_name(lowercase(name_or_empty(path)))
}

/// Whether a scan reads the file at `path`.
pub fn is_scan_candidate(path: &str) -> (b: bool)
    ensures
        b == scanned_file(path@),
{
    proof {
        reveal_strlit("");
        assert(""@ =~= Seq::<char>::empty());
    }
    let ext = match path_extension(path) {
        Some(e) => to_lowercase(e.as_str()),
        None => to_lowercase(""),
    };
    let name = match path_file_name(path) {
        Some(n) => to_lowercase(n.as_str()),
        None => to_lowercase(""),
    };
    assert(ext@ == match file_extension(path@) {
        Some(x) => lowercase(x),
        None => lowercase(Seq::empty()),
    });
    assert(name@ == lowercase(name_or_empty(path@)));
    let e = ext.as_str();
    let is_text = str_equal(e, "md") || str_equal(e, "txt") || str_equal(e, "log") || str_equal(
        e,
        "json",
    ) || str_equal(e, "yaml") || str_equal(e, "yml");
    let n = name.as_str();
    let is_loglike = str_contains(n, "lint") || str_contains(n, "problems") || str_contains(
        n,
        "errors",
    );
    is_text || is_loglike
}

/// The least confidence a scan shows: 0.3 with low-confidence suggestions, 0.6 without.
pub open spec fn scan_threshold(include_low_confidence: bool) -> u32 {
    if include_low_confidence {
        3000
    } else {
        6000
    }
}

/// The matches whose confidence is at least `t`, in order.
pub open spec fn at_least(s: Seq<MatchModel>, t: u32) -> Seq<MatchModel>
    decreases s.len(),
{
    if s.len() == 0 {
        s
    } else {
        let prev = at_least(s.drop_last(), t);
        if s.last().confidence >= t {
            prev.push(s.last())
        } else {
            prev
        }
    }
}

/// Two matches name the same rule of the same linter.
pub open spec fn same_rule(a: MatchModel, b: MatchModel) -> bool {
    a.linter == b.linter && a.rule_id == b.rule_id
}

/// The first match for each rule of each linter, in order.
pub open spec fn first_of_each(s: Seq<MatchModel>) -> Seq<MatchModel>
    decreases s.len(),
{
    if s.len() == 0 {
        s
    } else {
        let prev = first_of_each(s.drop_last());
        if exists|i: int| 0 <= i < prev.len() && same_rule(#[trigger] prev[i], s.last()) {
            prev
        } else {
            prev.push(s.last())
        }
    }
}

/// Where a match of confidence `c` goes in a list sorted by falling confidence: after every
/// match at least as confident.
pub open spec fn insert_pos(s: Seq<MatchModel>, c: u32) -> int
    decreases s.len(),
{
    if s.len() == 0 {
        0
    } else if s[0].confidence < c {
        0
    } else {
        1 + insert_pos(s.drop_first(), c)
    }
}

/// The matches sorted by falling confidence, those of equal confidence in their first order.
pub open spec fn by_confidence(s: Seq<MatchModel>) -> Seq<MatchModel>
    decreases s.len(),
{
    if s.len() == 0 {
        s
    } else {
        let sorted = by_confidence(s.drop_last());
        sorted.insert(insert_pos(sorted, s.last().confidence), s.last())
    }
}

/// What a scan shows of the matches it found: those confident enough, the first of each
/// rule, most confident first, at most `limit` of them.
pub open spec fn suggestions(s: Seq<MatchModel>, limit: usize, include_low_confidence: bool) -> Seq<
    MatchModel,
> {
    let sorted = by_confidence(first_of_each(at_least(s, scan_threshold(include_low_confidence))));
    if limit < sorted.len() {
        sorted.take(limit as int)
    } else {
        sorted
    }
}

proof fn lemma_insert_pos(s: Seq<MatchModel>, c: u32, i: int)
    requires
        0 <= i <= s.len(),
        forall|j: int| 0 <= j < i ==> (#[trigger] s[j]).confidence >= c,
        i == s.len() || s[i].confidence < c,
    ensures
        insert_pos(s, c) == i,
    decreases i,
{
    if i > 0 {
        assert forall|j: int| 0 <= j < i - 1 implies (#[trigger] s.drop_first()[j]).confidence >= c by {
            assert(s.drop_first()[j] == s[j + 1]);
        }
        if i < s.len() {
            assert(s.drop_first()[i - 1] == s[i]);
        }
        lemma_insert_pos(s.drop_first(), c, i - 1);
        assert(s[0].confidence >= c);
    }
}

/// Whether some kept match names the same rule as `m`.
fn seen_rule(kept: &Vec<RuleMatch>, m: &RuleMatch) -> (b: bool)
    ensures
        b == exists|i: int| 0 <= i < kept@.len() && same_rule(#[trigger] matches_model(kept@)[i], m@),
{
    let ghost km = matches_model(kept@);
    let mut i: usize = 0;
    while i < kept.len()
        invariant
            i <= kept@.len(),
            km == matches_model(kept@),
            forall|j: int| 0 <= j < i ==> !same_rule(#[trigger] km[j], m@),
        decreases kept@.len() - i,
    {
        if kept[i].linter == m.linter && kept[i].rule_id == m.rule_id {
            assert(same_rule(km[i as int], m@));
            return true;
        }
        i = i + 1;
    }
    false
}

/// The suggestions a scan shows, from the matches it found.
pub fn select_suggestions(matches: &Vec<RuleMatch>, limit: usize, include_low_confidence: bool) -> (r:
    Vec<RuleMatch>)
    ensures
        matches_model(r@) == suggestions(matches_model(matches@), limit, include_low_confidence),
{
    let threshold: u32 = if include_low_confidence {
        3000
    } else {
        6000
    };
    let ghost all = matches_model(matches@);
    // Keep the confident matches, the first of each rule.
    let mut kept: Vec<RuleMatch> = Vec::new();
    let mut k: usize = 0;
    while k < matches.len()
        invariant
            k <= matches@.len(),
            all == matches_model(matches@),
            threshold == scan_threshold(include_low_confidence),
            matches_model(kept@) == first_of_each(at_least(all.take(k as int), threshold)),
        decreases matches@.len() - k,
    {
        let ghost pre = all.take(k as int);
        assert(all.take(k + 1).drop_last() =~= pre);
        assert(all.take(k + 1).last() == matches@[k as int]@);
        let m = &matches[k];
        if m.confidence >= threshold {
            let ghost f = at_least(pre, threshold);
            assert(at_least(all.take(k + 1), threshold) == f.push(m@));
            assert(f.push(m@).drop_last() =~= f);
            if !seen_rule(&kept, m) {
                let c = m.copy();
                let ghost before = matches_model(kept@);
                kept.push(c);
                assert(matches_model(kept@) =~= before.push(m@));
            }
        }
        k = k + 1;
    }
    assert(all.take(matches@.len() as int) =~= all);
    let ghost chosen = matches_model(kept@);
    // Sort them by falling confidence, keeping the order of equals.
    let mut sorted: Vec<RuleMatch> = Vec::new();
    let mut k: usize = 0;
    while k < kept.len()
        invariant
            k <= kept@.len(),
            chosen == matches_model(kept@),
            matches_model(sorted@) == by_confidence(chosen.take(k as int)),
        decreases kept@.len() - k,
    {
        assert(chosen.take(k + 1).drop_last() =~= chosen.take(k as int));
        let c = kept[k].confidence;
        let ghost sm = matches_model(sorted@);
        let mut i: usize = 0;
        while i < sorted.len() && sorted[i].confidence >= c
            invariant
                i <= sorted@.len(),
                sm == matches_model(sorted@),
                forall|j: int| 0 <= j < i ==> (#[trigger] sm[j]).confidence >= c,
            decreases sorted@.len() - i,
        {
            i = i + 1;
        }
        proof {
            lemma_insert_pos(sm, c, i as int);
        }
        let x = kept[k].copy();
        let ghost xm = x@;
        sorted.insert(i, x);
        assert(matches_model(sorted@) =~= sm.insert(i as int, xm));
        k = k + 1;
    }
    assert(chosen.take(kept@.len() as int) =~= chosen);
    // Keep at most `limit` of them.
    if limit < sorted.len() {
        let ghost sm = matches_model(sorted@);
        sorted.truncate(limit);
        assert(matches_model(sorted@) =~= sm.take(limit as int));
    }
    sorted
}

/// A text in double quotes.
pub open spec fn quoted(s: Seq<char>) -> Seq<char> {
    "\""@ + s + "\""@
}

/// The texts, each in double quotes, separated by `, `.
pub open spec fn quoted_join(v: Seq<Seq<char>>) -> Seq<char>
    decreases v.len(),
{
    if v.len() == 0 {
        Seq::empty()
    } else if v.len() == 1 {
        quoted(v[0])
    } else {
        quoted_join(v.drop_last()) + ", "@ + quoted(v.last())
    }
}

/// A list of file names as `Debug` prints a `Vec<String>` of names that hold no quote,
/// backslash or control character: in brackets, each quoted, separated by `, `.
pub open spec fn name_list(v: Seq<Seq<char>>) -> Seq<char> {
    "["@ + quoted_join(v) + "]"@
}

/// The texts separated by `, `.
pub open spec fn comma_join(v: Seq<Seq<char>>) -> Seq<char>
    decreases v.len(),
{
    if v.len() == 0 {
        Seq::empty()
    } else if v.len() == 1 {
        v[0]
    } else {
        comma_join(v.drop_last()) + ", "@ + v.last()
    }
}

/// An identifier of lower-case ASCII letters and dashes only.
pub open spec fn lower_or_dash(id: Seq<char>) -> bool {
    forall|i: int| 0 <= i < id.len() ==> ('a' <= #[trigger] id[i] && id[i] <= 'z') || id[i] == '-'
}

/// The first Prettier option whose name occurs in the rule identifier, ignoring case.
pub open spec fn option_in_rule(opts: Seq<(Seq<char>, Seq<char>)>, id: Seq<char>) -> Option<
    (Seq<char>, Seq<char>),
>
    decreases opts.len(),
{
    if opts.len() == 0 {
        None
    } else if has_sub(lowercase(id), lowercase(opts[0].0)) {
        Some(opts[0])
    } else {
        option_in_rule(opts.drop_first(), id)
    }
}

/// Each registered linter with its rule format, as `name => format`.
pub open spec fn linter_formats(reg: Seq<(Seq<char>, LinterKind)>) -> Seq<Seq<char>> {
    reg.map_values(|p: (Seq<char>, LinterKind)| p.0 + " => "@ + kind_format(p.1))
}

/// The lines `info` prints for a rule: its markdownlint, ESLint or Prettier description,
/// or else the rule formats of the registered linters.
pub open spec fn info_lines(reg: Seq<(Seq<char>, LinterKind)>, id: Seq<char>) -> Seq<Seq<char>> {
    if is_prefix("MD"@, id) && lookup(md_rules(), id) is Some {
        seq![
            "Linter: markdownlint"@,
            "Rule: "@ + id,
            "Description: "@ + lookup(md_rules(), id)->0,
            "Format: MDxxx"@,
            "Config files: "@ + name_list(md_config_files()),
        ]
    } else if (id.contains('/') || lower_or_dash(id)) && lookup(
        eslint_descriptions(),
        after_first_slash(id),
    ) is Some {
        seq![
            "Linter: eslint"@,
            "Rule: "@ + id,
            "Description: "@ + lookup(eslint_descriptions(), after_first_slash(id))->0,
            "Format: category/rule-name"@,
            "Config files: "@ + name_list(eslint_config_files()),
        ]
    } else if is_prefix("prettier"@, id) {
        seq!["Linter: prettier"@, "Rule: "@ + id] + match option_in_rule(prettier_options(), id) {
            Some(o) => seq!["Option: "@ + o.0, "Description: "@ + o.1],
            None => Seq::empty(),
        } + seq![
            "Format: prettier/rule-name"@,
            "Config files: "@ + name_list(prettier_config_files()),
        ]
    } else {
        seq![
            "Unknown rule. Known linter formats: "@ + comma_join(linter_formats(reg)),
        ]
    }
}

/// The names, as `Debug` prints a list of them.
fn format_name_list(v: &Vec<String>) -> (r: String)
    ensures
        r@ == name_list(strings_model(v@)),
{
    let ghost m = strings_model(v@);
    let mut acc = String::new();
    let mut i: usize = 0;
    while i < v.len()
        invariant
            i <= v@.len(),
            m == strings_model(v@),
            acc@ == quoted_join(m.take(i as int)),
        decreases v@.len() - i,
    {
        assert(m.take(i + 1).drop_last() =~= m.take(i as int));
        let q1 = concat("\"", v[i].as_str());
        let q = concat(q1.as_str(), "\"");
        if i == 0 {
            proof {
                reveal_strlit("");
            }
            acc = q;
        } else {
            let a = concat(acc.as_str(), ", ");
            acc = concat(a.as_str(), q.as_str());
        }
        i = i + 1;
    }
    assert(m.take(v@.len() as int) =~= m);
    let a = concat("[", acc.as_str());
    concat(a.as_str(), "]")
}

/// Whether the identifier is lower-case ASCII letters and dashes only.
fn is_lower_or_dash(id: &str) -> (b: bool)
    ensures
        b == lower_or_dash(id@),
{
    let v = crate::text::to_chars(id);
    let mut i: usize = 0;
    while i < v.len()
        invariant
            i <= v@.len(),
            v@ == id@,
            forall|t: int| 0 <= t < i ==> ('a' <= #[trigger] v@[t] && v@[t] <= 'z') || v@[t] == '-',
        decreases v@.len() - i,
    {
        let c = v[i];
        if !(('a' <= c && c <= 'z') || c == '-') {
            assert(!(('a' <= id@[i as int] && id@[i as int] <= 'z') || id@[i as int] == '-'));
            return false;
        }
        i = i + 1;
    }
    true
}

/// The lines `info` prints for a rule.
pub fn rule_info_lines(registry: &LinterRegistry, rule_id: &str) -> (r: Vec<String>)
    ensures
        strings_model(r@) == info_lines(registry@, rule_id@),
{
    let mut lines: Vec<String> = Vec::new();
    if str_starts_with(rule_id, "MD") {
        let handler = MarkdownlintHandler::new();
        if let Some(desc) = handler.get_rule_description(rule_id) {
            lines.push(String::from_str("Linter: markdownlint"));
            lines.push(concat("Rule: ", rule_id));
            lines.push(concat("Description: ", desc.as_str()));
            lines.push(concat("Format: ", handler.get_rule_format()));
            let files = format_name_list(&handler.get_config_files());
            lines.push(concat("Config files: ", files.as_str()));
            proof {
                reveal_strlit("Format: ");
                reveal_strlit("MDxxx");
                reveal_strlit("Format: MDxxx");
                assert("Format: "@ + "MDxxx"@ =~= "Format: MDxxx"@);
            }
            assert(strings_model(lines@) =~= info_lines(registry@, rule_id@));
            return lines;
        }
    }
    if str_has_slash(rule_id) || is_lower_or_dash(rule_id) {
        let handler = ESLintHandler::new();
        if let Some(desc) = handler.get_rule_description(rule_id) {
            lines.push(String::from_str("Linter: eslint"));
            lines.push(concat("Rule: ", rule_id));
            lines.push(concat("Description: ", desc.as_str()));
            lines.push(concat("Format: ", handler.get_rule_format()));
            let files = format_name_list(&handler.get_config_file_patterns());
            lines.push(concat("Config files: ", files.as_str()));
            proof {
                reveal_strlit("Format: ");
                reveal_strlit("category/rule-name");
                reveal_strlit("Format: category/rule-name");
                assert("Format: "@ + "category/rule-name"@ =~= "Format: category/rule-name"@);
            }
            assert(strings_model(lines@) =~= info_lines(registry@, rule_id@));
            return lines;
        }
    }
    if str_starts_with(rule_id, "prettier") {
        let handler = PrettierHandler::new();
        lines.push(String::from_str("Linter: prettier"));
        lines.push(concat("Rule: ", rule_id));
        let options = handler.get_configuration_options();
        let lower_id = to_lowercase(rule_id);
        let ghost opts = table_model(options@);
        assert(opts.skip(0) =~= opts);
        let mut i: usize = 0;
        let mut found = false;
        while i < options.len() && !found
            invariant
                i <= options@.len(),
                opts == table_model(options@),
                lower_id@ == lowercase(rule_id@),
                option_in_rule(opts, rule_id@) == option_in_rule(opts.skip(i as int), rule_id@),
                found ==> i < options@.len() && has_sub(lowercase(rule_id@), lowercase(opts[i as int].0)),
            decreases options@.len() - i + (if found {
                0int
            } else {
                1int
            }),
        {
            assert(opts.skip(i as int)[0] == opts[i as int]);
            assert(opts.skip(i as int).drop_first() =~= opts.skip(i + 1));
            let k = to_lowercase(options[i].0.as_str());
            if str_contains(lower_id.as_str(), k.as_str()) {
                found = true;
            } else {
                i = i + 1;
            }
        }
        let ghost before = strings_model(lines@);
        let ghost opt_lines: Seq<Seq<char>>;
        if found {
            assert(opts.skip(i as int)[0] == opts[i as int]);
            assert(option_in_rule(opts, rule_id@) == Some(opts[i as int]));
            lines.push(concat("Option: ", options[i].0.as_str()));
            lines.push(concat("Description: ", options[i].1.as_str()));
            proof {
                opt_lines = seq!["Option: "@ + opts[i as int].0, "Description: "@ + opts[i as int].1];
            }
        } else {
            assert(opts.skip(i as int).len() == 0);
            assert(option_in_rule(opts, rule_id@) is None);
            proof {
                opt_lines = Seq::empty();
            }
        }
        assert(strings_model(lines@) =~= before + opt_lines);
        lines.push(concat("Format: ", handler.get_rule_format()));
        let files = format_name_list(&handler.get_config_file_patterns());
        lines.push(concat("Config files: ", files.as_str()));
        proof {
            reveal_strlit("Format: ");
            reveal_strlit("prettier/rule-name");
            reveal_strlit("Format: prettier/rule-name");
            assert("Format: "@ + "prettier/rule-name"@ =~= "Format: prettier/rule-name"@);
        }
        assert(strings_model(lines@) =~= info_lines(registry@, rule_id@));
        return lines;
    }
    let infos = registry.get_supported_linters();
    let ghost formats = linter_formats(registry@);
    let mut acc = String::new();
    let mut i: usize = 0;
    while i < infos.len()
        invariant
            i <= infos@.len(),
            infos@.len() == registry@.len(),
            formats.len() == registry@.len(),
            forall|t: int| 0 <= t < infos@.len() ==> #[trigger] formats[t] == infos@[t].name@ + " => "@
                + infos@[t].rule_format@,
            acc@ == comma_join(formats.take(i as int)),
        decreases infos@.len() - i,
    {
        assert(formats.take(i + 1).drop_last() =~= formats.take(i as int));
        let a = concat(infos[i].name.as_str(), " => ");
        let f = concat(a.as_str(), infos[i].rule_format.as_str());
        if i == 0 {
            proof {
                reveal_strlit("");
            }
            acc = f;
        } else {
            let b = concat(acc.as_str(), ", ");
            acc = concat(b.as_str(), f.as_str());
        }
        i = i + 1;
    }
    assert(formats.take(infos@.len() as int) =~= formats);
    assert(acc@ == comma_join(formats));
    assert(lines@.len() == 0);
    assert(!(is_prefix("MD"@, rule_id@) && lookup(md_rules(), rule_id@) is Some));
    assert(!((rule_id@.contains('/') || lower_or_dash(rule_id@)) && lookup(eslint_descriptions(), after_first_slash(rule_id@)) is Some));
    assert(!is_prefix("prettier"@, rule_id@));
    lines.push(concat("Unknown rule. Known linter formats: ", acc.as_str()));
    assert(strings_model(lines@) =~= info_lines(registry@, rule_id@));
    lines
}

/// Whether the identifier holds a `/`.
fn str_has_slash(id: &str) -> (b: bool)
    ensures
        b == id@.contains('/'),
{
    crate::text::str_has_char(id, '/')
}

/// Matches sorted by falling confidence.
pub open spec fn falling(r: Seq<MatchModel>) -> bool {
    forall|i: int, j: int| 0 <= i < j < r.len() ==> (#[trigger] r[i]).confidence >= (#[trigger] r[j]).confidence
}

/// No two matches name the same rule of the same linter.
pub open spec fn one_per_rule(r: Seq<MatchModel>) -> bool {
    forall|i: int, j: int|
        0 <= i < r.len() && 0 <= j < r.len() && i != j ==> !same_rule(#[trigger] r[i], #[trigger] r[j])
}

proof fn lemma_at_least(s: Seq<MatchModel>, t: u32)
    ensures
        forall|i: int|
            0 <= i < at_least(s, t).len() ==> (#[trigger] at_least(s, t)[i]).confidence >= t
                && s.contains(at_least(s, t)[i]),
    decreases s.len(),
{
    if s.len() > 0 {
        lemma_at_least(s.drop_last(), t);
        let prev = at_least(s.drop_last(), t);
        assert forall|i: int| 0 <= i < prev.len() implies s.contains(#[trigger] prev[i]) by {
            let j = choose|j: int| 0 <= j < s.drop_last().len() && s.drop_last()[j] == prev[i];
            assert(s[j] == prev[i]);
        }
        assert(s[s.len() - 1] == s.last());
    }
}

proof fn lemma_first_of_each(s: Seq<MatchModel>)
    ensures
        one_per_rule(first_of_each(s)),
        forall|i: int|
            0 <= i < first_of_each(s).len() ==> s.contains(#[trigger] first_of_each(s)[i]),
    decreases s.len(),
{
    if s.len() > 0 {
        lemma_first_of_each(s.drop_last());
        let prev = first_of_each(s.drop_last());
        assert forall|i: int| 0 <= i < prev.len() implies s.contains(#[trigger] prev[i]) by {
            let j = choose|j: int| 0 <= j < s.drop_last().len() && s.drop_last()[j] == prev[i];
            assert(s[j] == prev[i]);
        }
        assert(s[s.len() - 1] == s.last());
    }
}

proof fn lemma_insert_pos_bounds(s: Seq<MatchModel>, c: u32)
    ensures
        0 <= insert_pos(s, c) <= s.len(),
        forall|j: int| 0 <= j < insert_pos(s, c) ==> (#[trigger] s[j]).confidence >= c,
        insert_pos(s, c) < s.len() ==> s[insert_pos(s, c)].confidence < c,
    decreases s.len(),
{
    if s.len() > 0 && s[0].confidence >= c {
        lemma_insert_pos_bounds(s.drop_first(), c);
        assert forall|j: int| 0 <= j < insert_pos(s, c) implies (#[trigger] s[j]).confidence >= c by {
            if j > 0 {
                assert(s[j] == s.drop_first()[j - 1]);
            }
        }
        if insert_pos(s, c) < s.len() {
            assert(s[insert_pos(s, c)] == s.drop_first()[insert_pos(s, c) - 1]);
        }
    }
}

proof fn lemma_by_confidence(s: Seq<MatchModel>)
    ensures
        by_confidence(s).len() == s.len(),
        falling(by_confidence(s)),
        forall|i: int| 0 <= i < s.len() ==> s.contains(#[trigger] by_confidence(s)[i]),
        one_per_rule(s) ==> one_per_rule(by_confidence(s)),
    decreases s.len(),
{
    if s.len() > 0 {
        let rest = s.drop_last();
        let x = s.last();
        lemma_by_confidence(rest);
        let sorted = by_confidence(rest);
        let p = insert_pos(sorted, x.confidence);
        lemma_insert_pos_bounds(sorted, x.confidence);
        let r = sorted.insert(p, x);
        assert(r == by_confidence(s));
        assert forall|i: int| 0 <= i < r.len() implies s.contains(#[trigger] r[i]) by {
            if i < p {
                assert(r[i] == sorted[i]);
                let j = choose|j: int| 0 <= j < rest.len() && rest[j] == sorted[i];
                assert(s[j] == sorted[i]);
            } else if i == p {
                assert(s[s.len() - 1] == x);
            } else {
                assert(r[i] == sorted[i - 1]);
                let j = choose|j: int| 0 <= j < rest.len() && rest[j] == sorted[i - 1];
                assert(s[j] == sorted[i - 1]);
            }
        }
        assert forall|i: int, j: int| 0 <= i < j < r.len() implies (#[trigger] r[i]).confidence
            >= (#[trigger] r[j]).confidence by {
            if j < p {
                assert(r[i] == sorted[i] && r[j] == sorted[j]);
            } else if j == p {
                assert(r[i] == sorted[i]);
            } else if i < p {
                assert(r[i] == sorted[i] && r[j] == sorted[j - 1]);
                assert(sorted[i].confidence >= sorted[j - 1].confidence);
            } else if i == p {
                assert(r[j] == sorted[j - 1]);
                assert(sorted[p].confidence < x.confidence);
                assert(sorted[p].confidence >= sorted[j - 1].confidence);
            } else {
                assert(r[i] == sorted[i - 1] && r[j] == sorted[j - 1]);
            }
        }
        if one_per_rule(s) {
            assert(one_per_rule(rest)) by {
                assert forall|i: int, j: int|
                    0 <= i < rest.len() && 0 <= j < rest.len() && i != j implies !same_rule(
                    #[trigger] rest[i],
                    #[trigger] rest[j],
                ) by {
                    assert(rest[i] == s[i] && rest[j] == s[j]);
                }
            }
            assert forall|i: int| 0 <= i < sorted.len() implies !same_rule(#[trigger] sorted[i], x)
                && !same_rule(x, sorted[i]) by {
                let j = choose|j: int| 0 <= j < rest.len() && rest[j] == sorted[i];
                assert(s[j] == sorted[i]);
                assert(!same_rule(s[j], s[s.len() - 1]));
                assert(!same_rule(s[s.len() - 1], s[j]));
            }
            assert forall|i: int, j: int|
                0 <= i < r.len() && 0 <= j < r.len() && i != j implies !same_rule(
                #[trigger] r[i],
                #[trigger] r[j],
            ) by {
                let i0 = if i < p {
                    i
                } else {
                    i - 1
                };
                let j0 = if j < p {
                    j
                } else {
                    j - 1
                };
                if i != p && j != p {
                    assert(r[i] == sorted[i0] && r[j] == sorted[j0]);
                } else if i == p {
                    assert(r[j] == sorted[j0]);
                } else {
                    assert(r[i] == sorted[i0]);
                }
            }
        }
    }
}

/// What a scan shows is at most `limit` suggestions, most confident first, each at least as
/// confident as the threshold, each one of the matches found, and no two for the same rule
/// of the same linter.
pub proof fn law_scan_suggestions(s: Seq<MatchModel>, limit: usize, include_low_confidence: bool)
    ensures
        ({
            let r = suggestions(s, limit, include_low_confidence);
            &&& r.len() <= limit
            &&& falling(r)
            &&& one_per_rule(r)
            &&& forall|i: int|
                0 <= i < r.len() ==> (#[trigger] r[i]).confidence >= scan_threshold(
                    include_low_confidence,
                ) && s.contains(r[i])
        }),
{
    let t = scan_threshold(include_low_confidence);
    let a = at_least(s, t);
    let f = first_of_each(a);
    let b = by_confidence(f);
    lemma_at_least(s, t);
    lemma_first_of_each(a);
    lemma_by_confidence(f);
    let r = suggestions(s, limit, include_low_confidence);
    assert forall|i: int| 0 <= i < b.len() implies (#[trigger] b[i]).confidence >= t && s.contains(b[i]) by {
        let j = choose|j: int| 0 <= j < f.len() && f[j] == b[i];
        let k = choose|k: int| 0 <= k < a.len() && a[k] == f[j];
        assert(a[k].confidence >= t && s.contains(a[k]));
    }
    if limit < b.len() {
        assert forall|i: int| 0 <= i < r.len() implies r[i] == b[i] by {}
    }
}

/// Configuration management commands.
#[derive(Debug, Clone, PartialEq, Eq)]
#[allow(inconsistent_fields)]
pub enum ConfigCommands {
    /// List available backups
    ListBackups {
        /// Configuration file path
        config_file: String,
    },
    /// Restore from a backup
    Restore {
        /// Backup ID to restore from
        backup_id: String,
        /// Configuration file path
        config_file: String,
    },
    /// Clean up old backups
    Cleanup {
        /// Maximum age in hours for backups to keep
        max_age_hours: u64,
        /// Configuration file path (optional, cleans all if not specified)
        config_file: Option<String>,
    },
    /// Show configuration file information
    Info {
        /// Configuration file path
        config_file: String,
    },
    /// Show backup metadata (timestamp/size/paths) for a specific backup ID
    ShowBackup {
        /// Backup ID (as shown in list-backups)
        backup_id: String,
    },
}

/// The configuration files `add` looks for, in order, to apply a rule of the linter.
pub open spec fn apply_candidates_for(linter: Seq<char>) -> Seq<Seq<char>> {
    if linter == "markdownlint"@ {
        seq![".markdownlint.json"@, ".markdownlint.yaml"@, ".markdownlint.yml"@]
    } else if linter == "eslint"@ {
        seq![".eslintrc.json"@, ".eslintrc.yaml"@, ".eslintrc.yml"@]
    } else if linter == "prettier"@ {
        seq![".prettierrc.json"@, ".prettierrc.yaml"@, ".prettierrc.yml"@]
    } else {
        Seq::empty()
    }
}

/// The configuration file `add` writes when none of the candidates exists.
pub open spec fn apply_fallback_for(linter: Seq<char>) -> Seq<char> {
    if linter == "markdownlint"@ {
        ".markdownlint.json"@
    } else if linter == "eslint"@ {
        ".eslintrc.json"@
    } else if linter == "prettier"@ {
        ".prettierrc.json"@
    } else {
        "config.json"@
    }
}

/// The dotted path under which `add` sets a rule of the linter: ESLint rules go under
/// `rules`, the others at the top level.
pub open spec fn apply_path_for(linter: Seq<char>) -> Seq<char> {
    if linter == "eslint"@ {
        "rules"@
    } else {
        Seq::empty()
    }
}

/// The configuration files `add` looks for to apply a rule of the linter.
pub fn apply_candidates(linter: &str) -> (r: Vec<String>)
    ensures
        strings_model(r@) == apply_candidates_for(linter@),
{
    let mut v: Vec<String> = Vec::new();
    if str_equal(linter, "markdownlint") {
        crate::linters::push_str(&mut v, ".markdownlint.json");
        crate::linters::push_str(&mut v, ".markdownlint.yaml");
        crate::linters::push_str(&mut v, ".markdownlint.yml");
    } else if str_equal(linter, "eslint") {
        crate::linters::push_str(&mut v, ".eslintrc.json");
        crate::linters::push_str(&mut v, ".eslintrc.yaml");
        crate::linters::push_str(&mut v, ".eslintrc.yml");
    } else if str_equal(linter, "prettier") {
        crate::linters::push_str(&mut v, ".prettierrc.json");
        crate::linters::push_str(&mut v, ".prettierrc.yaml");
        crate::linters::push_str(&mut v, ".prettierrc.yml");
    }
    assert(strings_model(v@) =~= apply_candidates_for(linter@));
    v
}

/// The configuration file `add` writes when none of the candidates exists.
pub fn apply_fallback(linter: &str) -> (r: &'static str)
    ensures
        r@ == apply_fallback_for(linter@),
{
    if str_equal(linter, "markdownlint") {
        ".markdownlint.json"
    } else if str_equal(linter, "eslint") {
        ".eslintrc.json"
    } else if str_equal(linter, "prettier") {
        ".prettierrc.json"
    } else {
        "config.json"
    }
}

/// The dotted path under which `add` sets a rule of the linter.
pub fn apply_path(linter: &str) -> (r: &'static str)
    ensures
        r@ == apply_path_for(linter@),
{
    proof {
        reveal_strlit("");
    }
    if str_equal(linter, "eslint") {
        "rules"
    } else {
        ""
    }
}

/// Runs the commands: the application and the state of the interface.
pub struct CliRunner {
    app: crate::Sandbag,
    ui: crate::ui::UIManager,
}

impl CliRunner {
    /// A runner with the built-in linters and the default interface modes.
    pub fn new() -> (r: Self)
        ensures
            r.ui_modes() == crate::ui::UIManager::new_spec(),
    {
        CliRunner { app: crate::Sandbag::new(), ui: crate::ui::UIManager::new() }
    }

    /// The modes of the interface.
    pub closed spec fn ui_modes(&self) -> crate::ui::UIManager {
        self.ui
    }

    /// The application.
    pub fn application(&self) -> (c: &crate::Sandbag) {
        &self.app
    }

    /// The modes of the interface.
    pub fn ui(&self) -> (u: crate::ui::UIManager)
        ensures
            u == self.ui_modes(),
    {
        self.ui
    }

    /// Takes the global options of a command: verbose output and dry run.
    pub fn apply_global_options(&mut self, verbose: bool, dry_run: bool)
        ensures
            final(self).ui_modes() == (crate::ui::UIManager {
                verbose,
                dry_run,
                ..old(self).ui_modes()
            }),
    {
        self.ui.set_verbose(verbose);
        self.ui.set_dry_run(dry_run);
    }
}

} // verus!
