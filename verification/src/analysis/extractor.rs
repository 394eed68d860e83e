//! Rule extraction by pattern, with confidence scoring.
//!
//! Each non-empty line of the input yields at most one candidate: the rule the first
//! matching pattern finds in it. A candidate is kept when its confidence reaches 0.6: the
//! naive Bayes confidence when a trained model gives one, else a heuristic of the rule, the
//! pattern's weight and the rule's context. Kept matches carry that confidence and come out
//! most confident first, in line order among equals. All confidences are in basis points.
use vstd::prelude::*;
use crate::analysis::{ConfigAction, ContextModel, ExtractedContext, MatchModel, RuleMatch, Severity, matches_model};
use crate::linters::{lit, push_pair};
use crate::pattern::{captures, get_group, group, regex_captures};
use crate::linters::markdownlint::{md_rule_id_ok, md_valid_rule_id};
use crate::text::{chars_to_string, nonempty_trimmed_lines, str_equal, trimmed_lines, vecs_model};

verus! {

/// Minimum confidence for a match to be kept (0.6).
pub const MINIMUM_CONFIDENCE_THRESHOLD: u32 = 6000;

/// A pattern for the rules of one linter.
#[derive(Debug)]
pub struct ExtractionPattern {
    /// Name of the linter the pattern targets
    pub linter: String,
    /// Regular expression whose first group is the rule identifier
    pub pattern: String,
    /// Weight of this pattern in confidence calculation, in basis points
    pub confidence_weight: u32,
}

/// The mathematical content of an [`ExtractionPattern`].
pub struct PatternModel {
    pub linter: Seq<char>,
    pub pattern: Seq<char>,
    pub confidence_weight: u32,
}

impl View for ExtractionPattern {
    type V = PatternModel;

    open spec fn view(&self) -> PatternModel {
        PatternModel { linter: self.linter@, pattern: self.pattern@, confidence_weight: self.confidence_weight }
    }
}

/// The pattern for markdownlint output: a rule identifier, an optional rule name, a colon,
/// and `markdownlint` further on.
pub open spec fn markdownlint_pattern() -> Seq<char> {
    "(MD\\d{3})(?:/[\\w-]+)?:.*?markdownlint(?:MD\\d{3})?"@
}

/// A markdownlint rule identifier, with an optional rule name, followed by a colon.
pub open spec fn rule_colon_pattern() -> Seq<char> {
    "(MD\\d{3})(?:/[\\w-]+)?:"@
}

/// A line that is a markdownlint rule identifier alone.
pub open spec fn bare_rule_pattern() -> Seq<char> {
    "^(MD\\d{3})$"@
}

/// The extractor's patterns, tried in order: full markdownlint output (weight 0.9), a rule
/// identifier before a colon (0.8), and a rule identifier alone (0.7).
pub open spec fn default_patterns() -> Seq<PatternModel> {
    seq![
        PatternModel { linter: "markdownlint"@, pattern: markdownlint_pattern(), confidence_weight: 9000 },
        PatternModel { linter: "markdownlint"@, pattern: rule_colon_pattern(), confidence_weight: 8000 },
        PatternModel { linter: "markdownlint"@, pattern: bare_rule_pattern(), confidence_weight: 7000 },
    ]
}

/// The rules the extractor knows a description of.
pub open spec fn default_rule_database() -> Seq<(Seq<char>, Seq<char>)> {
    seq![
        ("MD033"@, "No inline HTML"@),
        ("MD041"@, "First line in file should be a top level heading"@),
        ("MD013"@, "Line length"@),
    ]
}

/// The context recorded for a match: the whole input as the message, at warning severity.
pub open spec fn input_context(input: Seq<char>) -> ContextModel {
    ContextModel {
        file_path: None,
        line_number: None,
        column: None,
        message: Some(input),
        severity: Some(Severity::Warning),
    }
}

/// What a pattern finds in the input: the rule its first group names, of its linter, with
/// confidence 0 before scoring, to be disabled.
pub open spec fn pattern_match(p: PatternModel, input: Seq<char>) -> Option<MatchModel> {
    match regex_captures(p.pattern, input) {
        Some(c) => match group(c, 1) {
            Some(id) => Some(
                MatchModel {
                    rule_id: id,
                    linter: p.linter,
                    confidence: 0,
                    context: input_context(input),
                    suggested_action: ConfigAction::Disable,
                },
            ),
            None => None,
        },
        None => None,
    }
}

/// How relevant a match's context is: 0.5, plus 0.3 for a rule with a known description and
/// 0.2 for a message, at most 1.
pub open spec fn context_relevance(db: Seq<(Seq<char>, Seq<char>)>, m: MatchModel) -> int {
    let raw = 5000 + (if exists|i: int| 0 <= i < db.len() && (#[trigger] db[i]).0 == m.rule_id {
        3000int
    } else {
        0int
    }) + (if m.context.message is Some {
        2000int
    } else {
        0int
    });
    if raw > 10000 {
        10000
    } else {
        raw
    }
}

/// The heuristic confidence: 0.6 for an identifier in the linter's exact form (`MD` and
/// three digits), plus 0.3 of the pattern's weight and 0.1 of the context's relevance.
pub open spec fn heuristic_confidence(db: Seq<(Seq<char>, Seq<char>)>, m: MatchModel, p: PatternModel) -> int {
    (6000 * (if md_valid_rule_id(m.rule_id) {
        10000int
    } else {
        0int
    }) + 3000 * p.confidence_weight + 1000 * context_relevance(db, m)) / 10000
}

/// The first of the patterns from the `k`-th on that finds a rule in the line, with that
/// pattern's position.
pub open spec fn candidate_from(patterns: Seq<PatternModel>, line: Seq<char>, k: int) -> Option<(int, MatchModel)>
    decreases patterns.len() - k,
{
    if k < 0 || k >= patterns.len() {
        None
    } else {
        match pattern_match(patterns[k], line) {
            Some(m) => Some((k, m)),
            None => candidate_from(patterns, line, k + 1),
        }
    }
}

/// The candidate of each line in turn, for the lines that yield one.
pub open spec fn line_candidates(patterns: Seq<PatternModel>, lines: Seq<Seq<char>>) -> Seq<(int, MatchModel)>
    decreases lines.len(),
{
    if lines.len() == 0 {
        Seq::empty()
    } else {
        line_candidates(patterns, lines.drop_last()) + match candidate_from(patterns, lines.last(), 0) {
            Some(c) => seq![c],
            None => Seq::empty(),
        }
    }
}

/// The candidates of the input: one per non-empty trimmed line that a pattern matches.
pub open spec fn input_candidates(patterns: Seq<PatternModel>, input: Seq<char>) -> Seq<(int, MatchModel)> {
    line_candidates(patterns, trimmed_lines(input))
}

/// The confidence of a candidate: the model's when it gives one, else the heuristic.
pub open spec fn candidate_confidence(
    patterns: Seq<PatternModel>,
    db: Seq<(Seq<char>, Seq<char>)>,
    c: (int, MatchModel),
    given: Option<u32>,
) -> int {
    match given {
        Some(b) => b as int,
        None => heuristic_confidence(db, c.1, patterns[c.0]),
    }
}

/// The candidates whose confidence reaches 0.6, in order, each carrying its confidence;
/// `bayes[i]` is the model's confidence for candidate `i`, if any.
pub open spec fn kept_candidates(
    patterns: Seq<PatternModel>,
    db: Seq<(Seq<char>, Seq<char>)>,
    cands: Seq<(int, MatchModel)>,
    bayes: Seq<Option<u32>>,
) -> Seq<MatchModel>
    decreases cands.len(),
{
    if cands.len() == 0 {
        Seq::empty()
    } else {
        let i = cands.len() - 1;
        let rest = kept_candidates(patterns, db, cands.drop_last(), bayes);
        let given = if i < bayes.len() {
            bayes[i]
        } else {
            None
        };
        let c = candidate_confidence(patterns, db, cands[i], given);
        if c >= 6000 {
            rest.push(MatchModel { confidence: c as u32, ..cands[i].1 })
        } else {
            rest
        }
    }
}

/// Where a match of confidence `c` goes in a list ranked most confident first: after every
/// match at least as confident.
pub open spec fn rank_pos(s: Seq<MatchModel>, c: u32) -> int
    decreases s.len(),
{
    if s.len() == 0 {
        0
    } else if s[0].confidence < c {
        0
    } else {
        1 + rank_pos(s.drop_first(), c)
    }
}

/// The matches ranked most confident first; equals keep their order.
pub open spec fn ranked(s: Seq<MatchModel>) -> Seq<MatchModel>
    decreases s.len(),
{
    if s.len() == 0 {
        Seq::empty()
    } else {
        let r = ranked(s.drop_last());
        r.insert(rank_pos(r, s.last().confidence), s.last())
    }
}

/// What the extractor gives for the input: the kept candidates, ranked.
pub open spec fn extracted(
    patterns: Seq<PatternModel>,
    db: Seq<(Seq<char>, Seq<char>)>,
    input: Seq<char>,
    bayes: Seq<Option<u32>>,
) -> Seq<MatchModel> {
    ranked(kept_candidates(patterns, db, input_candidates(patterns, input), bayes))
}

proof fn lemma_rank_pos(s: Seq<MatchModel>, c: u32, i: int)
    requires
        0 <= i <= s.len(),
        forall|j: int| 0 <= j < i ==> (#[trigger] s[j]).confidence >= c,
        i == s.len() || s[i].confidence < c,
    ensures
        rank_pos(s, c) == i,
    decreases i,
{
    if i > 0 {
        assert forall|j: int| 0 <= j < i - 1 implies (#[trigger] s.drop_first()[j]).confidence >= c by {
            assert(s.drop_first()[j] == s[j + 1]);
        }
        if i < s.len() {
            assert(s.drop_first()[i - 1] == s[i]);
        }
        lemma_rank_pos(s.drop_first(), c, i - 1);
    }
}

/// The candidates with their pattern positions.
pub open spec fn candidates_model(v: Seq<(usize, RuleMatch)>) -> Seq<(int, MatchModel)> {
    v.map_values(|c: (usize, RuleMatch)| (c.0 as int, c.1@))
}

/// Rule extraction engine.
pub struct RuleExtractor {
    patterns: Vec<ExtractionPattern>,
    rule_database: Vec<(String, String)>,
}

/// The mathematical content of a [`RuleExtractor`].
pub struct ExtractorModel {
    pub patterns: Seq<PatternModel>,
    pub rule_database: Seq<(Seq<char>, Seq<char>)>,
}

impl View for RuleExtractor {
    type V = ExtractorModel;

    closed spec fn view(&self) -> ExtractorModel {
        ExtractorModel {
            patterns: self.patterns@.map_values(|p: ExtractionPattern| p@),
            rule_database: self.rule_database@.map_values(|e: (String, String)| (e.0@, e.1@)),
        }
    }
}

impl RuleExtractor {
    /// The extractor with the three markdownlint patterns and three known rules.
    pub fn new() -> (r: Self)
        ensures
            r@ == (ExtractorModel { patterns: default_patterns(), rule_database: default_rule_database() }),
    {
        let mut patterns: Vec<ExtractionPattern> = Vec::new();
        patterns.push(
            ExtractionPattern {
                linter: lit("markdownlint"),
                pattern: lit("(MD\\d{3})(?:/[\\w-]+)?:.*?markdownlint(?:MD\\d{3})?"),
                confidence_weight: 9000,
            },
        );
        patterns.push(
            ExtractionPattern {
                linter: lit("markdownlint"),
                pattern: lit("(MD\\d{3})(?:/[\\w-]+)?:"),
                confidence_weight: 8000,
            },
        );
        patterns.push(
            ExtractionPattern { linter: lit("markdownlint"), pattern: lit("^(MD\\d{3})$"), confidence_weight: 7000 },
        );
        let mut rule_database: Vec<(String, String)> = Vec::new();
        push_pair(&mut rule_database, "MD033", "No inline HTML");
        push_pair(&mut rule_database, "MD041", "First line in file should be a top level heading");
        push_pair(&mut rule_database, "MD013", "Line length");
        let r = RuleExtractor { patterns, rule_database };
        assert(r@.patterns =~= default_patterns());
        assert(r@.rule_database =~= default_rule_database());
        r
    }

    /// The number of patterns.
    pub fn pattern_count(&self) -> (n: usize)
        ensures
            n == self@.patterns.len(),
    {
        self.patterns.len()
    }

    /// The patterns.
    pub fn patterns(&self) -> (p: &Vec<ExtractionPattern>)
        ensures
            p@.map_values(|x: ExtractionPattern| x@) == self@.patterns,
    {
        &self.patterns
    }

    /// The context recorded for a match in the input.
    pub fn extract_context(&self, input: &str) -> (c: ExtractedContext)
        ensures
            c@ == input_context(input@),
    {
        ExtractedContext {
            file_path: None,
            line_number: None,
            column: None,
            message: Some(String::from_str(input)),
            severity: Some(Severity::Warning),
        }
    }

    /// What the pattern at position `k` finds in the input.
    pub fn apply_pattern(&self, k: usize, input: &str) -> (r: Option<RuleMatch>)
        requires
            k < self@.patterns.len(),
        ensures
            match r {
                Some(m) => pattern_match(self@.patterns[k as int], input@) == Some(m@),
                None => pattern_match(self@.patterns[k as int], input@) is None,
            },
    {
        let p = &self.patterns[k];
        assert(p@ == self@.patterns[k as int]);
        match captures(p.pattern.as_str(), input) {
            Some(c) => match get_group(&c, 1) {
                Some(id) => Some(
                    RuleMatch {
                        rule_id: id,
                        linter: p.linter.clone(),
                        confidence: 0,
                        context: self.extract_context(input),
                        suggested_action: ConfigAction::Disable,
                    },
                ),
                None => None,
            },
            None => None,
        }
    }

    /// Whether the extractor knows a description of the rule.
    fn knows_rule(&self, rule_id: &str) -> (b: bool)
        ensures
            b == exists|i: int| 0 <= i < self@.rule_database.len() && (#[trigger] self@.rule_database[i]).0 == rule_id@,
    {
        let ghost db = self@.rule_database;
        let mut i: usize = 0;
        while i < self.rule_database.len()
            invariant
                i <= self.rule_database@.len(),
                db == self@.rule_database,
                forall|j: int| 0 <= j < i ==> (#[trigger] db[j]).0 != rule_id@,
            decreases self.rule_database@.len() - i,
        {
            if str_equal(self.rule_database[i].0.as_str(), rule_id) {
                assert(db[i as int].0 == rule_id@);
                return true;
            }
            i = i + 1;
        }
        false
    }

    /// How relevant the match's context is, in basis points.
    pub fn calculate_context_relevance(&self, m: &RuleMatch) -> (r: u32)
        ensures
            r == context_relevance(self@.rule_database, m@),
    {
        let known: u32 = if self.knows_rule(m.rule_id.as_str()) {
            3000
        } else {
            0
        };
        let message: u32 = if m.context.message.is_some() {
            2000
        } else {
            0
        };
        let raw = 5000 + known + message;
        if raw > 10000 {
            10000
        } else {
            raw
        }
    }

    /// The heuristic confidence of the match found by the pattern at position `k`.
    pub fn calculate_confidence_heuristic(&self, m: &RuleMatch, k: usize) -> (c: u32)
        requires
            k < self@.patterns.len(),
        ensures
            c == heuristic_confidence(self@.rule_database, m@, self@.patterns[k as int]),
            c <= 10000,
    {
        proof {
            use_type_invariant(self);
        }
        let exact: u64 = if md_rule_id_ok(m.rule_id.as_str()) {
            10000
        } else {
            0
        };
        let weight = self.patterns[k].confidence_weight as u64;
        assert(weight == self@.patterns[k as int].confidence_weight);
        let context = self.calculate_context_relevance(m) as u64;
        ((6000 * exact + 3000 * weight + 1000 * context) / 10000) as u32
    }

    /// The candidate the first matching pattern finds in the line, with that pattern's
    /// position.
    pub fn line_candidate(&self, line: &str) -> (r: Option<(usize, RuleMatch)>)
        ensures
            match r {
                Some(c) => candidate_from(self@.patterns, line@, 0) == Some((c.0 as int, c.1@)) && c.0
                    < self@.patterns.len(),
                None => candidate_from(self@.patterns, line@, 0) is None,
            },
    {
        let ghost ps = self@.patterns;
        let mut k: usize = 0;
        while k < self.patterns.len()
            invariant
                k <= ps.len(),
                ps == self@.patterns,
                ps.len() == self.patterns@.len(),
                candidate_from(ps, line@, 0) == candidate_from(ps, line@, k as int),
            decreases self.patterns@.len() - k,
        {
            match self.apply_pattern(k, line) {
                Some(m) => {
                    return Some((k, m));
                },
                None => {},
            }
            k = k + 1;
        }
        None
    }

    /// The candidates of the input: the first pattern's find in each non-empty trimmed line.
    pub fn candidates(&self, input: &str) -> (r: Vec<(usize, RuleMatch)>)
        ensures
            candidates_model(r@) == input_candidates(self@.patterns, input@),
            forall|i: int| 0 <= i < r@.len() ==> (#[trigger] r@[i]).0 < self@.patterns.len(),
    {
        let lines = nonempty_trimmed_lines(input);
        let ghost ls = trimmed_lines(input@);
        let ghost ps = self@.patterns;
        let mut r: Vec<(usize, RuleMatch)> = Vec::new();
        let mut i: usize = 0;
        while i < lines.len()
            invariant
                vecs_model(lines@) == ls,
                ps == self@.patterns,
                i <= lines@.len(),
                candidates_model(r@) == line_candidates(ps, ls.take(i as int)),
                forall|t: int| 0 <= t < r@.len() ==> (#[trigger] r@[t]).0 < ps.len(),
            decreases lines@.len() - i,
        {
            let line = chars_to_string(&lines[i]);
            assert(line@ == ls[i as int]);
            assert(ls.take(i + 1).drop_last() == ls.take(i as int));
            match self.line_candidate(line.as_str()) {
                Some(c) => {
                    let ghost cm = (c.0 as int, c.1@);
                    r.push(c);
                    assert(candidates_model(r@) =~= candidates_model(r@.drop_last()).push(cm));
                },
                None => {},
            }
            assert(candidates_model(r@) =~= line_candidates(ps, ls.take(i + 1)));
            i = i + 1;
        }
        assert(ls.take(lines@.len() as int) == ls);
        r
    }

    /// The candidates whose confidence reaches 0.6, in order, each carrying its confidence;
    /// `bayes[i]` is the confidence a trained model gives candidate `i`, if any.
    pub fn keep_candidates(&self, cands: Vec<(usize, RuleMatch)>, bayes: &Vec<Option<u32>>) -> (r: Vec<RuleMatch>)
        requires
            forall|i: int| 0 <= i < cands@.len() ==> (#[trigger] cands@[i]).0 < self@.patterns.len(),
        ensures
            matches_model(r@) == kept_candidates(self@.patterns, self@.rule_database, candidates_model(cands@), bayes@),
    {
        let ghost cs = candidates_model(cands@);
        let n = cands.len();
        let ghost ps = self@.patterns;
        let mut rest = cands;
        let mut r: Vec<RuleMatch> = Vec::new();
        let mut i: usize = 0;
        while rest.len() > 0
            invariant
                ps == self@.patterns,
                cs.len() == n,
                i + rest@.len() == n,
                candidates_model(rest@) == cs.skip(i as int),
                forall|t: int| 0 <= t < rest@.len() ==> (#[trigger] rest@[t]).0 < ps.len(),
                matches_model(r@) == kept_candidates(ps, self@.rule_database, cs.take(i as int), bayes@),
            decreases rest@.len(),
        {
            assert(candidates_model(rest@)[0] == cs[i as int]);
            let ghost before = rest@;
            let (k, m) = rest.remove(0);
            assert(rest@ =~= before.drop_first());
            assert(candidates_model(before).drop_first() =~= cs.skip(i + 1));
            assert(candidates_model(rest@) =~= candidates_model(before).drop_first());
            assert(cs.take(i + 1).drop_last() =~= cs.take(i as int));
            assert(cs.take(i + 1)[i as int] == cs[i as int]);
            let given: Option<u32> = if i < bayes.len() {
                bayes[i]
            } else {
                None
            };
            let c = match given {
                Some(b) => b,
                None => self.calculate_confidence_heuristic(&m, k),
            };
            if c >= MINIMUM_CONFIDENCE_THRESHOLD {
                let kept = RuleMatch {
                    rule_id: m.rule_id,
                    linter: m.linter,
                    confidence: c,
                    context: m.context,
                    suggested_action: m.suggested_action,
                };
                let ghost km = kept@;
                r.push(kept);
                assert(matches_model(r@) =~= matches_model(r@.drop_last()).push(km));
            }
            i = i + 1;
        }
        assert(cs.take(n as int) =~= cs);
        r
    }

    /// The matches ranked most confident first; equals keep their order.
    pub fn rank_by_confidence(matches: Vec<RuleMatch>) -> (r: Vec<RuleMatch>)
        ensures
            matches_model(r@) == ranked(matches_model(matches@)),
    {
        let ghost ms = matches_model(matches@);
        let n = matches.len();
        let mut rest = matches;
        let mut r: Vec<RuleMatch> = Vec::new();
        let mut i: usize = 0;
        while rest.len() > 0
            invariant
                ms.len() == n,
                i + rest@.len() == n,
                matches_model(rest@) == ms.skip(i as int),
                matches_model(r@) == ranked(ms.take(i as int)),
            decreases rest@.len(),
        {
            assert(matches_model(rest@)[0] == ms[i as int]);
            let ghost before = rest@;
            let m = rest.remove(0);
            assert(rest@ =~= before.drop_first());
            assert(matches_model(before).drop_first() =~= ms.skip(i + 1));
            assert(matches_model(rest@) =~= matches_model(before).drop_first());
            assert(ms.take(i + 1).drop_last() =~= ms.take(i as int));
            assert(ms.take(i + 1).last() == m@);
            let ghost rm = matches_model(r@);
            let mut j: usize = 0;
            while j < r.len() && r[j].confidence >= m.confidence
                invariant
                    j <= r@.len(),
                    rm == matches_model(r@),
                    forall|t: int| 0 <= t < j ==> (#[trigger] rm[t]).confidence >= m.confidence,
                decreases r@.len() - j,
            {
                assert(rm[j as int] == r@[j as int]@);
                j = j + 1;
            }
            proof {
                if j < r@.len() {
                    assert(rm[j as int] == r@[j as int]@);
                }
                lemma_rank_pos(rm, m.confidence, j as int);
            }
            let ghost mm = m@;
            r.insert(j, m);
            assert(matches_model(r@) =~= rm.insert(j as int, mm));
            i = i + 1;
        }
        assert(ms.take(n as int) =~= ms);
        r
    }

    /// The rules of the input: the kept candidates, ranked; `bayes[i]` is the confidence a
    /// trained model gives candidate `i` of [`RuleExtractor::candidates`], if any.
    pub fn extract_rules_with(&self, input: &str, bayes: &Vec<Option<u32>>) -> (r: Vec<RuleMatch>)
        ensures
            matches_model(r@) == extracted(self@.patterns, self@.rule_database, input@, bayes@),
    {
        let cands = self.candidates(input);
        let kept = self.keep_candidates(cands, bayes);
        Self::rank_by_confidence(kept)
    }

    /// The rules of the input when no trained model scores them: by the heuristic alone.
    pub fn extract_rules(&self, input: &str) -> (r: Vec<RuleMatch>)
        ensures
            matches_model(r@) == extracted(self@.patterns, self@.rule_database, input@, Seq::empty()),
    {
        let none: Vec<Option<u32>> = Vec::new();
        self.extract_rules_with(input, &none)
    }
}

impl RuleExtractor {
    #[verifier::type_invariant]
    spec fn inv(self) -> bool {
        forall|k: int| 0 <= k < self.patterns@.len() ==> (#[trigger] self.patterns@[k]).confidence_weight <= 10000
    }
}

} // verus!
