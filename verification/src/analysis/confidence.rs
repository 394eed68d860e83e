//! Confidence scoring for rule matches.
//!
//! Every score is in basis points (`10000` is 1.0). The overall confidence is the weighted sum
//! 0.4 · exact + 0.25 · context + 0.2 · frequency + 0.15 · format of four partial scores.
use vstd::prelude::*;
use crate::analysis::{ContextModel, ExtractedContext, MatchModel, RuleMatch};
use crate::text::{byte_len, is_digit, is_prefix, str_equal, str_has_char, str_starts_with, to_chars};

verus! {

/// Confidence at or above which a change can be applied automatically (0.85).
pub const HIGH_CONFIDENCE_THRESHOLD: u32 = 8500;

/// Medium confidence threshold, below high and above low (0.60).
pub const MEDIUM_CONFIDENCE_THRESHOLD: u32 = 6000;

/// Low confidence threshold, the least acceptable certainty (0.30).
pub const LOW_CONFIDENCE_THRESHOLD: u32 = 3000;

/// How often each rule has been seen, by rule identifier.
pub open spec fn frequency_of(freq: Map<Seq<char>, u32>, id: Seq<char>) -> nat {
    if freq.contains_key(id) {
        freq[id] as nat
    } else {
        0
    }
}

/// The linters whose identifiers count as a partial match.
pub open spec fn known_linter(l: Seq<char>) -> bool {
    l == "markdownlint"@ || l == "eslint"@ || l == "pylint"@
}

/// Score for how exactly the rule identifier was matched.
pub open spec fn exact_match_score(m: MatchModel) -> int {
    if m.confidence > 9500 {
        10000
    } else if known_linter(m.linter) {
        8000
    } else {
        5000
    }
}

/// A message longer than ten bytes that holds a colon.
pub open spec fn informative_message(msg: Seq<char>) -> bool {
    byte_len(msg) > 10 && msg.contains(':')
}

/// Score for the context that came with the match: 0.5, plus 0.2 for a file path, 0.15 for a
/// line number, 0.25 for an informative message and 0.1 for a severity, at most 1.0.
pub open spec fn context_score(c: ContextModel) -> int {
    let raw = 5000 + (if c.file_path is Some {
        2000int
    } else {
        0int
    }) + (if c.line_number is Some {
        1500int
    } else {
        0int
    }) + (match c.message {
        Some(m) => if informative_message(m) {
            2500int
        } else {
            0int
        },
        None => 0int,
    }) + (if c.severity is Some {
        1000int
    } else {
        0int
    });
    if raw > 10000 {
        10000
    } else {
        raw
    }
}

/// Score for how often a rule has been seen.
pub open spec fn frequency_score(n: nat) -> int {
    if n == 0 {
        3000
    } else if n <= 5 {
        6000
    } else if n <= 20 {
        8000
    } else {
        9000
    }
}

/// An ASCII letter, an ASCII digit or `-`.
pub open spec fn ascii_alnum_or_dash(c: char) -> bool {
    ('a' <= c && c <= 'z') || ('A' <= c && c <= 'Z') || ('0' <= c && c <= '9') || c == '-'
}

/// Score for the shape of a rule identifier: `MD` and three digits (five bytes) 1.0, a name
/// starting with `ESLint` 0.9, ASCII letters, digits and dashes 0.7, anything else 0.3.
pub open spec fn format_score(id: Seq<char>) -> int {
    if is_prefix("MD"@, id) && byte_len(id) == 5 {
        if forall|i: int| 2 <= i < id.len() ==> is_digit(#[trigger] id[i]) {
            10000
        } else {
            3000
        }
    } else if is_prefix("ESLint"@, id) {
        9000
    } else if forall|i: int| 0 <= i < id.len() ==> ascii_alnum_or_dash(#[trigger] id[i]) {
        7000
    } else {
        3000
    }
}

/// The weighted combination of the four partial scores.
pub open spec fn combined_confidence(exact: int, context: int, frequency: int, format: int) -> int {
    (4000 * exact + 2500 * context + 2000 * frequency + 1500 * format) / 10000
}

/// The overall confidence for a match, given how often each rule has been seen.
pub open spec fn confidence_for(freq: Map<Seq<char>, u32>, m: MatchModel) -> int {
    combined_confidence(
        exact_match_score(m),
        context_score(m.context),
        frequency_score(frequency_of(freq, m.rule_id)),
        format_score(m.rule_id),
    )
}

/// The name of the band a confidence falls in.
pub open spec fn confidence_level(c: u32) -> Seq<char> {
    if c >= 8500 {
        "High"@
    } else if c >= 6000 {
        "Medium"@
    } else if c >= 3000 {
        "Low"@
    } else {
        "Very Low"@
    }
}

/// Weights added to the context score for each piece of context, in basis points.
struct ContextWeights {
    file_path: u32,
    line_number: u32,
    message: u32,
    severity: u32,
    rule_id_format: u32,
}

/// Confidence calculator for rule matches; it learns how often each rule occurs.
pub struct ConfidenceCalculator {
    rule_frequency: Vec<(String, u32)>,
    context_weights: ContextWeights,
}

/// The counts held in a list of (rule, count) pairs.
spec fn freq_map(t: Seq<(String, u32)>) -> Map<Seq<char>, u32> {
    Map::new(
        |k: Seq<char>| exists|i: int| 0 <= i < t.len() && (#[trigger] t[i]).0@ == k,
        |k: Seq<char>| t[choose|i: int| 0 <= i < t.len() && (#[trigger] t[i]).0@ == k].1,
    )
}

/// No rule occurs twice in the list.
spec fn unique_keys(t: Seq<(String, u32)>) -> bool {
    forall|i: int, j: int|
        0 <= i < t.len() && 0 <= j < t.len() && i != j ==> (#[trigger] t[i]).0@ != (#[trigger] t[j]).0@
}

impl View for ConfidenceCalculator {
    type V = Map<Seq<char>, u32>;

    closed spec fn view(&self) -> Map<Seq<char>, u32> {
        freq_map(self.rule_frequency@)
    }
}

impl ConfidenceCalculator {
    #[verifier::type_invariant]
    spec fn well_formed(self) -> bool {
        &&& unique_keys(self.rule_frequency@)
        &&& self.context_weights.file_path == 2000
        &&& self.context_weights.line_number == 1500
        &&& self.context_weights.message == 2500
        &&& self.context_weights.severity == 1000
        &&& self.context_weights.rule_id_format == 3000
    }

    /// A calculator that has seen no rule yet.
    pub fn new() -> (c: Self)
        ensures
            c@ == Map::<Seq<char>, u32>::empty(),
    {
        let c = ConfidenceCalculator {
            rule_frequency: Vec::new(),
            context_weights: ContextWeights {
                file_path: 2000,
                line_number: 1500,
                message: 2500,
                severity: 1000,
                rule_id_format: 3000,
            },
        };
        assert(c@ =~= Map::<Seq<char>, u32>::empty());
        c
    }

    /// Overall confidence for a rule match.
    pub fn calculate_confidence(&self, rule_match: &RuleMatch) -> (c: u32)
        ensures
            c == confidence_for(self@, rule_match@),
            c <= 10000,
    {
        let exact = self.calculate_exact_match_score(rule_match);
        let context = self.calculate_context_score(&rule_match.context);
        let frequency = self.calculate_frequency_score(rule_match.rule_id.as_str());
        let format = self.calculate_format_score(rule_match.rule_id.as_str());
        let total: u64 = 4000 * (exact as u64) + 2500 * (context as u64) + 2000 * (frequency as u64)
            + 1500 * (format as u64);
        (total / 10000) as u32
    }

    fn calculate_exact_match_score(&self, rule_match: &RuleMatch) -> (s: u32)
        ensures
            s == exact_match_score(rule_match@),
    {
        if rule_match.has_exact_id_match() {
            10000
        } else {
            let l = rule_match.linter.as_str();
            if str_equal(l, "markdownlint") || str_equal(l, "eslint") || str_equal(l, "pylint") {
                8000
            } else {
                5000
            }
        }
    }

    fn calculate_context_score(&self, context: &ExtractedContext) -> (s: u32)
        ensures
            s == context_score(context@),
    {
        proof {
            use_type_invariant(self);
        }
        let mut score: u32 = 5000;
        if context.file_path.is_some() {
            score = score + self.context_weights.file_path;
        }
        if context.line_number.is_some() {
            score = score + self.context_weights.line_number;
        }
        match &context.message {
            Some(message) => {
                if message.as_str().len() > 10 && str_has_char(message.as_str(), ':') {
                    score = score + self.context_weights.message;
                }
            },
            None => {},
        }
        if context.severity.is_some() {
            score = score + self.context_weights.severity;
        }
        if score > 10000 {
            10000
        } else {
            score
        }
    }

    /// How often the rule has been seen.
    fn frequency(&self, rule_id: &str) -> (n: u32)
        ensures
            n == frequency_of(self@, rule_id@),
    {
        match self.find(rule_id) {
            Some(i) => self.rule_frequency[i].1,
            None => 0,
        }
    }

    /// Position of the rule in the frequency list.
    fn find(&self, rule_id: &str) -> (r: Option<usize>)
        ensures
            match r {
                Some(i) => i < self.rule_frequency@.len() && self.rule_frequency@[i as int].0@
                    == rule_id@ && self@.contains_key(rule_id@) && self@[rule_id@]
                    == self.rule_frequency@[i as int].1,
                None => !self@.contains_key(rule_id@),
            },
    {
        proof {
            use_type_invariant(self);
        }
        let key = to_chars(rule_id);
        let mut i: usize = 0;
        while i < self.rule_frequency.len()
            invariant
                i <= self.rule_frequency@.len(),
                key@ == rule_id@,
                forall|t: int| 0 <= t < i ==> (#[trigger] self.rule_frequency@[t]).0@ != rule_id@,
            decreases self.rule_frequency@.len() - i,
        {
            let k = to_chars(self.rule_frequency[i].0.as_str());
            if crate::text::vec_equal(&k, &key) {
                proof {
                    use_type_invariant(self);
                    let t = self.rule_frequency@;
                    assert(t[i as int].0@ == rule_id@);
                    assert(self@.contains_key(rule_id@));
                    let j = choose|j: int| 0 <= j < t.len() && (#[trigger] t[j]).0@ == rule_id@;
                    assert(j == i);
                }
                return Some(i);
            }
            i = i + 1;
        }
        None
    }

    fn calculate_frequency_score(&self, rule_id: &str) -> (s: u32)
        ensures
            s == frequency_score(frequency_of(self@, rule_id@)),
    {
        let n = self.frequency(rule_id);
        if n == 0 {
            3000
        } else if n <= 5 {
            6000
        } else if n <= 20 {
            8000
        } else {
            9000
        }
    }

    fn calculate_format_score(&self, rule_id: &str) -> (s: u32)
        ensures
            s == format_score(rule_id@),
    {
        let chars = to_chars(rule_id);
        proof {
            reveal_strlit("MD");
        }
        assert(rule_id.len() == byte_len(rule_id@));
        if str_starts_with(rule_id, "MD") && rule_id.len() == 5 {
            let mut i: usize = 2;
            while i < chars.len()
                invariant
                    2 <= i <= chars@.len(),
                    chars@ == rule_id@,
                    is_prefix("MD"@, rule_id@) && byte_len(rule_id@) == 5,
                    forall|t: int| 2 <= t < i ==> is_digit(#[trigger] chars@[t]),
                decreases chars@.len() - i,
            {
                if !('0' <= chars[i] && chars[i] <= '9') {
                    assert(!is_digit(rule_id@[i as int]));
                    return 3000;
                }
                i = i + 1;
            }
            10000
        } else if str_starts_with(rule_id, "ESLint") {
            9000
        } else {
            let mut i: usize = 0;
            while i < chars.len()
                invariant
                    i <= chars@.len(),
                    chars@ == rule_id@,
                    !(is_prefix("MD"@, rule_id@) && byte_len(rule_id@) == 5),
                    !is_prefix("ESLint"@, rule_id@),
                    forall|t: int| 0 <= t < i ==> ascii_alnum_or_dash(#[trigger] chars@[t]),
                decreases chars@.len() - i,
            {
                let c = chars[i];
                if !(('a' <= c && c <= 'z') || ('A' <= c && c <= 'Z') || ('0' <= c && c <= '9')
                    || c == '-') {
                    assert(!ascii_alnum_or_dash(rule_id@[i as int]));
                    return 3000;
                }
                i = i + 1;
            }
            7000
        }
    }

    /// Counts one more occurrence of the rule.
    pub fn update_frequency(&mut self, rule_id: &str)
        requires
            frequency_of(old(self)@, rule_id@) < u32::MAX,
        ensures
            final(self)@ == old(self)@.insert(rule_id@, (frequency_of(old(self)@, rule_id@) + 1) as u32),
    {
        proof {
            use_type_invariant(&*self);
        }
        let ghost before = self.rule_frequency@;
        match self.find(rule_id) {
            Some(i) => {
                let n = self.rule_frequency[i].1;
                let mut entries: Vec<(String, u32)> = Vec::new();
                std::mem::swap(&mut entries, &mut self.rule_frequency);
                let key = entries[i].0.clone();
                entries.set(i, (key, n + 1));
                proof {
                    let t = entries@;
                    assert forall|a: int, b: int|
                        0 <= a < t.len() && 0 <= b < t.len() && a != b implies (#[trigger] t[a]).0@
                        != (#[trigger] t[b]).0@ by {
                        assert(before[a].0@ != before[b].0@);
                    }
                    assert forall|k: Seq<char>| #![auto]
                        freq_map(t).contains_key(k) == old(self)@.insert(
                            rule_id@,
                            (n + 1) as u32,
                        ).contains_key(k) by {
                        if k != rule_id@ {
                            if freq_map(before).contains_key(k) {
                                let j = choose|j: int|
                                    0 <= j < before.len() && (#[trigger] before[j]).0@ == k;
                                assert(t[j].0@ == k);
                            }
                            if freq_map(t).contains_key(k) {
                                let j = choose|j: int| 0 <= j < t.len() && (#[trigger] t[j]).0@ == k;
                                assert(before[j].0@ == k);
                            }
                        } else {
                            assert(t[i as int].0@ == k);
                        }
                    }
                    assert forall|k: Seq<char>| #[trigger]
                        freq_map(t).contains_key(k) implies freq_map(t)[k] == old(self)@.insert(
                            rule_id@,
                            (n + 1) as u32,
                        )[k] by {
                        let j = choose|j: int| 0 <= j < t.len() && (#[trigger] t[j]).0@ == k;
                        if k != rule_id@ {
                            assert(before[j].0@ == k);
                            let j0 = choose|j0: int|
                                0 <= j0 < before.len() && (#[trigger] before[j0]).0@ == k;
                            assert(j0 == j);
                        } else {
                            assert(t[i as int].0@ == k);
                            assert(j == i);
                        }
                    }
                    assert(freq_map(t) =~= old(self)@.insert(rule_id@, (n + 1) as u32));
                }
                self.rule_frequency = entries;
            },
            None => {
                let mut entries: Vec<(String, u32)> = Vec::new();
                std::mem::swap(&mut entries, &mut self.rule_frequency);
                entries.push((String::from_str(rule_id), 1));
                proof {
                    let t = entries@;
                    let last = before.len() as int;
                    assert(t[last].0@ == rule_id@);
                    assert forall|a: int, b: int|
                        0 <= a < t.len() && 0 <= b < t.len() && a != b implies (#[trigger] t[a]).0@
                        != (#[trigger] t[b]).0@ by {
                        if a < last && b < last {
                            assert(before[a].0@ != before[b].0@);
                        } else if a < last {
                            assert(t[a] == before[a]);
                            assert(!freq_map(before).contains_key(rule_id@));
                        } else if b < last {
                            assert(t[b] == before[b]);
                            assert(!freq_map(before).contains_key(rule_id@));
                        }
                    }
                    assert forall|k: Seq<char>| #![auto]
                        freq_map(t).contains_key(k) == old(self)@.insert(rule_id@, 1u32).contains_key(
                            k,
                        ) by {
                        if freq_map(before).contains_key(k) {
                            let j = choose|j: int|
                                0 <= j < before.len() && (#[trigger] before[j]).0@ == k;
                            assert(t[j].0@ == k);
                        }
                        if freq_map(t).contains_key(k) && k != rule_id@ {
                            let j = choose|j: int| 0 <= j < t.len() && (#[trigger] t[j]).0@ == k;
                            assert(j < last);
                            assert(before[j].0@ == k);
                        }
                    }
                    assert forall|k: Seq<char>| #[trigger]
                        freq_map(t).contains_key(k) implies freq_map(t)[k] == old(self)@.insert(
                            rule_id@,
                            1u32,
                        )[k] by {
                        let j = choose|j: int| 0 <= j < t.len() && (#[trigger] t[j]).0@ == k;
                        if k != rule_id@ {
                            assert(j < last);
                            assert(before[j].0@ == k);
                            let j0 = choose|j0: int|
                                0 <= j0 < before.len() && (#[trigger] before[j0]).0@ == k;
                            assert(j0 == j);
                        } else {
                            assert(j == last);
                        }
                    }
                    assert(freq_map(t) =~= old(self)@.insert(rule_id@, 1u32));
                }
                self.rule_frequency = entries;
            },
        }
    }

    /// The name of the band a confidence falls in.
    pub fn get_confidence_level(&self, confidence: u32) -> (s: &'static str)
        ensures
            s@ == confidence_level(confidence),
    {
        if confidence >= HIGH_CONFIDENCE_THRESHOLD {
            "High"
        } else if confidence >= MEDIUM_CONFIDENCE_THRESHOLD {
            "Medium"
        } else if confidence >= LOW_CONFIDENCE_THRESHOLD {
            "Low"
        } else {
            "Very Low"
        }
    }

    /// Whether the confidence suffices to apply a change without asking.
    pub fn is_auto_apply(&self, confidence: u32) -> (b: bool)
        ensures
            b == (confidence >= 8500),
    {
        confidence >= HIGH_CONFIDENCE_THRESHOLD
    }

    /// Whether the confidence calls for the user's confirmation.
    pub fn requires_confirmation(&self, confidence: u32) -> (b: bool)
        ensures
            b == (6000 <= confidence && confidence < 8500),
    {
        MEDIUM_CONFIDENCE_THRESHOLD <= confidence && confidence < HIGH_CONFIDENCE_THRESHOLD
    }
}

/// Seeing a rule more often never lowers its frequency score, and every overall confidence
/// lies between 0 and 1.
pub proof fn law_confidence_bounds(freq: Map<Seq<char>, u32>, m: MatchModel, n1: nat, n2: nat)
    ensures
        n1 <= n2 ==> frequency_score(n1) <= frequency_score(n2),
        0 <= confidence_for(freq, m) <= 10000,
{
    let e = exact_match_score(m);
    let c = context_score(m.context);
    let f = frequency_score(frequency_of(freq, m.rule_id));
    let t = format_score(m.rule_id);
    assert(0 <= 4000 * e + 2500 * c + 2000 * f + 1500 * t <= 100000000);
}

} // verus!
