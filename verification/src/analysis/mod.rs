//! Rule matching data, confidence scoring and similarity.
//!
//! Confidence values are kept in basis points: `10000` stands for certainty (1.0) and every
//! score step the scoring rules use (tenths, hundredths and their weighted sums) is a whole
//! number of basis points.
pub mod bayesian;
pub mod confidence;
pub mod extractor;
pub mod ontology;
pub mod semantic;
pub mod similarity;

use std::collections::HashMap;
use vstd::prelude::*;
use crate::config::opt_chars;

verus! {

/// Basis points that make up a confidence of 1.0.
pub const CONFIDENCE_SCALE: u32 = 10000;

/// Rule severity levels.
#[derive(Debug, Clone, Copy, PartialEq, Eq, Structural)]
pub enum Severity {
    /// Error severity
    Error,
    /// Warning severity
    Warning,
    /// Informational severity
    Info,
    /// Hint level
    Hint,
    /// Rule disabled
    Off,
}

/// Rule categories for organization.
#[derive(Debug, Clone, Copy, PartialEq, Eq, Structural)]
pub enum RuleCategory {
    /// Code style rules
    Style,
    /// Best-practice recommendations
    BestPractice,
    /// Error-prone code patterns
    ErrorProne,
    /// Complexity-related rules
    Complexity,
    /// Performance-related rules
    Performance,
    /// Security-related rules
    Security,
    /// Documentation-related rules
    Documentation,
    /// Other uncategorized rules
    Other,
}

/// Actions that can be taken on a rule.
#[derive(Debug, Clone, Copy, PartialEq, Eq, Hash, Structural)]
pub enum ConfigAction {
    /// Disable the rule
    Disable,
    /// Ignore rule violations
    Ignore,
    /// Modify rule behavior
    Modify,
    /// Enable rule enforcement
    Enable,
}

/// Scope of configuration application.
#[derive(Debug, Clone, Copy, PartialEq, Eq, Hash, Structural)]
pub enum ConfigScope {
    /// Project-wide scope
    Global,
    /// Specific file scope
    FileSpecific,
    /// Inline (line-level) scope
    Inline,
    /// Directory-level scope
    Directory,
}

/// Configuration entry for a rule.
#[derive(Debug)]
pub struct ConfigEntry {
    /// Target rule identifier
    pub rule_id: String,
    /// Action to take for this rule
    pub action: ConfigAction,
    /// Scope where the configuration applies
    pub scope: ConfigScope,
    /// Tool-specific options, each a JSON value by name
    pub metadata: HashMap<String, serde_json::Value>,
}

/// A JSON value from `serde_json`, carried through unread.
#[verifier::external_type_specification]
#[verifier::external_body]
pub struct ExJsonValue(serde_json::Value);

/// Extracted context from rule input.
#[derive(Debug, Clone)]
pub struct ExtractedContext {
    /// Source file path if known
    pub file_path: Option<String>,
    /// Line number where the issue occurred
    pub line_number: Option<u32>,
    /// Column number where the issue occurred
    pub column: Option<u32>,
    /// Original linter message
    pub message: Option<String>,
    /// Parsed severity from the linter output
    pub severity: Option<Severity>,
}

/// Result of rule extraction with confidence scoring.
#[derive(Debug, Clone)]
pub struct RuleMatch {
    /// Matched rule identifier
    pub rule_id: String,
    /// Linter that produced this match
    pub linter: String,
    /// Confidence of the match, in basis points (0 to 10000)
    pub confidence: u32,
    /// Extracted context from the input
    pub context: ExtractedContext,
    /// Suggested action based on heuristics
    pub suggested_action: ConfigAction,
}

/// The mathematical content of an [`ExtractedContext`].
pub struct ContextModel {
    pub file_path: Option<Seq<char>>,
    pub line_number: Option<u32>,
    pub column: Option<u32>,
    pub message: Option<Seq<char>>,
    pub severity: Option<Severity>,
}

impl View for ExtractedContext {
    type V = ContextModel;

    open spec fn view(&self) -> ContextModel {
        ContextModel {
            file_path: opt_chars(self.file_path),
            line_number: self.line_number,
            column: self.column,
            message: opt_chars(self.message),
            severity: self.severity,
        }
    }
}

/// The mathematical content of a [`RuleMatch`].
pub struct MatchModel {
    pub rule_id: Seq<char>,
    pub linter: Seq<char>,
    pub confidence: u32,
    pub context: ContextModel,
    pub suggested_action: ConfigAction,
}

impl View for RuleMatch {
    type V = MatchModel;

    open spec fn view(&self) -> MatchModel {
        MatchModel {
            rule_id: self.rule_id@,
            linter: self.linter@,
            confidence: self.confidence,
            context: self.context@,
            suggested_action: self.suggested_action,
        }
    }
}

/// The models of a sequence of matches.
pub open spec fn matches_model(s: Seq<RuleMatch>) -> Seq<MatchModel> {
    s.map_values(|m: RuleMatch| m@)
}

impl ExtractedContext {
    /// A copy of this context.
    pub fn copy(&self) -> (r: ExtractedContext)
        ensures
            r@ == self@,
    {
        ExtractedContext {
            file_path: crate::config::copy_opt_string(&self.file_path),
            line_number: self.line_number,
            column: self.column,
            message: crate::config::copy_opt_string(&self.message),
            severity: self.severity,
        }
    }
}

impl RuleMatch {
    /// A copy of this match.
    pub fn copy(&self) -> (r: RuleMatch)
        ensures
            r@ == self@,
    {
        RuleMatch {
            rule_id: self.rule_id.clone(),
            linter: self.linter.clone(),
            confidence: self.confidence,
            context: self.context.copy(),
            suggested_action: self.suggested_action,
        }
    }

    /// Whether the confidence is above 0.95, which counts as an exact identifier match.
    pub fn has_exact_id_match(&self) -> (b: bool)
        ensures
            b == (self.confidence > 9500),
    {
        self.confidence > 9500
    }
}

} // verus!
