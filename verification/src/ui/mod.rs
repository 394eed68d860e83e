//! User interface state and the text it shows.
pub mod cli;
pub mod enhanced;
pub mod error_recovery;
pub mod help_system;
pub mod interactive;

use vstd::prelude::*;
use crate::analysis::{ConfigAction, RuleMatch};
use crate::text::{decimal, usize_to_decimal};
use crate::utils::concat;

verus! {

/// The name of an action, as `Debug` prints it.
pub open spec fn action_label(a: ConfigAction) -> Seq<char> {
    match a {
        ConfigAction::Disable => "Disable"@,
        ConfigAction::Ignore => "Ignore"@,
        ConfigAction::Modify => "Modify"@,
        ConfigAction::Enable => "Enable"@,
    }
}

/// The name of an action.
pub fn action_name(a: ConfigAction) -> (s: &'static str)
    ensures
        s@ == action_label(a),
{
    match a {
        ConfigAction::Disable => "Disable",
        ConfigAction::Ignore => "Ignore",
        ConfigAction::Modify => "Modify",
        ConfigAction::Enable => "Enable",
    }
}

/// A confidence as a whole percentage, capped at 255 like a conversion to `u8`.
pub open spec fn confidence_percent(confidence: u32) -> nat {
    if confidence / 100 > 255 {
        255
    } else {
        (confidence / 100) as nat
    }
}

/// Mode switches of the user interface.
#[derive(Debug, Clone, Copy)]
pub struct UIManager {
    /// If true, enable interactive prompts
    pub interactive: bool,
    /// If true, show verbose output
    pub verbose: bool,
    /// If true, perform a dry run without side effects
    pub dry_run: bool,
}

impl UIManager {
    /// The modes a new interface starts in.
    pub open spec fn new_spec() -> UIManager {
        UIManager { interactive: true, verbose: false, dry_run: false }
    }

    /// Interactive, terse, and making changes.
    pub fn new() -> (m: Self)
        ensures
            m == UIManager::new_spec(),
    {
        UIManager { interactive: true, verbose: false, dry_run: false }
    }

    /// Sets interactive mode.
    pub fn set_interactive(&mut self, interactive: bool)
        ensures
            *final(self) == (UIManager { interactive, ..*old(self) }),
    {
        self.interactive = interactive;
    }

    /// Sets verbose mode.
    pub fn set_verbose(&mut self, verbose: bool)
        ensures
            *final(self) == (UIManager { verbose, ..*old(self) }),
    {
        self.verbose = verbose;
    }

    /// Sets dry-run mode.
    pub fn set_dry_run(&mut self, dry_run: bool)
        ensures
            *final(self) == (UIManager { dry_run, ..*old(self) }),
    {
        self.dry_run = dry_run;
    }

    /// The line shown for a success: marked with a check when verbose.
    pub fn success_message(&self, message: &str) -> (r: String)
        ensures
            r@ == if self.verbose {
                "✅ "@ + message@
            } else {
                message@
            },
    {
        if self.verbose {
            concat("✅ ", message)
        } else {
            String::from_str(message)
        }
    }

    /// The line shown for an error.
    pub fn error_message(&self, message: &str) -> (r: String)
        ensures
            r@ == "❌ "@ + message@,
    {
        concat("❌ ", message)
    }

    /// The line shown for a warning: only when verbose.
    pub fn warning_message(&self, message: &str) -> (r: Option<String>)
        ensures
            self.verbose ==> r is Some && r->0@ == "⚠️  "@ + message@,
            !self.verbose ==> r is None,
    {
        if self.verbose {
            Some(concat("⚠️  ", message))
        } else {
            None
        }
    }

    /// The lines shown for a rule match: its rule and confidence, and when verbose its
    /// linter and suggested action too.
    pub fn rule_match_lines(&self, rule_match: &RuleMatch) -> (r: Vec<String>)
        ensures
            self.verbose ==> r@.len() == 3 && r@[0]@ == "📋 Rule: "@ + rule_match.rule_id@ + " ("@
                + decimal(confidence_percent(rule_match.confidence)) + "% confidence)"@ && r@[1]@
                == "   Linter: "@ + rule_match.linter@ && r@[2]@ == "   Action: "@ + action_label(
                rule_match.suggested_action,
            ),
            !self.verbose ==> r@.len() == 1 && r@[0]@ == "Rule: "@ + rule_match.rule_id@ + " ("@
                + decimal(confidence_percent(rule_match.confidence)) + "%)"@,
    {
        let whole = rule_match.confidence / 100;
        let percent: usize = if whole > 255 {
            255
        } else {
            whole as usize
        };
        let p = usize_to_decimal(percent);
        let mut r: Vec<String> = Vec::new();
        if self.verbose {
            let a = concat("📋 Rule: ", rule_match.rule_id.as_str());
            let b = concat(a.as_str(), " (");
            let c = concat(b.as_str(), p.as_str());
            r.push(concat(c.as_str(), "% confidence)"));
            r.push(concat("   Linter: ", rule_match.linter.as_str()));
            r.push(concat("   Action: ", action_name(rule_match.suggested_action)));
        } else {
            let a = concat("Rule: ", rule_match.rule_id.as_str());
            let b = concat(a.as_str(), " (");
            let c = concat(b.as_str(), p.as_str());
            r.push(concat(c.as_str(), "%)"));
        }
        r
    }

    /// The line shown for what a dry run would do: only in dry-run mode.
    pub fn dry_run_message(&self, message: &str) -> (r: Option<String>)
        ensures
            self.dry_run ==> r is Some && r->0@ == "🔍 [DRY RUN] "@ + message@,
            !self.dry_run ==> r is None,
    {
        if self.dry_run {
            Some(concat("🔍 [DRY RUN] ", message))
        } else {
            None
        }
    }
}

} // verus!
