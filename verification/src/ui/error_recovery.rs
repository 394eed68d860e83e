//! Decisions of error recovery: what to do when an operation fails, and when to ask.
//!
//! The prompts run in the terminal front end; it asks this manager whether a prompt is
//! needed and how to read the answer.
use vstd::prelude::*;
use crate::text::{decimal, usize_to_decimal};
use crate::utils::concat;

verus! {

/// Error recovery strategies.
#[derive(Debug, Clone, Copy, PartialEq, Eq, Structural)]
pub enum RecoveryStrategy {
    /// Retry the operation
    Retry,
    /// Skip the current item and continue
    Skip,
    /// Abort the entire operation
    Abort,
    /// Use alternative approach
    Alternative,
    /// Ask user for manual input
    ManualInput,
}

/// The strategy chosen by position in the error menu: retry, skip, abort, alternative,
/// manual input; anything else aborts.
pub open spec fn error_menu_strategy(selection: usize) -> RecoveryStrategy {
    if selection == 0 {
        RecoveryStrategy::Retry
    } else if selection == 1 {
        RecoveryStrategy::Skip
    } else if selection == 2 {
        RecoveryStrategy::Abort
    } else if selection == 3 {
        RecoveryStrategy::Alternative
    } else if selection == 4 {
        RecoveryStrategy::ManualInput
    } else {
        RecoveryStrategy::Abort
    }
}

/// The strategy chosen by position in the conflict menu: resolve automatically, resolve
/// manually, skip, abort; anything else aborts.
pub open spec fn conflict_menu_strategy(selection: usize) -> RecoveryStrategy {
    if selection == 0 {
        RecoveryStrategy::Alternative
    } else if selection == 1 {
        RecoveryStrategy::ManualInput
    } else if selection == 2 {
        RecoveryStrategy::Skip
    } else {
        RecoveryStrategy::Abort
    }
}

/// Handles failures: how often to retry, and whether to ask the user.
pub struct ErrorRecoveryManager {
    recovery_strategies: Vec<(String, RecoveryStrategy)>,
    max_retries: u32,
    interactive_mode: bool,
}

impl ErrorRecoveryManager {
    /// Interactive, with three retries.
    pub fn new() -> (m: Self)
        ensures
            m.max_retries() == 3,
            m.interactive(),
    {
        ErrorRecoveryManager { recovery_strategies: Vec::new(), max_retries: 3, interactive_mode: true }
    }

    /// How many retries are allowed.
    pub closed spec fn max_retries(&self) -> u32 {
        self.max_retries
    }

    /// Whether the user is asked.
    pub closed spec fn interactive(&self) -> bool {
        self.interactive_mode
    }

    /// Sets interactive mode.
    pub fn set_interactive_mode(&mut self, interactive: bool)
        ensures
            final(self).interactive() == interactive,
            final(self).max_retries() == old(self).max_retries(),
    {
        self.interactive_mode = interactive;
    }

    /// Whether the user is asked.
    pub fn is_interactive_mode(&self) -> (b: bool)
        ensures
            b == self.interactive(),
    {
        self.interactive_mode
    }

    /// Sets how many retries are allowed.
    pub fn set_max_retries(&mut self, max_retries: u32)
        ensures
            final(self).max_retries() == max_retries,
            final(self).interactive() == old(self).interactive(),
    {
        self.max_retries = max_retries;
    }

    /// How many retries are allowed.
    pub fn get_max_retries(&self) -> (n: u32)
        ensures
            n == self.max_retries(),
    {
        self.max_retries
    }

    /// Whether another retry is allowed after `current_retries`.
    pub fn can_retry(&self, current_retries: u32) -> (b: bool)
        ensures
            b == (current_retries < self.max_retries()),
    {
        current_retries < self.max_retries
    }

    /// The line shown about retrying: the number of the next retry out of the maximum, or
    /// that the maximum has been reached.
    pub fn retry_message(&self, current_retries: u32) -> (r: String)
        ensures
            current_retries < self.max_retries() ==> r@ == "🔄 Retry "@ + decimal(
                (current_retries + 1) as nat,
            ) + "/"@ + decimal(self.max_retries() as nat),
            current_retries >= self.max_retries() ==> r@ == "❌ Maximum retries exceeded"@,
    {
        if self.can_retry(current_retries) {
            let next = usize_to_decimal((current_retries + 1) as usize);
            let max = usize_to_decimal(self.max_retries as usize);
            let a = concat("🔄 Retry ", next.as_str());
            let b = concat(a.as_str(), "/");
            concat(b.as_str(), max.as_str())
        } else {
            String::from_str("❌ Maximum retries exceeded")
        }
    }

    /// The strategy for a failure when nobody is asked: abort when not interactive; `None`
    /// when the user chooses.
    pub fn preset_error_strategy(&self) -> (r: Option<RecoveryStrategy>)
        ensures
            !self.interactive() ==> r == Some(RecoveryStrategy::Abort),
            self.interactive() ==> r is None,
    {
        if !self.interactive_mode {
            Some(RecoveryStrategy::Abort)
        } else {
            None
        }
    }

    /// The strategy picked from the error menu.
    pub fn strategy_for_selection(selection: usize) -> (r: RecoveryStrategy)
        ensures
            r == error_menu_strategy(selection),
    {
        match selection {
            0 => RecoveryStrategy::Retry,
            1 => RecoveryStrategy::Skip,
            2 => RecoveryStrategy::Abort,
            3 => RecoveryStrategy::Alternative,
            4 => RecoveryStrategy::ManualInput,
            _ => RecoveryStrategy::Abort,
        }
    }

    /// The strategy for configuration conflicts when nobody is asked: with no conflict there
    /// is nothing to do; `None` when the user chooses.
    pub fn preset_conflict_strategy(&self, conflict_count: usize) -> (r: Option<RecoveryStrategy>)
        ensures
            conflict_count == 0 ==> r == Some(RecoveryStrategy::Skip),
            conflict_count > 0 ==> r is None,
    {
        if conflict_count == 0 {
            Some(RecoveryStrategy::Skip)
        } else {
            None
        }
    }

    /// The strategy picked from the conflict menu.
    pub fn conflict_strategy_for_selection(selection: usize) -> (r: RecoveryStrategy)
        ensures
            r == conflict_menu_strategy(selection),
    {
        match selection {
            0 => RecoveryStrategy::Alternative,
            1 => RecoveryStrategy::ManualInput,
            2 => RecoveryStrategy::Skip,
            3 => RecoveryStrategy::Abort,
            _ => RecoveryStrategy::Abort,
        }
    }

    /// Whether confirmations are given without asking: when not interactive.
    pub fn auto_confirms(&self) -> (b: bool)
        ensures
            b == !self.interactive(),
    {
        !self.interactive_mode
    }

    /// The manual input when nobody is asked: the default, or nothing; `None` when the user
    /// types it.
    pub fn preset_manual_input(&self, default: Option<&str>) -> (r: Option<String>)
        ensures
            !self.interactive() ==> r is Some && r->0@ == match default {
                Some(d) => d@,
                None => Seq::<char>::empty(),
            },
            self.interactive() ==> r is None,
    {
        if !self.interactive_mode {
            match default {
                Some(d) => Some(String::from_str(d)),
                None => Some(String::new()),
            }
        } else {
            None
        }
    }

    /// Whether a rule's confidence is low enough to warn before applying it (below 0.8).
    pub fn needs_careful_review(confidence: u32) -> (b: bool)
        ensures
            b == (confidence < 8000),
    {
        confidence < 8000
    }
}

/// A yes/no question with what is shown before it and the answer taken when the user just
/// confirms.
pub struct ConfirmPrompt {
    /// Heading of the warning
    pub title: String,
    /// Lines shown under the heading
    pub details: Vec<String>,
    /// The question asked
    pub question: String,
    /// Answer taken by default
    pub default: bool,
}

/// The texts of a prompt, as character sequences.
pub open spec fn prompt_texts(p: ConfirmPrompt) -> (Seq<char>, Seq<Seq<char>>, Seq<char>, bool) {
    (p.title@, p.details@.map_values(|l: String| l@), p.question@, p.default)
}

/// Confirmation prompts for common operations.
#[derive(Debug, Clone, Copy)]
pub struct ConfirmationPrompts;

impl ConfirmationPrompts {
    /// Before overwriting a file: defaults to no.
    pub fn file_overwrite(file_path: &str) -> (p: ConfirmPrompt)
        ensures
            prompt_texts(p) == (
                "⚠️  File Overwrite Warning"@,
                seq!["File: "@ + file_path@, "This operation will overwrite the existing file"@],
                "Overwrite the file?"@,
                false,
            ),
    {
        let mut details: Vec<String> = Vec::new();
        details.push(concat("File: ", file_path));
        details.push(String::from_str("This operation will overwrite the existing file"));
        let p = ConfirmPrompt {
            title: String::from_str("⚠️  File Overwrite Warning"),
            details,
            question: String::from_str("Overwrite the file?"),
            default: false,
        };
        assert(p.details@.map_values(|l: String| l@) =~= seq![
            "File: "@ + file_path@,
            "This operation will overwrite the existing file"@,
        ]);
        p
    }

    /// Before creating a directory: defaults to yes.
    pub fn directory_creation(dir_path: &str) -> (p: ConfirmPrompt)
        ensures
            prompt_texts(p) == (
                "📁 Directory Creation"@,
                seq!["Directory: "@ + dir_path@],
                "Create this directory?"@,
                true,
            ),
    {
        let mut details: Vec<String> = Vec::new();
        details.push(concat("Directory: ", dir_path));
        let p = ConfirmPrompt {
            title: String::from_str("📁 Directory Creation"),
            details,
            question: String::from_str("Create this directory?"),
            default: true,
        };
        assert(p.details@.map_values(|l: String| l@) =~= seq!["Directory: "@ + dir_path@]);
        p
    }

    /// Before removing items: defaults to yes.
    pub fn cleanup_operation(item_count: usize, item_type: &str) -> (p: ConfirmPrompt)
        ensures
            prompt_texts(p) == (
                "🧹 Cleanup Operation"@,
                seq!["Items to remove: "@ + decimal(item_count as nat) + " "@ + item_type@],
                "Proceed with cleanup?"@,
                true,
            ),
    {
        let count = usize_to_decimal(item_count);
        let a = concat("Items to remove: ", count.as_str());
        let b = concat(a.as_str(), " ");
        let mut details: Vec<String> = Vec::new();
        details.push(concat(b.as_str(), item_type));
        let p = ConfirmPrompt {
            title: String::from_str("🧹 Cleanup Operation"),
            details,
            question: String::from_str("Proceed with cleanup?"),
            default: true,
        };
        assert(p.details@.map_values(|l: String| l@) =~= seq![
            "Items to remove: "@ + decimal(item_count as nat) + " "@ + item_type@,
        ]);
        p
    }

    /// Before resetting the configuration: defaults to no.
    pub fn configuration_reset() -> (p: ConfirmPrompt)
        ensures
            prompt_texts(p) == (
                "🔄 Configuration Reset"@,
                seq![
                    "This will reset all configuration to default values"@,
                    "All custom settings will be lost"@,
                ],
                "Reset configuration to defaults?"@,
                false,
            ),
    {
        let mut details: Vec<String> = Vec::new();
        details.push(String::from_str("This will reset all configuration to default values"));
        details.push(String::from_str("All custom settings will be lost"));
        let p = ConfirmPrompt {
            title: String::from_str("🔄 Configuration Reset"),
            details,
            question: String::from_str("Reset configuration to defaults?"),
            default: false,
        };
        assert(p.details@.map_values(|l: String| l@) =~= seq![
            "This will reset all configuration to default values"@,
            "All custom settings will be lost"@,
        ]);
        p
    }
}

} // verus!
