//! Validation results and error message helpers.
pub mod fs;
pub mod validation;

use vstd::prelude::*;
use crate::linters::strings_model;

verus! {

/// Outcome of a validation: whether it passed, with its errors and warnings.
#[derive(Debug, Clone)]
pub struct ValidationResult {
    /// Overall validity flag
    pub is_valid: bool,
    /// Collected validation errors
    pub errors: Vec<String>,
    /// Collected validation warnings
    pub warnings: Vec<String>,
}

/// The mathematical content of a [`ValidationResult`].
pub struct ValidationModel {
    pub is_valid: bool,
    pub errors: Seq<Seq<char>>,
    pub warnings: Seq<Seq<char>>,
}

impl View for ValidationResult {
    type V = ValidationModel;

    open spec fn view(&self) -> ValidationModel {
        ValidationModel {
            is_valid: self.is_valid,
            errors: strings_model(self.errors@),
            warnings: strings_model(self.warnings@),
        }
    }
}

/// A passing validation with no messages.
pub open spec fn passing() -> ValidationModel {
    ValidationModel { is_valid: true, errors: Seq::empty(), warnings: Seq::empty() }
}

/// The validation with one more error: it no longer passes.
pub open spec fn with_error(v: ValidationModel, e: Seq<char>) -> ValidationModel {
    ValidationModel { is_valid: false, errors: v.errors.push(e), warnings: v.warnings }
}

/// The validation with one more warning.
pub open spec fn with_warning(v: ValidationModel, w: Seq<char>) -> ValidationModel {
    ValidationModel { is_valid: v.is_valid, errors: v.errors, warnings: v.warnings.push(w) }
}

/// Each message with `prefix` in front of it.
pub open spec fn prefixed(prefix: Seq<char>, v: Seq<Seq<char>>) -> Seq<Seq<char>> {
    v.map_values(|m: Seq<char>| prefix + m)
}

/// A `String` holding `a` followed by `b`.
pub fn concat(a: &str, b: &str) -> (r: String)
    ensures
        r@ == a@ + b@,
{
    let mut r = String::from_str(a);
    r.append(b);
    r
}

impl ValidationResult {
    /// A passing validation with no messages.
    pub fn new() -> (r: Self)
        ensures
            r@ == passing(),
    {
        let r = ValidationResult { is_valid: true, errors: Vec::new(), warnings: Vec::new() };
        assert(r@.errors =~= Seq::<Seq<char>>::empty());
        assert(r@.warnings =~= Seq::<Seq<char>>::empty());
        r
    }

    /// Records an error; the validation no longer passes.
    pub fn add_error(&mut self, error: String)
        ensures
            final(self)@ == with_error(old(self)@, error@),
    {
        self.is_valid = false;
        self.errors.push(error);
        assert(self@.errors =~= old(self)@.errors.push(error@));
    }

    /// Records a warning.
    pub fn add_warning(&mut self, warning: String)
        ensures
            final(self)@ == with_warning(old(self)@, warning@),
    {
        self.warnings.push(warning);
        assert(self@.warnings =~= old(self)@.warnings.push(warning@));
    }

    /// Whether the validation passed.
    pub fn is_ok(&self) -> (b: bool)
        ensures
            b == self.is_valid,
    {
        self.is_valid
    }

    /// Every message: the errors, each after `Error: `, then the warnings, each after
    /// `Warning: `.
    pub fn get_messages(&self) -> (r: Vec<String>)
        ensures
            strings_model(r@) == prefixed("Error: "@, self@.errors) + prefixed(
                "Warning: "@,
                self@.warnings,
            ),
    {
        let mut r: Vec<String> = Vec::new();
        let mut i: usize = 0;
        while i < self.errors.len()
            invariant
                i <= self.errors@.len(),
                strings_model(r@) == prefixed("Error: "@, self@.errors.take(i as int)),
            decreases self.errors@.len() - i,
        {
            let m = concat("Error: ", self.errors[i].as_str());
            let ghost before = strings_model(r@);
            let ghost mm = m@;
            r.push(m);
            assert(strings_model(r@) =~= before.push(mm));
            assert(self@.errors.take(i + 1) =~= self@.errors.take(i as int).push(self@.errors[i as int]));
            assert(prefixed("Error: "@, self@.errors.take(i + 1)) =~= before.push(mm));
            i = i + 1;
        }
        assert(self@.errors.take(self.errors@.len() as int) =~= self@.errors);
        let ghost errs = strings_model(r@);
        let mut j: usize = 0;
        while j < self.warnings.len()
            invariant
                j <= self.warnings@.len(),
                strings_model(r@) == errs + prefixed("Warning: "@, self@.warnings.take(j as int)),
            decreases self.warnings@.len() - j,
        {
            let m = concat("Warning: ", self.warnings[j].as_str());
            let ghost before = strings_model(r@);
            let ghost mm = m@;
            r.push(m);
            assert(strings_model(r@) =~= before.push(mm));
            assert(self@.warnings.take(j + 1) =~= self@.warnings.take(j as int).push(
                self@.warnings[j as int],
            ));
            assert(prefixed("Warning: "@, self@.warnings.take(j + 1)) =~= prefixed(
                "Warning: "@,
                self@.warnings.take(j as int),
            ).push(mm));
            assert(errs + prefixed("Warning: "@, self@.warnings.take(j + 1)) =~= before.push(mm));
            j = j + 1;
        }
        assert(self@.warnings.take(self.warnings@.len() as int) =~= self@.warnings);
        r
    }
}

/// Formatting and triage of error messages.
pub struct ErrorHandler;

impl ErrorHandler {
    /// The message for display: `Error: ` and the error's text.
    pub fn format_error(error: &str) -> (r: String)
        ensures
            r@ == "Error: "@ + error@,
    {
        concat("Error: ", error)
    }

    /// The message for display with where it happened: `Error in <context>: <error>`.
    pub fn format_error_with_context(error: &str, context: &str) -> (r: String)
        ensures
            r@ == "Error in "@ + context@ + ": "@ + error@,
    {
        let a = concat("Error in ", context);
        let b = concat(a.as_str(), ": ");
        concat(b.as_str(), error)
    }

    /// Whether one can recover from the error: every error counts as recoverable.
    pub fn is_recoverable(error: &str) -> (b: bool)
        ensures
            b,
    {
        true
    }

    /// A way to recover from the error: the same suggestion for every error.
    pub fn suggest_recovery(error: &str) -> (r: Option<String>)
        ensures
            r is Some && r->0@ == "Try again with different input"@,
    {
        Some(String::from_str("Try again with different input"))
    }
}

/// A message recorded on a validation.
pub enum ValidationStep {
    /// An error
    Error(Seq<char>),
    /// A warning
    Warning(Seq<char>),
}

/// The validation after recording the messages in turn.
pub open spec fn after_steps(v: ValidationModel, steps: Seq<ValidationStep>) -> ValidationModel
    decreases steps.len(),
{
    if steps.len() == 0 {
        v
    } else {
        match steps.last() {
            ValidationStep::Error(e) => with_error(after_steps(v, steps.drop_last()), e),
            ValidationStep::Warning(w) => with_warning(after_steps(v, steps.drop_last()), w),
        }
    }
}

/// A validation made by `new` and any sequence of `add_error` and `add_warning` passes
/// exactly when it holds no error; warnings never change whether it passes.
pub proof fn law_valid_without_errors(steps: Seq<ValidationStep>)
    ensures
        after_steps(passing(), steps).is_valid <==> after_steps(passing(), steps).errors.len() == 0,
    decreases steps.len(),
{
    if steps.len() > 0 {
        law_valid_without_errors(steps.drop_last());
    }
}

} // verus!
