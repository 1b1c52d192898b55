//! What an expander reports beside its output.

use vstd::prelude::*;

verus! {

/// How grave a diagnostic is: an error leaves the output unusable, a warning
/// accompanies a valid output.
#[derive(Clone, Copy, Debug, PartialEq, Eq, Structural)]
pub enum Severity {
    Error,
    Warning,
}

/// A message for the user, with its severity.
#[derive(Clone, Debug, PartialEq, Eq)]
pub struct Diagnostic {
    pub severity: Severity,
    pub message: String,
}

/// The model of a [`Diagnostic`].
pub struct DiagnosticView {
    pub severity: Severity,
    pub message: Seq<char>,
}

impl DeepView for Diagnostic {
    type V = DiagnosticView;

    open spec fn deep_view(&self) -> DiagnosticView {
        DiagnosticView { severity: self.severity, message: self.message@ }
    }
}

/// The error with the given message.
pub open spec fn error_of(message: Seq<char>) -> DiagnosticView {
    DiagnosticView { severity: Severity::Error, message }
}

/// The warning with the given message.
pub open spec fn warning_of(message: Seq<char>) -> DiagnosticView {
    DiagnosticView { severity: Severity::Warning, message }
}

impl Diagnostic {
    /// An error with the given message.
    pub fn error(message: String) -> (r: Diagnostic)
        ensures
            r.deep_view() == error_of(message@),
    {
        Diagnostic { severity: Severity::Error, message }
    }

    /// A warning with the given message.
    pub fn warn(message: String) -> (r: Diagnostic)
        ensures
            r.deep_view() == warning_of(message@),
    {
        Diagnostic { severity: Severity::Warning, message }
    }
}

} // verus!
