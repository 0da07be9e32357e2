//! The plain data carried by the queries: models, diagnostics, errors.

use vstd::prelude::*;

verus! {

/// A file recognized as defining a named SQL transformation.
///
/// Two models are equal exactly when both the name and the path are equal.
#[derive(Debug, Clone)]
pub struct Model {
    /// The model's name, derived from the stem of its file path.
    pub name: String,
    /// The path of the file that defines the model.
    pub path: String,
}

impl PartialEq for Model {
    fn eq(&self, other: &Model) -> (r: bool) {
        self.name == other.name && self.path == other.path
    }
}

impl vstd::std_specs::cmp::PartialEqSpecImpl for Model {
    open spec fn obeys_eq_spec() -> bool {
        true
    }

    open spec fn eq_spec(&self, other: &Model) -> bool {
        self@ == other@
    }
}

/// The mathematical value of a [`Model`]: both fields as character sequences.
pub struct ModelView {
    pub name: Seq<char>,
    pub path: Seq<char>,
}

impl View for Model {
    type V = ModelView;

    open spec fn view(&self) -> ModelView {
        ModelView { name: self.name@, path: self.path@ }
    }
}

impl DeepView for Model {
    type V = ModelView;

    open spec fn deep_view(&self) -> ModelView {
        self@
    }
}

/// How severe a diagnostic is.
#[derive(Clone, Copy, PartialEq, Eq, Structural, Debug)]
pub enum DiagnosticSeverity {
    Error,
    Warning,
    Info,
}

/// A structured finding about a file, surfaced to tooling.
///
/// Diagnostics are data, never failures. Line and column are always `(0, 0)`:
/// position tracking is an acknowledged limitation of the current extraction.
#[derive(Debug, Clone)]
pub struct Diagnostic {
    pub severity: DiagnosticSeverity,
    pub message: String,
    pub line: u32,
    pub column: u32,
}

impl PartialEq for Diagnostic {
    fn eq(&self, other: &Diagnostic) -> (r: bool) {
        self.severity == other.severity && self.line == other.line && self.column == other.column
            && self.message == other.message
    }
}

impl vstd::std_specs::cmp::PartialEqSpecImpl for Diagnostic {
    open spec fn obeys_eq_spec() -> bool {
        true
    }

    open spec fn eq_spec(&self, other: &Diagnostic) -> bool {
        self@ == other@
    }
}

/// The mathematical value of a [`Diagnostic`].
pub struct DiagnosticView {
    pub severity: DiagnosticSeverity,
    pub message: Seq<char>,
    pub line: u32,
    pub column: u32,
}

impl View for Diagnostic {
    type V = DiagnosticView;

    open spec fn view(&self) -> DiagnosticView {
        DiagnosticView {
            severity: self.severity,
            message: self.message@,
            line: self.line,
            column: self.column,
        }
    }
}

impl DeepView for Diagnostic {
    type V = DiagnosticView;

    open spec fn deep_view(&self) -> DiagnosticView {
        self@
    }
}

/// Failure of a direct input read.
#[derive(Clone, Copy, PartialEq, Eq, Structural, Debug)]
pub enum DbError {
    /// The input cell asked for was never written. Distinct from holding an
    /// empty string: callers must write a cell before reading it.
    NotFound,
}

} // verus!
