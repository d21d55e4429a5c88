//! The diagnostic model: an immutable value describing one finding, with a
//! severity, a stable code, labeled source spans and optional guidance text.

use vstd::prelude::*;

verus! {

/// Severity of a reported finding.
#[derive(Clone, Copy, PartialEq, Eq, Structural, Debug)]
pub enum Severity {
    Warning,
    Error,
}

/// A byte range into the source text.
#[derive(Clone, Copy, PartialEq, Eq, Structural, Debug)]
pub struct SourceSpan {
    pub offset: usize,
    pub len: usize,
}

/// Mathematical image of a [`Label`].
#[verifier::ext_equal]
pub struct LabelV {
    pub span: SourceSpan,
    pub text: Option<Seq<char>>,
    pub primary: bool,
}

/// A labeled span: a byte range paired with an optional annotation.
#[derive(Debug)]
pub struct Label {
    pub span: SourceSpan,
    pub text: Option<String>,
    pub primary: bool,
}

impl View for Label {
    type V = LabelV;

    open spec fn view(&self) -> LabelV {
        LabelV {
            span: self.span,
            text: match self.text {
                Some(t) => Some(t@),
                None => None,
            },
            primary: self.primary,
        }
    }
}

impl DeepView for Label {
    type V = LabelV;

    open spec fn deep_view(&self) -> LabelV {
        self.view()
    }
}

/// Mathematical image of a [`Diagnostic`].
#[verifier::ext_equal]
pub struct DiagnosticV {
    pub severity: Severity,
    pub code: Seq<char>,
    pub message: Seq<char>,
    pub labels: Seq<LabelV>,
    pub help: Option<Seq<char>>,
    pub url: Option<Seq<char>>,
}

/// One finding: severity, stable code, message, one or more labeled spans,
/// and optional help text and reference link. Immutable once constructed.
#[derive(Debug)]
pub struct Diagnostic {
    pub severity: Severity,
    pub code: String,
    pub message: String,
    pub labels: Vec<Label>,
    pub help: Option<String>,
    pub url: Option<String>,
}

impl View for Diagnostic {
    type V = DiagnosticV;

    open spec fn view(&self) -> DiagnosticV {
        DiagnosticV {
            severity: self.severity,
            code: self.code@,
            message: self.message@,
            labels: self.labels.deep_view(),
            help: match self.help {
                Some(h) => Some(h@),
                None => None,
            },
            url: match self.url {
                Some(u) => Some(u@),
                None => None,
            },
        }
    }
}

impl DeepView for Diagnostic {
    type V = DiagnosticV;

    open spec fn deep_view(&self) -> DiagnosticV {
        self.view()
    }
}

} // verus!
