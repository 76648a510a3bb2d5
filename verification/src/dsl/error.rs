//! Configuration errors and compiler diagnostics.
use vstd::prelude::*;

use core::ops::Range;

use crate::text::Text;

verus! {

/// How grave a diagnostic is.
#[derive(Debug, Clone, Copy, PartialEq, Eq, PartialOrd, Ord, Hash, Structural)]
pub enum Severity {
    /// Blocks the compilation.
    Error,
    /// Suspicious, but not blocking.
    Warning,
    /// Informational.
    Info,
}

/// The word a severity is shown as.
pub open spec fn severity_word(s: Severity) -> Text {
    match s {
        Severity::Error => "error"@,
        Severity::Warning => "warning"@,
        Severity::Info => "info"@,
    }
}

impl Severity {
    /// The word this severity is shown as.
    pub fn as_str(self) -> (s: &'static str)
        ensures
            s@ == severity_word(self),
    {
        match self {
            Severity::Error => "error",
            Severity::Warning => "warning",
            Severity::Info => "info",
        }
    }
}

/// A mapping file that cannot be read at all.
#[derive(Debug, Clone, PartialEq, Eq)]
pub struct ConfigError {
    /// What is wrong.
    pub message: String,
    /// The byte range in the source text, where it is known.
    pub span: Option<Range<usize>>,
}

/// The model of a [`ConfigError`].
#[verifier::ext_equal]
pub struct ConfigErrorV {
    pub message: Text,
    pub span: Option<Range<usize>>,
}

impl View for ConfigError {
    type V = ConfigErrorV;

    open spec fn view(&self) -> ConfigErrorV {
        ConfigErrorV { message: self.message@, span: self.span }
    }
}

impl DeepView for ConfigError {
    type V = ConfigErrorV;

    open spec fn deep_view(&self) -> ConfigErrorV {
        self@
    }
}

/// A configuration error without a place in the source text.
pub open spec fn config_msg(message: Text) -> ConfigErrorV {
    ConfigErrorV { message, span: None }
}

impl ConfigError {
    /// A configuration error without a place in the source text.
    pub fn msg(message: String) -> (e: ConfigError)
        ensures
            e@ == config_msg(message@),
    {
        ConfigError { message, span: None }
    }
}

/// A finding of the compiler.
#[derive(Debug, Clone, PartialEq, Eq)]
pub struct Diagnostic {
    /// A stable code such as `E020`.
    pub code: String,
    /// How grave it is.
    pub severity: Severity,
    /// The node it is about, if any.
    pub source_node: Option<String>,
    /// What is wrong.
    pub message: String,
    /// The byte range in the source text, where it is known.
    pub span: Option<Range<usize>>,
}

/// The model of a [`Diagnostic`].
#[verifier::ext_equal]
pub struct DiagnosticV {
    pub code: Text,
    pub severity: Severity,
    pub source_node: Option<Text>,
    pub message: Text,
    pub span: Option<Range<usize>>,
}

impl View for Diagnostic {
    type V = DiagnosticV;

    open spec fn view(&self) -> DiagnosticV {
        DiagnosticV {
            code: self.code@,
            severity: self.severity,
            source_node: self.source_node.deep_view(),
            message: self.message@,
            span: self.span,
        }
    }
}

impl DeepView for Diagnostic {
    type V = DiagnosticV;

    open spec fn deep_view(&self) -> DiagnosticV {
        self@
    }
}

/// An error about a node, without a place in the source text.
pub open spec fn node_error(code: Text, node: Text, message: Text) -> DiagnosticV {
    DiagnosticV {
        code,
        severity: Severity::Error,
        source_node: Some(node),
        message,
        span: None,
    }
}

impl Diagnostic {
    /// An error about a node, without a place in the source text.
    pub fn about(code: &str, node: &str, message: String) -> (d: Diagnostic)
        ensures
            d@ == node_error(code@, node@, message@),
    {
        Diagnostic {
            code: code.to_string(),
            severity: Severity::Error,
            source_node: Some(node.to_string()),
            message,
            span: None,
        }
    }
}

/// A copy of an optional byte range.
pub fn clone_span(span: &Option<Range<usize>>) -> (r: Option<Range<usize>>)
    ensures
        r == *span,
{
    match span {
        Some(s) => Some(s.start..s.end),
        None => None,
    }
}

/// Appends the diagnostics of `more` to `out`.
pub fn append_all(out: &mut Vec<Diagnostic>, more: Vec<Diagnostic>)
    ensures
        final(out).deep_view() == old(out).deep_view() + more.deep_view(),
{
    let mut more = more;
    let ghost (a, b) = (out.deep_view(), more.deep_view());
    out.append(&mut more);
    assert(out.deep_view() =~= a + b);
}

} // verus!
