//! Registration-time diagnostics.
//!
//! Template parsing collects every problem it finds in one pass and reports
//! them together; a template with any diagnostic is rejected whole. A
//! diagnostic names its kind, the character span of the offending text within
//! the declared literal, and, where one helps, a note (the text the message is
//! about, such as an offending name or the expected normal form) and a help
//! suggestion (such as the corrected segment).

use vstd::prelude::*;

verus! {

/// A half-open character range within the declared route literal.
#[derive(Clone, Copy, PartialEq, Eq, Structural, Debug)]
pub struct Span {
    pub start: usize,
    pub end: usize,
}

/// What went wrong with a declared route literal.
#[derive(Clone, Copy, PartialEq, Eq, Structural, Debug)]
pub enum DiagnosticKind {
    /// The path is not in its normal form: it holds an empty segment or a
    /// trailing separator. The note carries the expected normal form.
    EmptySegment,
    /// A segment holds parameter brackets without being a parameter of the
    /// form `<param>`.
    MalformedParameter,
    /// A segment opens a parameter bracket and never closes it. The help
    /// carries the segment with the bracket closed.
    UnclosedParameter,
    /// A parameter has no name at all: `<>` or `<..>`.
    EmptyParameterName,
    /// A parameter name is not a valid identifier. The note carries the name.
    InvalidParameterIdentifier,
    /// A parameter is named `_`, which is reserved.
    ReservedParameterName,
    /// A segment follows a trailing wildcard parameter.
    TrailingTextAfterWildcard,
    /// A static segment holds characters that do not stand for themselves
    /// under percent-encoding.
    InvalidPathCharacters,
    /// The literal is not a path-and-query in origin form.
    MalformedUri,
}

/// One collected problem: its kind, where it is, and optional texts.
#[derive(Debug)]
pub struct Diagnostic {
    pub kind: DiagnosticKind,
    pub span: Span,
    pub note: Option<String>,
    pub help: Option<String>,
}

impl Diagnostic {
    /// A diagnostic with neither note nor help.
    pub fn new(kind: DiagnosticKind, span: Span) -> (r: Diagnostic)
        ensures
            r.kind == kind,
            r.span == span,
            r.note is None,
            r.help is None,
    {
        Diagnostic { kind, span, note: None, help: None }
    }
}

} // verus!
