//! Diagnostic values. Malformed lexical input and malformed grammar are
//! reported as a kind plus an exact byte span; the caller renders them and
//! aborts the current line only.

use vstd::prelude::*;
use crate::ast::Span;

verus! {

/// What went wrong, detected before any process is spawned.
#[derive(Clone, Copy, Debug, PartialEq, Eq, Structural)]
pub enum DiagnosticKind {
    /// A dot not followed by a separator or a second dot.
    MalformedRelativePath,
    /// A path prefix not followed by the platform separator.
    ExpectedSeparator,
    /// Input ended before the closing quote of a string.
    UnterminatedString,
    /// A byte that starts no token class.
    UnclassifiableCharacter,
    /// A statement that begins with neither a path nor an identifier.
    InvalidCommand,
    /// `<` not followed by a file path.
    MissingInputPath,
    /// `>` not followed by a file path.
    MissingOutputPath,
    /// A builtin standing inside a multi-statement pipeline chain.
    BuiltinInPipeline,
}

/// A diagnostic: its kind and the offending byte span.
#[derive(Clone, Copy, Debug, PartialEq, Eq, Structural)]
pub struct Diagnostic {
    pub kind: DiagnosticKind,
    pub span: Span,
}

impl Diagnostic {
    pub fn new(kind: DiagnosticKind, span: Span) -> (d: Diagnostic)
        ensures
            d.kind == kind,
            d.span == span,
    {
        Diagnostic { kind, span }
    }
}

} // verus!
