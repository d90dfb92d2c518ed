//! What the spell checker reports.

use crate::document::Span;
use vstd::prelude::*;

verus! {

/// What a lint is about.
#[derive(Debug, Clone, Copy, PartialEq, Eq, Structural, Hash)]
pub enum LintKind {
    Spelling,
}

/// One way to mend what a lint flags.
#[derive(Debug, Clone, PartialEq, Eq, Hash)]
pub enum Suggestion {
    /// Put these characters in place of the flagged ones.
    ReplaceWith(Vec<char>),
}

impl Suggestion {
    /// The characters that the suggestion would put in place.
    pub open spec fn replacement(&self) -> Seq<char> {
        match self {
            Suggestion::ReplaceWith(chars) => chars@,
        }
    }
}

/// A flagged stretch of a document, with the suggestions for it in the order
/// of preference.
#[derive(Debug, Clone, PartialEq, Eq, Hash)]
pub struct Lint {
    pub span: Span,
    pub lint_kind: LintKind,
    pub suggestions: Vec<Suggestion>,
}

/// A lint as a plain value: its span, its kind, and the replacements that it
/// suggests.
pub type LintView = (Span, LintKind, Seq<Seq<char>>);

impl Lint {
    /// The replacements that the lint suggests, in order.
    pub open spec fn replacements(&self) -> Seq<Seq<char>> {
        self.suggestions@.map_values(|s: Suggestion| s.replacement())
    }

    /// The lint as a plain value.
    pub open spec fn as_view(&self) -> LintView {
        (self.span, self.lint_kind, self.replacements())
    }
}

/// A list of lints as plain values.
pub open spec fn lint_views(lints: Seq<Lint>) -> Seq<LintView> {
    lints.map_values(|lint: Lint| lint.as_view())
}

} // verus!
