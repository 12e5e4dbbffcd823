//! Operators of the expression tree and the unreachable-code bookkeeping of blocks.
use crate::source::{paths_equal, Span};
use vstd::prelude::*;

verus! {

/// Binary operators
#[derive(Clone, Copy, Debug, PartialEq, Eq, Structural, PartialOrd, Ord, Hash)]
pub enum BinaryOp {
    /// Addition
    Add,
    /// Subtraction
    Sub,
    /// Multiplication
    Mul,
    /// Division
    Div,
    /// Modulo (Division Reminder)
    Mod,
    /// Equality
    Eq,
    /// Inequality
    Ne,
    /// Less than
    Lt,
    /// Less than or equal
    Le,
    /// Greater than
    Gt,
    /// Greater than or equal
    Ge,
}

/// Unary operators
#[derive(Clone, Copy, Debug, PartialEq, Eq, Structural, PartialOrd, Ord, Hash)]
pub enum UnaryOp {
    /// Negation
    Neg,
}

/// Frontend metadata for binary expression
pub trait BinaryMetadata {}

impl BinaryMetadata for () {}

/// Frontend metadata for unary expression
pub trait UnaryMetadata {}

impl UnaryMetadata for () {}

/// Frontend metadata for assignment expression
pub trait AssignmentMetadata {}

impl AssignmentMetadata for () {}

/// Frontend metadata for an extern function
pub trait ExternFunctionMetadata {}

impl ExternFunctionMetadata for () {}

/// Unreachable code analysis data
pub struct UnreachableCode {
    /// True if there is actually some unreachable code
    pub there_is_some: bool,
    /// The span of the unreachable code
    pub unreachable_code: Option<Span>,
    /// The span of the reason code being unreachable
    pub reason: Option<Span>,
}

/// `a` and `b` are the same range of the same file.
pub open spec fn same_span(a: Span, b: Span) -> bool {
    a.0.source() == b.0.source() && a.start() == b.start() && a.end() == b.end()
}

/// `u` is the smallest range that covers both `a` and `b`.
pub open spec fn covers_both(u: Span, a: Span, b: Span) -> bool {
    &&& u.start() == if a.start() <= b.start() {
        a.start()
    } else {
        b.start()
    }
    &&& u.end() == if a.end() >= b.end() {
        a.end()
    } else {
        b.end()
    }
}

impl UnreachableCode {
    /// Record one more unreachable expression (with its span, if it has one), given
    /// whether that span lies in the same file as the unreachable code recorded so far:
    /// a first span is taken as it is, a span in the same file widens the recorded one
    /// to cover both, a span in another file is left out.
    pub fn extend_in_file(&mut self, span: Option<&Span>, same_file: bool)
        ensures
            final(self).there_is_some,
            final(self).reason == old(self).reason,
            span is None ==> final(self).unreachable_code == old(self).unreachable_code,
            span matches Some(s) ==> match old(self).unreachable_code {
                None => final(self).unreachable_code matches Some(u) && same_span(u, *s),
                Some(old_u) => final(self).unreachable_code matches Some(u) && u.0 == old_u.0 && if same_file {
                    covers_both(u, old_u, *s)
                } else {
                    same_span(u, old_u)
                },
            },
    {
        self.there_is_some = true;
        if let Some(span) = span {
            match &mut self.unreachable_code {
                Some(unreachable_span) => {
                    if same_file {
                        unreachable_span.extend(span);
                    }
                },
                None => {
                    self.unreachable_code = Some(span.copy());
                },
            }
        }
    }

    /// Record one more unreachable expression (with its span, if it has one): a span in
    /// the file of the unreachable code recorded so far (same path, same text) widens it
    /// to cover both; a span in another file leaves it as it was.
    pub fn extend(&mut self, span: Option<&Span>)
        ensures
            final(self).there_is_some,
            final(self).reason == old(self).reason,
            span is None ==> final(self).unreachable_code == old(self).unreachable_code,
            span matches Some(s) ==> match old(self).unreachable_code {
                None => final(self).unreachable_code matches Some(u) && same_span(u, *s),
                Some(old_u) => final(self).unreachable_code matches Some(u) && u.0 == old_u.0 && if paths_equal(
                    old_u.0.source().spec_path(),
                    s.0.source().spec_path(),
                ) && old_u.0.source().spec_content() == s.0.source().spec_content() {
                    covers_both(u, old_u, *s)
                } else {
                    same_span(u, old_u)
                },
            },
    {
        let same_file = match (&self.unreachable_code, span) {
            (Some(unreachable_span), Some(span)) => unreachable_span.0.same_file(&span.0),
            _ => false,
        };
        self.extend_in_file(span, same_file);
    }
}

} // verus!
