//! Expressions of the constraint language and the errors of reading them.

use vstd::prelude::*;
use crate::sctid::SctId;

verus! {

/// An expression constraint.
#[derive(Debug, PartialEq, Eq)]
pub enum EclExpression {
    /// `id`: the concept itself.
    Concept(SctId),
    /// `< id`: the strict descendants of the concept.
    DescendantOf(SctId),
    /// `<< id`: the concept and its descendants.
    DescendantOrSelfOf(SctId),
    /// `> id`: the strict ancestors of the concept.
    AncestorOf(SctId),
    /// `>> id`: the concept and its ancestors.
    AncestorOrSelfOf(SctId),
    /// `^ id`: the members of the reference set.
    MemberOf(SctId),
    /// `a AND b`: what both hold.
    And(Box<EclExpression>, Box<EclExpression>),
    /// `a OR b`: what either holds.
    Or(Box<EclExpression>, Box<EclExpression>),
    /// `a MINUS b`: what the first holds and the second does not.
    Minus(Box<EclExpression>, Box<EclExpression>),
}

/// What is wrong with an expression that does not parse.
#[derive(Debug, Clone, Copy, PartialEq, Eq, Structural)]
pub enum EclErrorKind {
    /// A character that begins no token; an unknown operator among them.
    UnexpectedCharacter,
    /// An identifier beyond the 64-bit range.
    InvalidIdentifier,
    /// An operator that no identifier follows.
    ExpectedIdentifier,
    /// The expression ends where a term is expected.
    UnexpectedEnd,
    /// A token that cannot stand where it stands.
    UnexpectedToken,
    /// A parenthesis without its partner.
    UnbalancedParentheses,
}

/// A parse error: what is wrong, and the position in characters at which
/// it was found.
#[derive(Debug, Clone, Copy, PartialEq, Eq, Structural)]
pub struct EclError {
    /// Position in the text, in characters from zero.
    pub position: usize,
    /// What is wrong there.
    pub kind: EclErrorKind,
}

impl EclError {
    /// What is wrong, in words.
    pub fn message(&self) -> (r: &'static str)
        ensures
            self.kind == EclErrorKind::UnexpectedCharacter ==> r@ == "unexpected character"@,
            self.kind == EclErrorKind::InvalidIdentifier ==> r@ == "identifier out of range"@,
            self.kind == EclErrorKind::ExpectedIdentifier ==> r@ == "expected an identifier"@,
            self.kind == EclErrorKind::UnexpectedEnd ==> r@ == "unexpected end of expression"@,
            self.kind == EclErrorKind::UnexpectedToken ==> r@ == "unexpected token"@,
            self.kind == EclErrorKind::UnbalancedParentheses ==> r@ == "unbalanced parentheses"@,
    {
        match self.kind {
            EclErrorKind::UnexpectedCharacter => "unexpected character",
            EclErrorKind::InvalidIdentifier => "identifier out of range",
            EclErrorKind::ExpectedIdentifier => "expected an identifier",
            EclErrorKind::UnexpectedEnd => "unexpected end of expression",
            EclErrorKind::UnexpectedToken => "unexpected token",
            EclErrorKind::UnbalancedParentheses => "unbalanced parentheses",
        }
    }
}

/// A token of the constraint language.
#[derive(Debug, Clone, Copy, PartialEq, Eq, Structural)]
pub enum Token {
    /// An identifier.
    Id(SctId),
    /// `<`
    DescendantOf,
    /// `<<`
    DescendantOrSelfOf,
    /// `>`
    AncestorOf,
    /// `>>`
    AncestorOrSelfOf,
    /// `^`
    MemberOf,
    /// `AND`
    And,
    /// `OR`
    Or,
    /// `MINUS`
    Minus,
    /// `(`
    Open,
    /// `)`
    Close,
}

} // verus!
