//! Parser of the constraint language: from the text of an expression to
//! the expression, or to the first error with its position.

use vstd::prelude::*;
use crate::sctid::SctId;
use crate::ecl::ast::{EclError, EclErrorKind, EclExpression, Token};
use crate::ecl::lexer::{token_view, tokenize, tokens_of};

verus! {

/// The position in the text of the token at index `p`; the end of the text
/// where the tokens end before it.
pub open spec fn position_at(tokens: Seq<(Token, int)>, p: int, end: int) -> usize {
    if 0 <= p < tokens.len() {
        tokens[p].1 as usize
    } else {
        end as usize
    }
}

/// Whether a token is an operator on one concept: `<`, `<<`, `>`, `>>` or
/// `^`.
pub open spec fn is_focus_operator(t: Token) -> bool {
    t == Token::DescendantOf || t == Token::DescendantOrSelfOf || t == Token::AncestorOf || t
        == Token::AncestorOrSelfOf || t == Token::MemberOf
}

/// Whether a token is a set operator: `AND`, `OR` or `MINUS`.
pub open spec fn is_set_operator(t: Token) -> bool {
    t == Token::And || t == Token::Or || t == Token::Minus
}

/// The expression that an operator on one concept makes of an identifier.
pub open spec fn focus(operator: Token, id: SctId) -> EclExpression {
    match operator {
        Token::DescendantOf => EclExpression::DescendantOf(id),
        Token::DescendantOrSelfOf => EclExpression::DescendantOrSelfOf(id),
        Token::AncestorOf => EclExpression::AncestorOf(id),
        Token::AncestorOrSelfOf => EclExpression::AncestorOrSelfOf(id),
        _ => EclExpression::MemberOf(id),
    }
}

/// The expression that a set operator makes of two expressions.
pub open spec fn combine(operator: Token, left: EclExpression, right: EclExpression)
    -> EclExpression {
    match operator {
        Token::And => EclExpression::And(Box::new(left), Box::new(right)),
        Token::Or => EclExpression::Or(Box::new(left), Box::new(right)),
        _ => EclExpression::Minus(Box::new(left), Box::new(right)),
    }
}

/// The term that starts at token `p`, and the index of the token behind
/// it: an identifier, an operator with its identifier, or an expression in
/// parentheses.
pub open spec fn spec_term(tokens: Seq<(Token, int)>, p: int, end: int) -> Result<
    (EclExpression, int),
    EclError,
>
    decreases tokens.len() - p, 0nat,
{
    if p < 0 || p >= tokens.len() {
        Err(EclError { position: end as usize, kind: EclErrorKind::UnexpectedEnd })
    } else {
        let t = tokens[p].0;
        match t {
            Token::Id(id) => Ok((EclExpression::Concept(id), p + 1)),
            Token::Open => match spec_expr(tokens, p + 1, end) {
                Err(e) => Err(e),
                Ok((e, q)) => if 0 <= q < tokens.len() && tokens[q].0 == Token::Close {
                    Ok((e, q + 1))
                } else {
                    Err(
                        EclError {
                            position: position_at(tokens, q, end),
                            kind: EclErrorKind::UnbalancedParentheses,
                        },
                    )
                },
            },
            _ => if is_focus_operator(t) {
                if p + 1 < tokens.len() && tokens[p + 1].0 is Id {
                    Ok((focus(t, tokens[p + 1].0->Id_0), p + 2))
                } else {
                    Err(
                        EclError {
                            position: position_at(tokens, p + 1, end),
                            kind: EclErrorKind::ExpectedIdentifier,
                        },
                    )
                }
            } else {
                Err(
                    EclError {
                        position: position_at(tokens, p, end),
                        kind: EclErrorKind::UnexpectedToken,
                    },
                )
            },
        }
    }
}

/// The expression that starts at token `p`, and the index of the token
/// behind it: a term, and then as many set operators with a term each as
/// follow.
pub open spec fn spec_expr(tokens: Seq<(Token, int)>, p: int, end: int) -> Result<
    (EclExpression, int),
    EclError,
>
    decreases tokens.len() - p, 2nat,
{
    match spec_term(tokens, p, end) {
        Err(e) => Err(e),
        Ok((left, q)) => if q <= p || q > tokens.len() {
            Err(
                EclError {
                    position: position_at(tokens, p, end),
                    kind: EclErrorKind::UnexpectedToken,
                },
            )
        } else {
            spec_rest(tokens, q, left, end)
        },
    }
}

/// The expression that `left` grows into with the set operators and terms
/// from token `q` on; the operators associate to the left.
pub open spec fn spec_rest(tokens: Seq<(Token, int)>, q: int, left: EclExpression, end: int)
    -> Result<(EclExpression, int), EclError>
    decreases tokens.len() - q, 1nat,
{
    if 0 <= q < tokens.len() && is_set_operator(tokens[q].0) {
        match spec_term(tokens, q + 1, end) {
            Err(e) => Err(e),
            Ok((right, r)) => if r <= q || r > tokens.len() {
                Err(
                    EclError {
                        position: position_at(tokens, q, end),
                        kind: EclErrorKind::UnexpectedToken,
                    },
                )
            } else {
                spec_rest(tokens, r, combine(tokens[q].0, left, right), end)
            },
        }
    } else {
        Ok((left, q))
    }
}

/// The expression that the tokens of a text denote: an expression that
/// takes up all the tokens.
pub open spec fn spec_parse_tokens(tokens: Seq<(Token, int)>, end: int) -> Result<
    EclExpression,
    EclError,
> {
    match spec_expr(tokens, 0, end) {
        Err(e) => Err(e),
        Ok((e, q)) => if q >= tokens.len() {
            Ok(e)
        } else if tokens[q].0 == Token::Close {
            Err(
                EclError {
                    position: position_at(tokens, q, end),
                    kind: EclErrorKind::UnbalancedParentheses,
                },
            )
        } else {
            Err(
                EclError {
                    position: position_at(tokens, q, end),
                    kind: EclErrorKind::UnexpectedToken,
                },
            )
        },
    }
}

/// The expression that a text denotes, or the first error in it.
pub open spec fn spec_parse(s: Seq<char>) -> Result<EclExpression, EclError> {
    match tokens_of(s) {
        Err(e) => Err(e),
        Ok(tokens) => spec_parse_tokens(tokens, s.len() as int),
    }
}

/// The position in the text of the token at index `p`.
fn position_of_token(tokens: &Vec<(Token, usize)>, p: usize, end: usize) -> (r: usize)
    ensures
        r == position_at(token_view(tokens@), p as int, end as int),
{
    if p < tokens.len() {
        tokens[p].1
    } else {
        end
    }
}

/// Parses the term that starts at token `p`.
fn parse_term(tokens: &Vec<(Token, usize)>, p: usize, end: usize) -> (r: Result<
    (EclExpression, usize),
    EclError,
>)
    ensures
        match r {
            Ok((e, q)) => spec_term(token_view(tokens@), p as int, end as int) == Ok::<
                (EclExpression, int),
                EclError,
            >((e, q as int)) && p < q <= tokens.len(),
            Err(e) => spec_term(token_view(tokens@), p as int, end as int) == Err::<
                (EclExpression, int),
                EclError,
            >(e),
        },
    decreases tokens.len() - p, 0nat,
{
    if p >= tokens.len() {
        return Err(EclError { position: end, kind: EclErrorKind::UnexpectedEnd });
    }
    let t = tokens[p].0;
    match t {
        Token::Id(id) => Ok((EclExpression::Concept(id), p + 1)),
        Token::Open => match parse_expr(tokens, p + 1, end) {
            Err(e) => Err(e),
            Ok((e, q)) => if q < tokens.len() && is_close(tokens[q].0) {
                Ok((e, q + 1))
            } else {
                Err(
                    EclError {
                        position: position_of_token(tokens, q, end),
                        kind: EclErrorKind::UnbalancedParentheses,
                    },
                )
            },
        },
        Token::DescendantOf | Token::DescendantOrSelfOf | Token::AncestorOf
        | Token::AncestorOrSelfOf | Token::MemberOf => {
            if p + 1 < tokens.len() {
                match tokens[p + 1].0 {
                    Token::Id(id) => {
                        let e = match t {
                            Token::DescendantOf => EclExpression::DescendantOf(id),
                            Token::DescendantOrSelfOf => EclExpression::DescendantOrSelfOf(id),
                            Token::AncestorOf => EclExpression::AncestorOf(id),
                            Token::AncestorOrSelfOf => EclExpression::AncestorOrSelfOf(id),
                            _ => EclExpression::MemberOf(id),
                        };
                        return Ok((e, p + 2));
                    },
                    _ => {},
                }
            }
            Err(
                EclError {
                    position: position_of_token(tokens, p + 1, end),
                    kind: EclErrorKind::ExpectedIdentifier,
                },
            )
        },
        _ => Err(
            EclError {
                position: position_of_token(tokens, p, end),
                kind: EclErrorKind::UnexpectedToken,
            },
        ),
    }
}

/// Whether a token is a closing parenthesis.
fn is_close(t: Token) -> (r: bool)
    ensures
        r == (t == Token::Close),
{
    match t {
        Token::Close => true,
        _ => false,
    }
}

/// Whether a token is a set operator.
fn set_operator(t: Token) -> (r: bool)
    ensures
        r == is_set_operator(t),
{
    match t {
        Token::And | Token::Or | Token::Minus => true,
        _ => false,
    }
}

/// Parses the expression that starts at token `p`.
fn parse_expr(tokens: &Vec<(Token, usize)>, p: usize, end: usize) -> (r: Result<
    (EclExpression, usize),
    EclError,
>)
    ensures
        match r {
            Ok((e, q)) => spec_expr(token_view(tokens@), p as int, end as int) == Ok::<
                (EclExpression, int),
                EclError,
            >((e, q as int)) && p < q <= tokens.len(),
            Err(e) => spec_expr(token_view(tokens@), p as int, end as int) == Err::<
                (EclExpression, int),
                EclError,
            >(e),
        },
    decreases tokens.len() - p, 2nat,
{
    let (first, start) = match parse_term(tokens, p, end) {
        Ok(found) => found,
        Err(e) => {
            return Err(e);
        },
    };
    let mut left = first;
    let mut q = start;
    loop
        invariant
            p < q <= tokens.len(),
            spec_expr(token_view(tokens@), p as int, end as int) == spec_rest(
                token_view(tokens@),
                q as int,
                left,
                end as int,
            ),
        decreases tokens.len() - q,
    {
        if q < tokens.len() && set_operator(tokens[q].0) {
            let operator = tokens[q].0;
            match parse_term(tokens, q + 1, end) {
                Err(e) => {
                    return Err(e);
                },
                Ok((right, r)) => {
                    left = match operator {
                        Token::And => EclExpression::And(Box::new(left), Box::new(right)),
                        Token::Or => EclExpression::Or(Box::new(left), Box::new(right)),
                        _ => EclExpression::Minus(Box::new(left), Box::new(right)),
                    };
                    q = r;
                },
            }
        } else {
            return Ok((left, q));
        }
    }
}

/// Parses the text of an expression constraint.
pub fn parse(s: &str) -> (r: Result<EclExpression, EclError>)
    ensures
        r == spec_parse(s@),
{
    let tokens = match tokenize(s) {
        Ok(tokens) => tokens,
        Err(e) => {
            return Err(e);
        },
    };
    let end = s.unicode_len();
    match parse_expr(&tokens, 0, end) {
        Err(e) => Err(e),
        Ok((e, q)) => if q >= tokens.len() {
            Ok(e)
        } else if is_close(tokens[q].0) {
            Err(
                EclError {
                    position: position_of_token(&tokens, q, end),
                    kind: EclErrorKind::UnbalancedParentheses,
                },
            )
        } else {
            Err(
                EclError {
                    position: position_of_token(&tokens, q, end),
                    kind: EclErrorKind::UnexpectedToken,
                },
            )
        },
    }
}

} // verus!
