//! The text of an expression parses back to the expression.

use vstd::prelude::*;
use crate::text::{is_digit, is_space, lemma_space_run_end, space_run_end};
use crate::number::{decimal_digits, lemma_decimal_digits};
use crate::concrete_relationship::digit_run_end;
use crate::ecl::ast::{EclError, EclErrorKind, EclExpression, Token};
use crate::ecl::lexer::{is_upper, token_at, tokens_from, upper_run_end};
use crate::ecl::parser::{
    combine, is_focus_operator, is_set_operator, spec_expr, spec_parse, spec_rest, spec_term,
};
use crate::ecl::plan::{is_compound, spec_render};

verus! {

/// The text of a token.
pub open spec fn token_text(t: Token) -> Seq<char> {
    match t {
        Token::Id(id) => decimal_digits(id as nat),
        Token::DescendantOf => seq!['<'],
        Token::DescendantOrSelfOf => seq!['<', '<'],
        Token::AncestorOf => seq!['>'],
        Token::AncestorOrSelfOf => seq!['>', '>'],
        Token::MemberOf => seq!['^'],
        Token::And => seq!['A', 'N', 'D'],
        Token::Or => seq!['O', 'R'],
        Token::Minus => seq!['M', 'I', 'N', 'U', 'S'],
        Token::Open => seq!['('],
        Token::Close => seq![')'],
    }
}

/// The tokens of the text of an expression.
pub open spec fn spec_tokens(e: EclExpression) -> Seq<Token>
    decreases e, 0nat,
{
    match e {
        EclExpression::Concept(id) => seq![Token::Id(id)],
        EclExpression::DescendantOf(id) => seq![Token::DescendantOf, Token::Id(id)],
        EclExpression::DescendantOrSelfOf(id) => seq![Token::DescendantOrSelfOf, Token::Id(id)],
        EclExpression::AncestorOf(id) => seq![Token::AncestorOf, Token::Id(id)],
        EclExpression::AncestorOrSelfOf(id) => seq![Token::AncestorOrSelfOf, Token::Id(id)],
        EclExpression::MemberOf(id) => seq![Token::MemberOf, Token::Id(id)],
        EclExpression::And(a, b) => spec_tokens(*a) + seq![Token::And] + operand_tokens(*b),
        EclExpression::Or(a, b) => spec_tokens(*a) + seq![Token::Or] + operand_tokens(*b),
        EclExpression::Minus(a, b) => spec_tokens(*a) + seq![Token::Minus] + operand_tokens(*b),
    }
}

/// The tokens of the right side of a set operator: those of the
/// expression, in parentheses where it is made with a set operator.
pub open spec fn operand_tokens(e: EclExpression) -> Seq<Token>
    decreases e, 1nat,
{
    if is_compound(e) {
        seq![Token::Open] + spec_tokens(e) + seq![Token::Close]
    } else {
        spec_tokens(e)
    }
}

/// Whether the tokens from index `p` on begin with the given tokens,
/// whatever their positions.
pub open spec fn begins_with_tokens(tokens: Seq<(Token, int)>, p: int, expected: Seq<Token>)
    -> bool {
    &&& 0 <= p
    &&& p + expected.len() <= tokens.len()
    &&& forall|k: int| 0 <= k < expected.len() ==> (#[trigger] tokens[p + k]).0 == expected[k]
}

/// An expression has at least one token, and its first token is neither a
/// set operator nor a closing parenthesis.
proof fn lemma_tokens_not_empty(e: EclExpression)
    ensures
        spec_tokens(e).len() >= 1,
        !is_set_operator(spec_tokens(e)[0]),
        spec_tokens(e)[0] != Token::Close,
    decreases e,
{
    match e {
        EclExpression::And(a, _) => {
            lemma_tokens_not_empty(*a);
        },
        EclExpression::Or(a, _) => {
            lemma_tokens_not_empty(*a);
        },
        EclExpression::Minus(a, _) => {
            lemma_tokens_not_empty(*a);
        },
        _ => {},
    }
}

/// Tokens that begin with two runs of tokens, one after the other, begin
/// with the first, and behind it with the second.
proof fn lemma_begins_split(tokens: Seq<(Token, int)>, p: int, x: Seq<Token>, y: Seq<Token>)
    requires
        begins_with_tokens(tokens, p, x + y),
    ensures
        begins_with_tokens(tokens, p, x),
        begins_with_tokens(tokens, p + x.len(), y),
{
    assert forall|k: int| 0 <= k < x.len() implies (#[trigger] tokens[p + k]).0 == x[k] by {
        assert((x + y)[k] == x[k]);
    }
    assert forall|k: int| 0 <= k < y.len() implies (#[trigger] tokens[p + x.len() + k]).0
        == y[k] by {
        assert(tokens[p + (x.len() + k)].0 == (x + y)[x.len() + k]);
    }
}

/// The right side of a set operator parses as a term, where its expression
/// parses as an expression.
proof fn lemma_operand_term(tokens: Seq<(Token, int)>, p: int, end: int, b: EclExpression)
    requires
        begins_with_tokens(tokens, p, operand_tokens(b)),
        is_compound(b) ==> spec_expr(tokens, p + 1, end) == spec_rest(
            tokens,
            p + 1 + spec_tokens(b).len(),
            b,
            end,
        ),
    ensures
        spec_term(tokens, p, end) == Ok::<(EclExpression, int), EclError>(
            (b, p + operand_tokens(b).len()),
        ),
{
    if is_compound(b) {
        let nb = spec_tokens(b).len() as int;
        let t = operand_tokens(b);
        assert(tokens[p + 0].0 == t[0]);
        assert(tokens[p].0 == Token::Open);
        assert(tokens[p + (nb + 1)].0 == t[nb + 1]);
        assert(tokens[p + 1 + nb].0 == Token::Close);
        assert(spec_rest(tokens, p + 1 + nb, b, end) == Ok::<(EclExpression, int), EclError>(
            (b, p + 1 + nb),
        ));
    } else {
        lemma_leaf_term(tokens, p, end, b);
    }
}

/// Where the parser stands behind the left side of a set operator, and the
/// right side parses as a term, the parser comes to stand behind the right
/// side with the expression of both in hand.
proof fn lemma_parse_after_left(
    tokens: Seq<(Token, int)>,
    p: int,
    end: int,
    q: int,
    r: int,
    a: EclExpression,
    b: EclExpression,
    operator: Token,
)
    requires
        is_set_operator(operator),
        0 <= q < tokens.len(),
        tokens[q].0 == operator,
        q < r <= tokens.len(),
        spec_expr(tokens, p, end) == spec_rest(tokens, q, a, end),
        spec_term(tokens, q + 1, end) == Ok::<(EclExpression, int), EclError>((b, r)),
    ensures
        spec_expr(tokens, p, end) == spec_rest(tokens, r, combine(operator, a, b), end),
{
}

/// The tokens of an expression parse to the expression: the parser, set on
/// the first of them, stands behind the last with the expression in hand.
pub proof fn lemma_parse_tokens(tokens: Seq<(Token, int)>, p: int, end: int, e: EclExpression)
    requires
        begins_with_tokens(tokens, p, spec_tokens(e)),
    ensures
        spec_expr(tokens, p, end) == spec_rest(tokens, p + spec_tokens(e).len(), e, end),
    decreases e,
{
    match e {
        EclExpression::Concept(id) => {
            assert(tokens[p + 0].0 == spec_tokens(e)[0]);
        },
        EclExpression::And(a, b) => {
            let na = spec_tokens(*a).len() as int;
            lemma_tokens_not_empty(*a);
            lemma_begins_split(tokens, p, spec_tokens(*a) + seq![Token::And], operand_tokens(*b));
            lemma_begins_split(tokens, p, spec_tokens(*a), seq![Token::And]);
            lemma_parse_tokens(tokens, p, end, *a);
            assert(tokens[p + na + 0].0 == seq![Token::And][0]);
            if is_compound(*b) {
                lemma_begins_split(
                    tokens,
                    p + na + 1,
                    seq![Token::Open] + spec_tokens(*b),
                    seq![Token::Close],
                );
                lemma_begins_split(tokens, p + na + 1, seq![Token::Open], spec_tokens(*b));
                lemma_parse_tokens(tokens, p + na + 2, end, *b);
            }
            lemma_operand_term(tokens, p + na + 1, end, *b);
            lemma_parse_after_left(
                tokens,
                p,
                end,
                p + na,
                p + na + 1 + operand_tokens(*b).len(),
                *a,
                *b,
                Token::And,
            );
            assert(combine(Token::And, *a, *b) == e);
        },
        EclExpression::Or(a, b) => {
            let na = spec_tokens(*a).len() as int;
            lemma_tokens_not_empty(*a);
            lemma_begins_split(tokens, p, spec_tokens(*a) + seq![Token::Or], operand_tokens(*b));
            lemma_begins_split(tokens, p, spec_tokens(*a), seq![Token::Or]);
            lemma_parse_tokens(tokens, p, end, *a);
            assert(tokens[p + na + 0].0 == seq![Token::Or][0]);
            if is_compound(*b) {
                lemma_begins_split(
                    tokens,
                    p + na + 1,
                    seq![Token::Open] + spec_tokens(*b),
                    seq![Token::Close],
                );
                lemma_begins_split(tokens, p + na + 1, seq![Token::Open], spec_tokens(*b));
                lemma_parse_tokens(tokens, p + na + 2, end, *b);
            }
            lemma_operand_term(tokens, p + na + 1, end, *b);
            lemma_parse_after_left(
                tokens,
                p,
                end,
                p + na,
                p + na + 1 + operand_tokens(*b).len(),
                *a,
                *b,
                Token::Or,
            );
            assert(combine(Token::Or, *a, *b) == e);
        },
        EclExpression::Minus(a, b) => {
            let na = spec_tokens(*a).len() as int;
            lemma_tokens_not_empty(*a);
            lemma_begins_split(tokens, p, spec_tokens(*a) + seq![Token::Minus], operand_tokens(*b));
            lemma_begins_split(tokens, p, spec_tokens(*a), seq![Token::Minus]);
            lemma_parse_tokens(tokens, p, end, *a);
            assert(tokens[p + na + 0].0 == seq![Token::Minus][0]);
            if is_compound(*b) {
                lemma_begins_split(
                    tokens,
                    p + na + 1,
                    seq![Token::Open] + spec_tokens(*b),
                    seq![Token::Close],
                );
                lemma_begins_split(tokens, p + na + 1, seq![Token::Open], spec_tokens(*b));
                lemma_parse_tokens(tokens, p + na + 2, end, *b);
            }
            lemma_operand_term(tokens, p + na + 1, end, *b);
            lemma_parse_after_left(
                tokens,
                p,
                end,
                p + na,
                p + na + 1 + operand_tokens(*b).len(),
                *a,
                *b,
                Token::Minus,
            );
            assert(combine(Token::Minus, *a, *b) == e);
        },
        _ => {
            assert(tokens[p + 0].0 == spec_tokens(e)[0]);
            assert(tokens[p + 1].0 == spec_tokens(e)[1]);
            assert(is_focus_operator(tokens[p].0));
        },
    }
}

/// The tokens of an expression that is made with no set operator parse as
/// a term.
proof fn lemma_leaf_term(tokens: Seq<(Token, int)>, p: int, end: int, e: EclExpression)
    requires
        !is_compound(e),
        begins_with_tokens(tokens, p, spec_tokens(e)),
    ensures
        spec_term(tokens, p, end) == Ok::<(EclExpression, int), EclError>(
            (e, p + spec_tokens(e).len()),
        ),
{
    assert(tokens[p + 0].0 == spec_tokens(e)[0]);
    match e {
        EclExpression::Concept(id) => {},
        _ => {
            assert(tokens[p + 1].0 == spec_tokens(e)[1]);
            assert(is_focus_operator(tokens[p].0));
        },
    }
}

/// What stands between two tokens in the text of an expression: nothing
/// behind an opening and before a closing parenthesis, else one space.
pub open spec fn separator(x: Token, y: Token) -> Seq<char> {
    if x == Token::Open || y == Token::Close {
        Seq::empty()
    } else {
        seq![' ']
    }
}

/// The text of a run of tokens.
pub open spec fn joined(ts: Seq<Token>) -> Seq<char>
    decreases ts.len(),
{
    if ts.len() == 0 {
        Seq::empty()
    } else if ts.len() == 1 {
        token_text(ts[0])
    } else {
        token_text(ts[0]) + separator(ts[0], ts[1]) + joined(ts.skip(1))
    }
}

/// Whether a token ends at position `j` of a text: the text ends there, or
/// the character there cannot go on the token.
pub open spec fn token_ends(s: Seq<char>, j: int, t: Token) -> bool {
    j == s.len() || match t {
        Token::Id(_) => !is_digit(s[j]),
        Token::And | Token::Or | Token::Minus => !is_upper(s[j]),
        Token::DescendantOf => s[j] != '<',
        Token::AncestorOf => s[j] != '>',
        _ => true,
    }
}

/// A run of digits that something else follows ends where it follows.
proof fn lemma_digit_run(s: Seq<char>, i: int, j: int)
    requires
        0 <= i <= j <= s.len(),
        forall|k: int| i <= k < j ==> is_digit(#[trigger] s[k]),
        j == s.len() || !is_digit(s[j]),
    ensures
        digit_run_end(s, i) == j,
    decreases j - i,
{
    if i < j {
        assert(is_digit(s[i]));
        lemma_digit_run(s, i + 1, j);
    }
}

/// A run of upper case letters that something else follows ends where it
/// follows.
proof fn lemma_upper_run(s: Seq<char>, i: int, j: int)
    requires
        0 <= i <= j <= s.len(),
        forall|k: int| i <= k < j ==> is_upper(#[trigger] s[k]),
        j == s.len() || !is_upper(s[j]),
    ensures
        upper_run_end(s, i) == j,
    decreases j - i,
{
    if i < j {
        assert(is_upper(s[i]));
        lemma_upper_run(s, i + 1, j);
    }
}

/// The text of a token, where it stands in a text and ends there, is read
/// as the token.
proof fn lemma_lex_token(s: Seq<char>, i: int, t: Token)
    requires
        0 <= i,
        i + token_text(t).len() <= s.len(),
        s.subrange(i, i + token_text(t).len()) == token_text(t),
        token_ends(s, i + token_text(t).len(), t),
    ensures
        token_text(t).len() >= 1,
        !is_space(s[i]),
        token_at(s, i) == Ok::<(Token, int), EclErrorKind>((t, i + token_text(t).len())),
{
    let text = token_text(t);
    let j = i + text.len();
    let part = s.subrange(i, j);
    match t {
        Token::Id(id) => {
            lemma_decimal_digits(id as nat);
            assert forall|k: int| i <= k < j implies is_digit(#[trigger] s[k]) by {
                assert(part[k - i] == s[k]);
                assert(is_digit(text[k - i]));
            }
            assert(is_digit(s[i]));
            lemma_digit_run(s, i, j);
        },
        Token::And | Token::Or | Token::Minus => {
            assert forall|k: int| i <= k < j implies is_upper(#[trigger] s[k]) by {
                assert(part[k - i] == s[k]);
            }
            assert(part[0] == s[i]);
            lemma_upper_run(s, i, j);
        },
        Token::DescendantOrSelfOf => {
            assert(part[0] == s[i] && part[1] == s[i + 1]);
        },
        Token::AncestorOrSelfOf => {
            assert(part[0] == s[i] && part[1] == s[i + 1]);
        },
        _ => {
            assert(part[0] == s[i]);
        },
    }
}

/// A token that stands at a position is the first of the tokens from there
/// on, and the tokens behind it follow.
proof fn lemma_token_then_rest(s: Seq<char>, i: int, t: Token, j: int)
    requires
        0 <= i < j <= s.len(),
        !is_space(s[i]),
        token_at(s, i) == Ok::<(Token, int), EclErrorKind>((t, j)),
    ensures
        tokens_from(s, i) == match tokens_from(s, j) {
            Ok(rest) => Ok::<Seq<(Token, int)>, EclError>(seq![(t, i)] + rest),
            Err(e) => Err::<Seq<(Token, int)>, EclError>(e),
        },
{
    assert(space_run_end(s, i) == i);
}

/// A space in front changes nothing in the tokens behind it.
proof fn lemma_skip_space(s: Seq<char>, i: int)
    requires
        0 <= i < s.len(),
        s[i] == ' ',
    ensures
        tokens_from(s, i) == tokens_from(s, i + 1),
{
    lemma_space_run_end(s, i + 1);
    assert(space_run_end(s, i) == space_run_end(s, i + 1));
}

/// The text of a run of tokens is read as these tokens: where it stands at
/// the end of a text, the tokens from its start on are those of the run,
/// one for one.
pub proof fn lemma_lex_joined(s: Seq<char>, i: int, ts: Seq<Token>) -> (found: Seq<(Token, int)>)
    requires
        0 <= i <= s.len(),
        s.subrange(i, s.len() as int) == joined(ts),
    ensures
        tokens_from(s, i) == Ok::<Seq<(Token, int)>, EclError>(found),
        begins_with_tokens(found, 0, ts),
        found.len() == ts.len(),
    decreases ts.len(),
{
    let tail = s.subrange(i, s.len() as int);
    if ts.len() == 0 {
        assert(i == s.len());
        lemma_space_run_end(s, i);
        Seq::empty()
    } else {
        let t = ts[0];
        let text = token_text(t);
        let j = i + text.len();
        if ts.len() == 1 {
            assert(tail == text);
            assert(s.subrange(i, j) =~= text);
            lemma_lex_token(s, i, t);
            lemma_token_then_rest(s, i, t, j);
            lemma_space_run_end(s, j);
            let found = seq![(t, i)];
            assert(seq![(t, i)] + Seq::<(Token, int)>::empty() =~= found);
            assert(found[0int + 0int].0 == ts[0]);
            found
        } else {
            let sep = separator(ts[0], ts[1]);
            let rest = joined(ts.skip(1));
            assert(tail == text + sep + rest);
            assert(s.subrange(i, j) =~= text) by {
                assert forall|k: int| 0 <= k < text.len() implies s.subrange(i, j)[k]
                    == text[k] by {
                    assert(tail[k] == s[i + k]);
                }
            }
            lemma_first_char(ts[1]);
            lemma_joined_first(ts.skip(1));
            assert(ts.skip(1)[0] == ts[1]);
            assert(tail[text.len() as int] == s[j]);
            if sep.len() == 0 {
                assert(tail[text.len() as int] == rest[0]);
                assert(s.subrange(j, s.len() as int) =~= rest) by {
                    assert(text + sep + rest =~= text + rest);
                    assert forall|k: int| 0 <= k < rest.len() implies s.subrange(
                        j,
                        s.len() as int,
                    )[k] == rest[k] by {
                        assert(tail[text.len() + k] == s[j + k]);
                    }
                }
                lemma_lex_token(s, i, t);
                lemma_token_then_rest(s, i, t, j);
                let behind = lemma_lex_joined(s, j, ts.skip(1));
                let found = seq![(t, i)] + behind;
                assert forall|k: int| 0 <= k < ts.len() implies (#[trigger] found[0 + k]).0
                    == ts[k] by {
                    if k > 0 {
                        assert(behind[0 + (k - 1)].0 == ts.skip(1)[k - 1]);
                    }
                }
                found
            } else {
                assert(tail[text.len() as int] == ' ');
                assert(s.subrange(j + 1, s.len() as int) =~= rest) by {
                    assert forall|k: int| 0 <= k < rest.len() implies s.subrange(
                        j + 1,
                        s.len() as int,
                    )[k] == rest[k] by {
                        assert(tail[text.len() + 1 + k] == s[j + 1 + k]);
                    }
                }
                lemma_lex_token(s, i, t);
                lemma_token_then_rest(s, i, t, j);
                lemma_skip_space(s, j);
                let behind = lemma_lex_joined(s, j + 1, ts.skip(1));
                let found = seq![(t, i)] + behind;
                assert forall|k: int| 0 <= k < ts.len() implies (#[trigger] found[0 + k]).0
                    == ts[k] by {
                    if k > 0 {
                        assert(behind[0 + (k - 1)].0 == ts.skip(1)[k - 1]);
                    }
                }
                found
            }
        }
    }
}

/// The text of a token begins with a character that is no space, no digit
/// behind digits, no letter behind letters: it is a digit for an identifier
/// only, an upper case letter for a set operator only, and `)` for a closing
/// parenthesis only.
proof fn lemma_first_char(t: Token)
    ensures
        token_text(t).len() >= 1,
        !is_space(token_text(t)[0]),
        is_digit(token_text(t)[0]) <==> t is Id,
        is_upper(token_text(t)[0]) <==> is_set_operator(t),
        token_text(t)[0] == ')' <==> t == Token::Close,
        token_text(t)[0] == '<' <==> (t == Token::DescendantOf || t == Token::DescendantOrSelfOf),
        token_text(t)[0] == '>' <==> (t == Token::AncestorOf || t == Token::AncestorOrSelfOf),
{
    match t {
        Token::Id(id) => {
            lemma_decimal_digits(id as nat);
            assert(is_digit(token_text(t)[0]));
        },
        _ => {},
    }
}

/// The text of a run of tokens begins with the text of the first.
proof fn lemma_joined_first(ts: Seq<Token>)
    requires
        ts.len() >= 1,
    ensures
        joined(ts).len() >= 1,
        joined(ts)[0] == token_text(ts[0])[0],
{
    lemma_first_char(ts[0]);
}

/// The text of two runs of tokens, one after the other, is the text of the
/// first, what stands between its last token and the first of the second,
/// and the text of the second.
proof fn lemma_joined_concat(x: Seq<Token>, y: Seq<Token>)
    requires
        x.len() >= 1,
        y.len() >= 1,
    ensures
        joined(x + y) == joined(x) + separator(x.last(), y[0]) + joined(y),
    decreases x.len(),
{
    let all = x + y;
    assert(all[0] == x[0]);
    if x.len() == 1 {
        assert(all.skip(1) =~= y);
        assert(all[1] == y[0]);
    } else {
        assert(all.skip(1) =~= x.skip(1) + y);
        assert(all[1] == x[1]);
        lemma_joined_concat(x.skip(1), y);
        assert(x.skip(1).last() == x.last());
        assert(joined(all) =~= joined(x) + separator(x.last(), y[0]) + joined(y));
    }
}

/// The last token of an expression, and of one as the right side of a set
/// operator, is an identifier or a closing parenthesis; the first token of
/// a right side is neither a set operator nor a closing parenthesis.
proof fn lemma_last_token(e: EclExpression)
    ensures
        spec_tokens(e).len() >= 1,
        spec_tokens(e).last() is Id || spec_tokens(e).last() == Token::Close,
        operand_tokens(e).len() >= 1,
        operand_tokens(e).last() is Id || operand_tokens(e).last() == Token::Close,
        operand_tokens(e)[0] != Token::Close,
        !is_set_operator(operand_tokens(e)[0]),
    decreases e,
{
    lemma_tokens_not_empty(e);
    match e {
        EclExpression::And(_, b) => {
            lemma_last_token(*b);
        },
        EclExpression::Or(_, b) => {
            lemma_last_token(*b);
        },
        EclExpression::Minus(_, b) => {
            lemma_last_token(*b);
        },
        _ => {},
    }
}

/// The text of the right side of a set operator, given that of the
/// expression itself.
proof fn lemma_operand_text(e: EclExpression)
    requires
        spec_render(e) == joined(spec_tokens(e)),
    ensures
        joined(operand_tokens(e)) == if is_compound(e) {
            seq!['('] + spec_render(e) + seq![')']
        } else {
            spec_render(e)
        },
{
    if is_compound(e) {
        let inner = spec_tokens(e);
        lemma_tokens_not_empty(e);
        lemma_joined_concat(seq![Token::Open], inner + seq![Token::Close]);
        lemma_joined_concat(inner, seq![Token::Close]);
        assert(seq![Token::Open] + (inner + seq![Token::Close]) =~= operand_tokens(e));
        assert((inner + seq![Token::Close])[0] == inner[0]);
        assert(joined(operand_tokens(e)) =~= seq!['('] + spec_render(e) + seq![')']);
    }
}

/// The text of two runs of tokens with a set operator between them.
proof fn lemma_operator_text(left: Seq<Token>, op: Token, right: Seq<Token>)
    requires
        left.len() >= 1,
        right.len() >= 1,
        left.last() != Token::Open,
        right[0] != Token::Close,
        is_set_operator(op),
    ensures
        joined(left + seq![op] + right) == joined(left) + seq![' '] + token_text(op) + seq![' ']
            + joined(right),
{
    let tail = seq![op] + right;
    lemma_joined_concat(left, tail);
    lemma_joined_concat(seq![op], right);
    assert(left + tail =~= left + seq![op] + right);
    assert(tail[0] == op);
    assert(joined(left + tail) =~= joined(left) + seq![' '] + token_text(op) + seq![' ']
        + joined(right));
}

/// The text of the tokens of an expression made with a set operator,
/// given the texts of its two sides.
proof fn lemma_compound_text(a: EclExpression, op: Token, b: EclExpression)
    requires
        spec_render(a) == joined(spec_tokens(a)),
        spec_render(b) == joined(spec_tokens(b)),
        is_set_operator(op),
    ensures
        joined(spec_tokens(a) + seq![op] + operand_tokens(b)) == spec_render(a) + operator_text(op)
            + if is_compound(b) {
            "("@ + spec_render(b) + ")"@
        } else {
            spec_render(b)
        },
{
    reveal_strlit("(");
    reveal_strlit(")");
    lemma_last_token(a);
    lemma_last_token(b);
    lemma_operand_text(b);
    lemma_operator_text(spec_tokens(a), op, operand_tokens(b));
    lemma_operator_words(op);
    assert("("@ =~= seq!['(']);
    assert(")"@ =~= seq![')']);
    assert(joined(spec_tokens(a) + seq![op] + operand_tokens(b)) =~= spec_render(a)
        + operator_text(op) + joined(operand_tokens(b)));
}

/// A set operator as it stands in a text, between two spaces.
pub open spec fn operator_text(op: Token) -> Seq<char> {
    match op {
        Token::And => " AND "@,
        Token::Or => " OR "@,
        _ => " MINUS "@,
    }
}

/// A set operator between two spaces is a space, the operator's text and
/// a space.
proof fn lemma_operator_words(op: Token)
    requires
        is_set_operator(op),
    ensures
        operator_text(op) == seq![' '] + token_text(op) + seq![' '],
{
    reveal_strlit(" AND ");
    reveal_strlit(" OR ");
    reveal_strlit(" MINUS ");
    assert(operator_text(op) =~= seq![' '] + token_text(op) + seq![' ']);
}

/// The text of an expression on one concept is the text of its tokens.
proof fn lemma_simple_text(e: EclExpression)
    requires
        !is_compound(e),
    ensures
        spec_render(e) == joined(spec_tokens(e)),
{
    reveal_strlit("< ");
    reveal_strlit("<< ");
    reveal_strlit("> ");
    reveal_strlit(">> ");
    reveal_strlit("^ ");
    let ts = spec_tokens(e);
    if !(e is Concept) {
        assert(ts.skip(1) =~= seq![ts[1]]);
        assert(joined(ts.skip(1)) == token_text(ts[1]));
        assert(spec_render(e) =~= joined(ts));
    }
}

/// The text of an expression is the text of its tokens.
pub proof fn lemma_render_is_joined(e: EclExpression)
    ensures
        spec_render(e) == joined(spec_tokens(e)),
    decreases e,
{
    match e {
        EclExpression::And(a, b) => {
            lemma_render_is_joined(*a);
            lemma_render_is_joined(*b);
            lemma_compound_text(*a, Token::And, *b);
        },
        EclExpression::Or(a, b) => {
            lemma_render_is_joined(*a);
            lemma_render_is_joined(*b);
            lemma_compound_text(*a, Token::Or, *b);
        },
        EclExpression::Minus(a, b) => {
            lemma_render_is_joined(*a);
            lemma_render_is_joined(*b);
            lemma_compound_text(*a, Token::Minus, *b);
        },
        _ => {
            lemma_simple_text(e);
        },
    }
}

/// The text of an expression parses back to the expression.
pub proof fn lemma_render_parses_back(e: EclExpression)
    ensures
        spec_parse(spec_render(e)) == Ok::<EclExpression, EclError>(e),
{
    let s = spec_render(e);
    lemma_render_is_joined(e);
    assert(s.subrange(0, s.len() as int) =~= s);
    let found = lemma_lex_joined(s, 0, spec_tokens(e));
    lemma_parse_tokens(found, 0, s.len() as int, e);
}

} // verus!
