//! Tokens of the constraint language: the text of an expression as a
//! sequence of tokens, each with the position at which it starts.

use vstd::prelude::*;
use crate::text::{chars_of, is_digit, digit, skip_spaces, space_run_end};
use crate::number::{decimal_value, lemma_decimal_value_prefix};
use crate::concrete_relationship::{digit_run_end, lemma_digit_run_end};
use crate::ecl::ast::{EclError, EclErrorKind, Token};

verus! {

/// Whether a character is an ASCII upper case letter.
pub open spec fn is_upper(c: char) -> bool {
    'A' <= c && c <= 'Z'
}

/// The end of the run of upper case letters that starts at `from`.
pub open spec fn upper_run_end(s: Seq<char>, from: int) -> int
    decreases s.len() - from,
{
    if 0 <= from < s.len() && is_upper(s[from]) {
        upper_run_end(s, from + 1)
    } else {
        from
    }
}

/// The bounds of `upper_run_end`.
pub proof fn lemma_upper_run_end(s: Seq<char>, from: int)
    requires
        0 <= from <= s.len(),
    ensures
        from <= upper_run_end(s, from) <= s.len(),
        from < s.len() && is_upper(s[from]) ==> from < upper_run_end(s, from),
    decreases s.len() - from,
{
    if from < s.len() && is_upper(s[from]) {
        lemma_upper_run_end(s, from + 1);
    }
}

/// The token that starts at position `i`, which holds no white space, and
/// the position behind it; or what is wrong at `i`.
pub open spec fn token_at(s: Seq<char>, i: int) -> Result<(Token, int), EclErrorKind> {
    let c = s[i];
    if c == '(' {
        Ok((Token::Open, i + 1))
    } else if c == ')' {
        Ok((Token::Close, i + 1))
    } else if c == '^' {
        Ok((Token::MemberOf, i + 1))
    } else if c == '<' {
        if i + 1 < s.len() && s[i + 1] == '<' {
            Ok((Token::DescendantOrSelfOf, i + 2))
        } else {
            Ok((Token::DescendantOf, i + 1))
        }
    } else if c == '>' {
        if i + 1 < s.len() && s[i + 1] == '>' {
            Ok((Token::AncestorOrSelfOf, i + 2))
        } else {
            Ok((Token::AncestorOf, i + 1))
        }
    } else if is_digit(c) {
        let j = digit_run_end(s, i);
        let digits = s.subrange(i, j);
        if decimal_value(digits) <= u64::MAX {
            Ok((Token::Id(decimal_value(digits) as u64), j))
        } else {
            Err(EclErrorKind::InvalidIdentifier)
        }
    } else if is_upper(c) {
        let j = upper_run_end(s, i);
        let word = s.subrange(i, j);
        if word == seq!['A', 'N', 'D'] {
            Ok((Token::And, j))
        } else if word == seq!['O', 'R'] {
            Ok((Token::Or, j))
        } else if word == seq!['M', 'I', 'N', 'U', 'S'] {
            Ok((Token::Minus, j))
        } else {
            Err(EclErrorKind::UnexpectedCharacter)
        }
    } else {
        Err(EclErrorKind::UnexpectedCharacter)
    }
}

/// The tokens of the text from position `from` on, each with the position
/// at which it starts; or the first error. White space between tokens is
/// passed over.
pub open spec fn tokens_from(s: Seq<char>, from: int) -> Result<Seq<(Token, int)>, EclError>
    decreases s.len() - from,
{
    let i = space_run_end(s, from);
    if from < 0 || i >= s.len() {
        Ok(Seq::empty())
    } else {
        match token_at(s, i) {
            Err(kind) => Err(EclError { position: i as usize, kind }),
            Ok((token, j)) => if j <= i || i < from || j > s.len() {
                Err(EclError { position: i as usize, kind: EclErrorKind::UnexpectedCharacter })
            } else {
                match tokens_from(s, j) {
                    Err(e) => Err(e),
                    Ok(rest) => Ok(seq![(token, i)] + rest),
                }
            },
        }
    }
}

/// The tokens of a text.
pub open spec fn tokens_of(s: Seq<char>) -> Result<Seq<(Token, int)>, EclError> {
    tokens_from(s, 0)
}

/// The tokens as the lexer hands them out, as the tokens of the model.
pub open spec fn token_view(tokens: Seq<(Token, usize)>) -> Seq<(Token, int)> {
    Seq::new(tokens.len(), |i: int| (tokens[i].0, tokens[i].1 as int))
}

/// A token ends behind the position at which it starts, within the text.
pub proof fn lemma_token_at(s: Seq<char>, i: int)
    requires
        0 <= i < s.len(),
    ensures
        token_at(s, i) matches Ok((_, j)) ==> i < j <= s.len(),
{
    lemma_digit_run_end(s, i);
    lemma_upper_run_end(s, i);
    if is_digit(s[i]) {
        lemma_digit_run_end(s, i + 1);
    }
}

/// Reads the token at position `i`.
fn read_token(chars: &Vec<char>, i: usize) -> (r: Result<(Token, usize), EclErrorKind>)
    requires
        i < chars.len(),
    ensures
        match r {
            Ok((token, j)) => token_at(chars@, i as int) == Ok::<(Token, int), EclErrorKind>(
                (token, j as int),
            ) && i < j <= chars.len(),
            Err(kind) => token_at(chars@, i as int) == Err::<(Token, int), EclErrorKind>(kind),
        },
{
    proof {
        lemma_token_at(chars@, i as int);
    }
    let c = chars[i];
    let n = chars.len();
    if c == '(' {
        Ok((Token::Open, i + 1))
    } else if c == ')' {
        Ok((Token::Close, i + 1))
    } else if c == '^' {
        Ok((Token::MemberOf, i + 1))
    } else if c == '<' {
        if i + 1 < n && chars[i + 1] == '<' {
            Ok((Token::DescendantOrSelfOf, i + 2))
        } else {
            Ok((Token::DescendantOf, i + 1))
        }
    } else if c == '>' {
        if i + 1 < n && chars[i + 1] == '>' {
            Ok((Token::AncestorOrSelfOf, i + 2))
        } else {
            Ok((Token::AncestorOf, i + 1))
        }
    } else if digit(c) {
        read_identifier(chars, i)
    } else if 'A' <= c && c <= 'Z' {
        let mut j: usize = i;
        while j < n && 'A' <= chars[j] && chars[j] <= 'Z'
            invariant
                i <= j <= n,
                n == chars.len(),
                upper_run_end(chars@, i as int) == upper_run_end(chars@, j as int),
            decreases n - j,
        {
            j = j + 1;
        }
        let ghost word = chars@.subrange(i as int, j as int);
        if j - i == 3 && chars[i] == 'A' && chars[i + 1] == 'N' && chars[i + 2] == 'D' {
            assert(word =~= seq!['A', 'N', 'D']);
            Ok((Token::And, j))
        } else if j - i == 2 && chars[i] == 'O' && chars[i + 1] == 'R' {
            assert(word =~= seq!['O', 'R']);
            Ok((Token::Or, j))
        } else if j - i == 5 && chars[i] == 'M' && chars[i + 1] == 'I' && chars[i + 2] == 'N'
            && chars[i + 3] == 'U' && chars[i + 4] == 'S' {
            assert(word =~= seq!['M', 'I', 'N', 'U', 'S']);
            Ok((Token::Minus, j))
        } else {
            proof {
                if word == seq!['A', 'N', 'D'] {
                    assert(word.len() == 3);
                    assert(word[0] == 'A' && word[1] == 'N' && word[2] == 'D');
                }
                if word == seq!['O', 'R'] {
                    assert(word.len() == 2);
                    assert(word[0] == 'O' && word[1] == 'R');
                }
                if word == seq!['M', 'I', 'N', 'U', 'S'] {
                    assert(word.len() == 5);
                    assert(word[0] == 'M' && word[1] == 'I' && word[2] == 'N' && word[3] == 'U'
                        && word[4] == 'S');
                }
            }
            Err(EclErrorKind::UnexpectedCharacter)
        }
    } else {
        Err(EclErrorKind::UnexpectedCharacter)
    }
}

/// Reads the identifier whose first digit stands at position `i`.
fn read_identifier(chars: &Vec<char>, i: usize) -> (r: Result<(Token, usize), EclErrorKind>)
    requires
        i < chars.len(),
        is_digit(chars@[i as int]),
    ensures
        match r {
            Ok((token, j)) => token_at(chars@, i as int) == Ok::<(Token, int), EclErrorKind>(
                (token, j as int),
            ) && i < j <= chars.len(),
            Err(kind) => token_at(chars@, i as int) == Err::<(Token, int), EclErrorKind>(kind),
        },
{
    let n = chars.len();
    let ghost end = digit_run_end(chars@, i as int);
    let ghost digits = chars@.subrange(i as int, end);
    proof {
        lemma_digit_run_end(chars@, i as int);
        lemma_digit_run_end(chars@, i + 1);
    }
    let mut acc: u64 = 0;
    let mut j: usize = i;
    let mut overflow = false;
    assert(digits.take(0) =~= Seq::<char>::empty());
    while j < n && digit(chars[j])
        invariant
            i <= j <= n,
            n == chars.len(),
            end == digit_run_end(chars@, i as int),
            end == digit_run_end(chars@, j as int),
            j <= end <= n,
            digits == chars@.subrange(i as int, end),
            !overflow ==> acc == decimal_value(digits.take(j - i)),
            overflow ==> decimal_value(digits) > u64::MAX,
        decreases n - j,
    {
        let v: u64 = (chars[j] as u32 - '0' as u32) as u64;
        proof {
            lemma_digit_run_end(chars@, j + 1);
            assert(digits.take(j - i + 1).drop_last() =~= digits.take(j - i));
            assert(digits.take(j - i + 1).last() == chars@[j as int]);
            lemma_decimal_value_prefix(digits, j - i + 1);
        }
        if !overflow {
            if acc > (u64::MAX - v) / 10 {
                overflow = true;
            } else {
                acc = acc * 10 + v;
            }
        }
        j = j + 1;
    }
    proof {
        assert(digits.take(end - i) =~= digits);
    }
    if overflow {
        Err(EclErrorKind::InvalidIdentifier)
    } else {
        Ok((Token::Id(acc), j))
    }
}

/// Splits the text of an expression into tokens.
pub fn tokenize(s: &str) -> (r: Result<Vec<(Token, usize)>, EclError>)
    ensures
        match r {
            Ok(tokens) => tokens_of(s@) == Ok::<Seq<(Token, int)>, EclError>(token_view(tokens@)),
            Err(e) => tokens_of(s@) == Err::<Seq<(Token, int)>, EclError>(e),
        },
{
    let chars = chars_of(s);
    let n = chars.len();
    let mut tokens: Vec<(Token, usize)> = Vec::new();
    let mut from: usize = 0;
    assert(token_view(tokens@) =~= Seq::<(Token, int)>::empty());
    loop
        invariant
            from <= n,
            n == chars.len(),
            chars@ == s@,
            match tokens_from(s@, from as int) {
                Ok(rest) => tokens_of(s@) == Ok::<Seq<(Token, int)>, EclError>(
                    token_view(tokens@) + rest,
                ),
                Err(e) => tokens_of(s@) == Err::<Seq<(Token, int)>, EclError>(e),
            },
        decreases n - from,
    {
        let i = skip_spaces(&chars, from);
        if i >= n {
            assert(token_view(tokens@) + Seq::<(Token, int)>::empty() =~= token_view(tokens@));
            return Ok(tokens);
        }
        match read_token(&chars, i) {
            Err(kind) => {
                return Err(EclError { position: i, kind });
            },
            Ok((token, j)) => {
                let ghost before = token_view(tokens@);
                tokens.push((token, i));
                proof {
                    assert(token_view(tokens@) =~= before + seq![(token, i as int)]);
                    match tokens_from(s@, j as int) {
                        Ok(rest) => {
                            assert(before + (seq![(token, i as int)] + rest) =~= token_view(
                                tokens@,
                            ) + rest);
                        },
                        Err(_) => {},
                    }
                }
                from = j;
            },
        }
    }
}

} // verus!
