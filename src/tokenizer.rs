//! The lexer: turns source text into a flat sequence of tokens.
use vstd::prelude::*;

use crate::token::{Token, TokenType};

verus! {

/// The only lexical error: a digit run that runs into a character which is
/// neither a digit nor one of the characters allowed to end a number.
#[derive(Debug, Clone, Copy, PartialEq, Eq, Structural)]
pub enum LexError {
    InvalidCharacter(char),
}

/// What a token is, seen abstractly: its kind and its text.
pub type TokenView = (TokenType, Seq<char>);

/// Whether `char::is_alphanumeric` holds of `c` (Unicode Alphabetic or Numeric).
pub uninterp spec fn alphanumeric(c: char) -> bool;

pub open spec fn is_ascii_letter_or_digit(c: char) -> bool {
    ('a' <= c && c <= 'z') || ('A' <= c && c <= 'Z') || ('0' <= c && c <= '9')
}

/// Relies on `char::is_alphanumeric`: a function of the character alone,
/// which on ASCII characters holds exactly of the letters and digits.
#[verifier::external_body]
fn is_alphanumeric(c: char) -> (r: bool)
    ensures
        r == alphanumeric(c),
        (c as u32) < 128 ==> (r == is_ascii_letter_or_digit(c)),
{
    c.is_alphanumeric()
}

pub open spec fn is_digit(c: char) -> bool {
    '0' <= c && c <= '9'
}

/// Whether `c` may continue an identifier: a letter or digit (ASCII, or
/// alphanumeric in Unicode's sense), or an underscore.
pub open spec fn is_ident_char(c: char) -> bool {
    (if (c as u32) < 128 {
        is_ascii_letter_or_digit(c)
    } else {
        alphanumeric(c)
    }) || c == '_'
}

/// The characters that may end a digit run.
pub open spec fn ends_number(c: char) -> bool {
    c == ' ' || c == ')' || c == '\n'
}

/// The token kind of a one-character token, if `c` is one.
pub open spec fn punctuation(c: char) -> Option<TokenType> {
    if c == '=' {
        Some(TokenType::Equal)
    } else if c == '+' {
        Some(TokenType::Plus)
    } else if c == '-' {
        Some(TokenType::Minus)
    } else if c == '*' {
        Some(TokenType::Star)
    } else if c == '/' {
        Some(TokenType::Slash)
    } else if c == '(' {
        Some(TokenType::LeftParen)
    } else if c == ')' {
        Some(TokenType::RightParen)
    } else if c == '\n' {
        Some(TokenType::Newline)
    } else {
        None
    }
}

/// Number of consecutive digits in `s` starting at `i`.
pub open spec fn digit_run_len(s: Seq<char>, i: nat) -> nat
    decreases s.len() - i,
{
    if i < s.len() && is_digit(s[i as int]) {
        1 + digit_run_len(s, i + 1)
    } else {
        0
    }
}

/// Number of consecutive identifier characters in `s` starting at `i`.
pub open spec fn ident_run_len(s: Seq<char>, i: nat) -> nat
    decreases s.len() - i,
{
    if i < s.len() && is_ident_char(s[i as int]) {
        1 + ident_run_len(s, i + 1)
    } else {
        0
    }
}

/// Puts `ts` in front of a lexing outcome; an error stays as it is.
pub open spec fn prepend(ts: Seq<TokenView>, r: Result<Seq<TokenView>, LexError>) -> Result<
    Seq<TokenView>,
    LexError,
> {
    match r {
        Ok(rest) => Ok(ts + rest),
        Err(e) => Err(e),
    }
}

/// The tokens of `s` from position `i` on, or the first lexical error there.
pub open spec fn lex_from(s: Seq<char>, i: nat) -> Result<Seq<TokenView>, LexError>
    decreases if i < s.len() {
        s.len() - i
    } else {
        0
    },
{
    if i >= s.len() {
        Ok(seq![])
    } else {
        let c = s[i as int];
        if punctuation(c) is Some {
            prepend(seq![(punctuation(c)->0, seq![c])], lex_from(s, i + 1))
        } else if is_digit(c) {
            let j = i + 1 + digit_run_len(s, i + 1);
            if j < s.len() && !ends_number(s[j as int]) {
                Err(LexError::InvalidCharacter(s[j as int]))
            } else {
                prepend(
                    seq![(TokenType::NumberLiteral, s.subrange(i as int, j as int))],
                    lex_from(s, j),
                )
            }
        } else if c == ' ' {
            lex_from(s, i + 1)
        } else {
            let j = i + 1 + ident_run_len(s, i + 1);
            prepend(seq![(TokenType::Ident, s.subrange(i as int, j as int))], lex_from(s, j))
        }
    }
}

/// The tokens of the whole text `s`, or its first lexical error.
pub open spec fn lex(s: Seq<char>) -> Result<Seq<TokenView>, LexError> {
    lex_from(s, 0)
}

pub open spec fn token_views(ts: Seq<Token>) -> Seq<TokenView> {
    ts.map_values(|t: Token| t@)
}

/// The abstract view of what `tokenize` returns.
pub open spec fn lexed(r: Result<Vec<Token>, LexError>) -> Result<Seq<TokenView>, LexError> {
    match r {
        Ok(v) => Ok(token_views(v@)),
        Err(e) => Err(e),
    }
}

proof fn lemma_run_bounds(s: Seq<char>, i: nat)
    requires
        i <= s.len(),
    ensures
        i + digit_run_len(s, i) <= s.len(),
        i + ident_run_len(s, i) <= s.len(),
    decreases s.len() - i,
{
    if i < s.len() {
        lemma_run_bounds(s, i + 1);
    }
}

proof fn lemma_prepend_push(a: Seq<TokenView>, t: TokenView, r: Result<Seq<TokenView>, LexError>)
    ensures
        prepend(a, prepend(seq![t], r)) == prepend(a.push(t), r),
{
    if let Ok(x) = r {
        assert(a + (seq![t] + x) =~= a.push(t) + x);
    }
}

fn punctuation_kind(c: char) -> (r: Option<TokenType>)
    ensures
        r == punctuation(c),
{
    if c == '=' {
        Some(TokenType::Equal)
    } else if c == '+' {
        Some(TokenType::Plus)
    } else if c == '-' {
        Some(TokenType::Minus)
    } else if c == '*' {
        Some(TokenType::Star)
    } else if c == '/' {
        Some(TokenType::Slash)
    } else if c == '(' {
        Some(TokenType::LeftParen)
    } else if c == ')' {
        Some(TokenType::RightParen)
    } else if c == '\n' {
        Some(TokenType::Newline)
    } else {
        None
    }
}

fn is_decimal_digit(c: char) -> (r: bool)
    ensures
        r == is_digit(c),
{
    '0' <= c && c <= '9'
}

/// Whether `c` may continue an identifier: alphanumeric or an underscore.
pub fn is_valid_identifier_char(c: char) -> (r: bool)
    ensures
        r == is_ident_char(c),
{
    is_alphanumeric(c) || c == '_'
}

/// Splits `src` into tokens, or reports the first invalid character met
/// inside a digit run.
pub fn tokenize(src: &str) -> (r: Result<Vec<Token>, LexError>)
    ensures
        lexed(r) == lex(src@),
{
    let n = src.unicode_len();
    let ghost s = src@;
    let mut pos: usize = 0;
    let mut res: Vec<Token> = Vec::new();
    while pos < n
        invariant
            n == s.len(),
            s == src@,
            pos <= n,
            lex(s) == prepend(token_views(res@), lex_from(s, pos as nat)),
        decreases n - pos,
    {
        let c = src.get_char(pos);
        let start = pos;
        let ghost before = res@;
        proof {
            lemma_run_bounds(s, (start + 1) as nat);
        }
        match punctuation_kind(c) {
            Some(kind) => {
                let text = src.substring_char(pos, pos + 1).to_owned();
                res.push(Token { t_type: kind, lexeme: text });
                pos = pos + 1;
                proof {
                    assert(text@ =~= seq![c]);
                    assert(token_views(res@) =~= token_views(before).push((kind, seq![c])));
                    lemma_prepend_push(token_views(before), (kind, seq![c]), lex_from(s, pos as nat));
                }
            },
            None => {
                if is_decimal_digit(c) {
                    let mut end: usize = pos + 1;
                    while end < n && is_decimal_digit(src.get_char(end))
                        invariant
                            n == s.len(),
                            s == src@,
                            start < end <= n,
                            start + 1 + digit_run_len(s, (start + 1) as nat) == end
                                + digit_run_len(s, end as nat),
                        decreases n - end,
                    {
                        end = end + 1;
                    }
                    if end < n {
                        let next = src.get_char(end);
                        if !(next == ' ' || next == ')' || next == '\n') {
                            return Err(LexError::InvalidCharacter(next));
                        }
                    }
                    let text = src.substring_char(pos, end).to_owned();
                    res.push(Token { t_type: TokenType::NumberLiteral, lexeme: text });
                    pos = end;
                    proof {
                        let tv = (TokenType::NumberLiteral, s.subrange(start as int, end as int));
                        assert(token_views(res@) =~= token_views(before).push(tv));
                        lemma_prepend_push(token_views(before), tv, lex_from(s, pos as nat));
                    }
                } else if c == ' ' {
                    pos = pos + 1;
                } else {
                    let mut end: usize = pos + 1;
                    while end < n && is_valid_identifier_char(src.get_char(end))
                        invariant
                            n == s.len(),
                            s == src@,
                            start < end <= n,
                            start + 1 + ident_run_len(s, (start + 1) as nat) == end
                                + ident_run_len(s, end as nat),
                        decreases n - end,
                    {
                        end = end + 1;
                    }
                    let text = src.substring_char(pos, end).to_owned();
                    res.push(Token { t_type: TokenType::Ident, lexeme: text });
                    pos = end;
                    proof {
                        let tv = (TokenType::Ident, s.subrange(start as int, end as int));
                        assert(token_views(res@) =~= token_views(before).push(tv));
                        lemma_prepend_push(token_views(before), tv, lex_from(s, pos as nat));
                    }
                }
            },
        }
    }
    Ok(res)
}

} // verus!
