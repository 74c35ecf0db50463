//! The parser: recursive descent over a stack of tokens whose top (the last
//! element) is the next token to read.
use vstd::prelude::*;

use crate::expr::{Assignment, BinaryOp, Expr, FunCall, Number, Variable};
use crate::token::{Token, TokenType};
use crate::tokenizer::is_digit;

verus! {

#[derive(Debug, Clone, Copy, PartialEq, Eq, Structural)]
pub enum ParseError {
    /// A token of kind `expected` was required, and one of kind `found` came.
    UnexpectedToken { expected: TokenType, found: TokenType },
    /// The target of an assignment is not an identifier.
    ExpectedIdentifier { found: TokenType },
    /// The tokens ran out where an expression or a `)` was required.
    UnexpectedEnd,
    /// A token of kind `found` cannot begin an expression.
    InvalidPrimary { found: TokenType },
    /// A number literal that is not a run of digits, or does not fit in `i32`.
    InvalidNumber,
}

/// An expression and the stack left after it, or an error.
pub type Parsed = Result<(Expr, Seq<Token>), ParseError>;

/// The value of a sequence of decimal digits.
pub open spec fn digits_value(s: Seq<char>) -> nat
    decreases s.len(),
{
    if s.len() == 0 {
        0
    } else {
        digits_value(s.drop_last()) * 10 + (s.last() as nat - '0' as nat) as nat
    }
}

pub open spec fn is_digit_run(s: Seq<char>) -> bool {
    s.len() > 0 && forall|i: int| 0 <= i < s.len() ==> is_digit(#[trigger] s[i])
}

/// The integer that a number literal's text stands for, if it is one that fits.
pub open spec fn number_value(s: Seq<char>) -> Option<i32> {
    if is_digit_run(s) && digits_value(s) <= i32::MAX {
        Some(digits_value(s) as i32)
    } else {
        None
    }
}

proof fn lemma_digits_value_prefix(s: Seq<char>, i: int)
    requires
        0 <= i <= s.len(),
    ensures
        digits_value(s.subrange(0, i)) <= digits_value(s),
    decreases s.len() - i,
{
    if i < s.len() {
        assert(s.drop_last().subrange(0, i) =~= s.subrange(0, i));
        lemma_digits_value_prefix(s.drop_last(), i);
    } else {
        assert(s.subrange(0, i) =~= s);
    }
}

/// Converts the text of a number literal to its value.
fn parse_number(s: &str) -> (r: Option<i32>)
    ensures
        r == number_value(s@),
{
    let n = s.unicode_len();
    if n == 0 {
        return None;
    }
    let mut value: u64 = 0;
    let mut i: usize = 0;
    assert(s@.subrange(0, 0) =~= Seq::<char>::empty());
    while i < n
        invariant
            n == s@.len(),
            i <= n,
            forall|k: int| 0 <= k < i ==> is_digit(#[trigger] s@[k]),
            value == digits_value(s@.subrange(0, i as int)),
            value <= i32::MAX,
        decreases n - i,
    {
        let c = s.get_char(i);
        if !('0' <= c && c <= '9') {
            return None;
        }
        assert(s@.subrange(0, i + 1).drop_last() =~= s@.subrange(0, i as int));
        value = value * 10 + (c as u64 - '0' as u64);
        i = i + 1;
        if value > i32::MAX as u64 {
            proof {
                lemma_digits_value_prefix(s@, i as int);
            }
            return None;
        }
    }
    assert(s@.subrange(0, n as int) =~= s@);
    Some(value as i32)
}

/// The stack after requiring a token of kind `kind` on top. Only the newline
/// that ends a statement may be missing at the end of the tokens.
pub open spec fn expect_spec(kind: TokenType, s: Seq<Token>) -> Result<Seq<Token>, ParseError> {
    if s.len() == 0 {
        if kind == TokenType::Newline {
            Ok(s)
        } else {
            Err(ParseError::UnexpectedEnd)
        }
    } else if s.last().t_type == kind {
        Ok(s.drop_last())
    } else {
        Err(ParseError::UnexpectedToken { expected: kind, found: s.last().t_type })
    }
}

pub open spec fn then_expect(r: Parsed, kind: TokenType) -> Parsed {
    match r {
        Ok((e, rest)) => match expect_spec(kind, rest) {
            Ok(rest2) => Ok((e, rest2)),
            Err(x) => Err(x),
        },
        Err(x) => Err(x),
    }
}

/// Expression: an assignment or a term.
pub open spec fn p_expr(s: Seq<Token>) -> Parsed
    decreases s.len(), 5nat,
{
    p_assignment(s)
}

/// An assignment when the second token is `=`, else a term.
pub open spec fn p_assignment(s: Seq<Token>) -> Parsed
    decreases s.len(), 4nat,
{
    if s.len() > 1 && s[s.len() - 2].t_type == TokenType::Equal {
        let target = s.last();
        if target.t_type != TokenType::Ident {
            Err(ParseError::ExpectedIdentifier { found: target.t_type })
        } else {
            match p_expr(s.drop_last().drop_last()) {
                Ok((value, rest)) => Ok(
                    (
                        Expr::Assignment(
                            Assignment { target: Variable { name: target }, value: Box::new(value) },
                        ),
                        rest,
                    ),
                ),
                Err(x) => Err(x),
            }
        }
    } else {
        p_term(s)
    }
}

pub open spec fn is_additive(s: Seq<Token>) -> bool {
    s.len() > 0 && (s.last().t_type == TokenType::Plus || s.last().t_type == TokenType::Minus)
}

pub open spec fn is_multiplicative(s: Seq<Token>) -> bool {
    s.len() > 0 && (s.last().t_type == TokenType::Star || s.last().t_type == TokenType::Slash)
}

/// Term: factors joined by `+` or `-`, grouped to the left.
pub open spec fn p_term(s: Seq<Token>) -> Parsed
    decreases s.len(), 3nat,
{
    match p_factor(s) {
        Ok((lhs, rest)) => if rest.len() < s.len() {
            term_tail(lhs, rest)
        } else {
            Ok((lhs, rest))
        },
        Err(x) => Err(x),
    }
}

/// The rest of a term whose left part `lhs` has been read.
pub open spec fn term_tail(lhs: Expr, s: Seq<Token>) -> Parsed
    decreases s.len(), 0nat,
{
    if is_additive(s) {
        let op = s.last();
        match p_factor(s.drop_last()) {
            Ok((rhs, rest)) => {
                let e = Expr::BinaryOp(
                    BinaryOp { lhs: Box::new(lhs), operation: op, rhs: Box::new(rhs) },
                );
                if rest.len() < s.len() {
                    term_tail(e, rest)
                } else {
                    Ok((e, rest))
                }
            },
            Err(x) => Err(x),
        }
    } else {
        Ok((lhs, s))
    }
}

/// Factor: primaries joined by `*` or `/`, grouped to the left.
pub open spec fn p_factor(s: Seq<Token>) -> Parsed
    decreases s.len(), 2nat,
{
    match p_primary(s) {
        Ok((lhs, rest)) => if rest.len() < s.len() {
            factor_tail(lhs, rest)
        } else {
            Ok((lhs, rest))
        },
        Err(x) => Err(x),
    }
}

/// The rest of a factor whose left part `lhs` has been read.
pub open spec fn factor_tail(lhs: Expr, s: Seq<Token>) -> Parsed
    decreases s.len(), 0nat,
{
    if is_multiplicative(s) {
        let op = s.last();
        match p_primary(s.drop_last()) {
            Ok((rhs, rest)) => {
                let e = Expr::BinaryOp(
                    BinaryOp { lhs: Box::new(lhs), operation: op, rhs: Box::new(rhs) },
                );
                if rest.len() < s.len() {
                    factor_tail(e, rest)
                } else {
                    Ok((e, rest))
                }
            },
            Err(x) => Err(x),
        }
    } else {
        Ok((lhs, s))
    }
}

/// Primary: a number, a variable, a call `name(expr)`, or `(expr)`.
pub open spec fn p_primary(s: Seq<Token>) -> Parsed
    decreases s.len(), 1nat,
{
    if s.len() == 0 {
        Err(ParseError::UnexpectedEnd)
    } else {
        let t = s.last();
        let s1 = s.drop_last();
        match t.t_type {
            TokenType::NumberLiteral => match number_value(t.lexeme@) {
                Some(v) => Ok((Expr::Number(Number { value: v, token: t }), s1)),
                None => Err(ParseError::InvalidNumber),
            },
            TokenType::Ident => if s1.len() > 0 && s1.last().t_type == TokenType::LeftParen {
                match then_expect(p_expr(s1.drop_last()), TokenType::RightParen) {
                    Ok((arg, rest)) => Ok(
                        (
                            Expr::FunCall(
                                FunCall { name: Variable { name: t }, arg: Box::new(arg) },
                            ),
                            rest,
                        ),
                    ),
                    Err(x) => Err(x),
                }
            } else {
                Ok((Expr::Variable(Variable { name: t }), s1))
            },
            TokenType::LeftParen => then_expect(p_expr(s1), TokenType::RightParen),
            other => Err(ParseError::InvalidPrimary { found: other }),
        }
    }
}

/// The statements of a stack of tokens, each ended by a newline or by the
/// end of the tokens.
pub open spec fn p_program(s: Seq<Token>) -> Result<Seq<Expr>, ParseError>
    decreases s.len(),
{
    if s.len() == 0 {
        Ok(seq![])
    } else {
        match then_expect(p_expr(s), TokenType::Newline) {
            Ok((e, rest)) => if rest.len() < s.len() {
                match p_program(rest) {
                    Ok(es) => Ok(seq![e] + es),
                    Err(x) => Err(x),
                }
            } else {
                Ok(seq![e])
            },
            Err(x) => Err(x),
        }
    }
}

/// The program that a token sequence, first token first, stands for.
pub open spec fn parse_tokens(tokens: Seq<Token>) -> Result<Seq<Expr>, ParseError> {
    p_program(tokens.reverse())
}

/// `parsed(r, rest)` is the spec outcome matching an executable result `r`
/// that leaves the stack `rest`.
pub open spec fn parsed(r: Result<Expr, ParseError>, rest: Seq<Token>) -> Parsed {
    match r {
        Ok(e) => Ok((e, rest)),
        Err(x) => Err(x),
    }
}

/// Whether the top of the stack is a token of kind `a` or `b`.
fn next_is(tokens: &Vec<Token>, a: TokenType, b: TokenType) -> (r: bool)
    ensures
        r == (tokens@.len() > 0 && (tokens@.last().t_type == a || tokens@.last().t_type == b)),
{
    tokens.len() > 0 && (tokens[tokens.len() - 1].t_type == a || tokens[tokens.len() - 1].t_type
        == b)
}

/// Takes a token of kind `expected` off the stack; an empty stack passes
/// only where a newline is expected.
fn expect(expected: TokenType, tokens: &mut Vec<Token>) -> (r: Result<(), ParseError>)
    ensures
        match r {
            Ok(_) => expect_spec(expected, old(tokens)@) == Ok::<Seq<Token>, ParseError>(
                final(tokens)@,
            ),
            Err(x) => expect_spec(expected, old(tokens)@) == Err::<Seq<Token>, ParseError>(x),
        },
        final(tokens)@.len() <= old(tokens)@.len(),
{
    match tokens.pop() {
        None => {
            if expected == TokenType::Newline {
                Ok(())
            } else {
                Err(ParseError::UnexpectedEnd)
            }
        },
        Some(tok) => {
            if tok.t_type != expected {
                Err(ParseError::UnexpectedToken { expected, found: tok.t_type })
            } else {
                Ok(())
            }
        },
    }
}

/// Parses one expression off the top of the stack.
pub fn parse_expr(tokens: &mut Vec<Token>) -> (r: Result<Expr, ParseError>)
    ensures
        parsed(r, final(tokens)@) == p_expr(old(tokens)@),
        r is Ok ==> final(tokens)@.len() < old(tokens)@.len(),
    decreases old(tokens)@.len(), 5nat,
{
    parse_assignment(tokens)
}

fn parse_assignment(tokens: &mut Vec<Token>) -> (r: Result<Expr, ParseError>)
    ensures
        parsed(r, final(tokens)@) == p_assignment(old(tokens)@),
        r is Ok ==> final(tokens)@.len() < old(tokens)@.len(),
    decreases old(tokens)@.len(), 4nat,
{
    if tokens.len() > 1 && tokens[tokens.len() - 2].t_type == TokenType::Equal {
        let var = match parse_var(tokens) {
            Ok(v) => v,
            Err(x) => return Err(x),
        };
        let _ = tokens.pop();
        match parse_expr(tokens) {
            Ok(value) => Ok(Expr::Assignment(Assignment { target: var, value: Box::new(value) })),
            Err(x) => Err(x),
        }
    } else {
        parse_term(tokens)
    }
}

/// Takes an identifier off a non-empty stack, as a variable.
fn parse_var(tokens: &mut Vec<Token>) -> (r: Result<Variable, ParseError>)
    requires
        old(tokens)@.len() > 0,
    ensures
        final(tokens)@ == old(tokens)@.drop_last(),
        old(tokens)@.last().t_type == TokenType::Ident ==> r == Ok::<Variable, ParseError>(
            Variable { name: old(tokens)@.last() },
        ),
        old(tokens)@.last().t_type != TokenType::Ident ==> r == Err::<Variable, ParseError>(
            ParseError::ExpectedIdentifier { found: old(tokens)@.last().t_type },
        ),
{
    let token = tokens.pop().unwrap();
    if token.t_type == TokenType::Ident {
        Ok(Variable { name: token })
    } else {
        Err(ParseError::ExpectedIdentifier { found: token.t_type })
    }
}

fn parse_term(tokens: &mut Vec<Token>) -> (r: Result<Expr, ParseError>)
    ensures
        parsed(r, final(tokens)@) == p_term(old(tokens)@),
        r is Ok ==> final(tokens)@.len() < old(tokens)@.len(),
    decreases old(tokens)@.len(), 3nat,
{
    let ghost s0 = tokens@;
    let mut res = match parse_factor(tokens) {
        Ok(e) => e,
        Err(x) => return Err(x),
    };
    while next_is(tokens, TokenType::Plus, TokenType::Minus)
        invariant
            s0 == old(tokens)@,
            tokens@.len() < s0.len(),
            p_term(s0) == term_tail(res, tokens@),
        decreases tokens@.len(),
    {
        let ghost s1 = tokens@;
        let op_token = tokens.pop().unwrap();
        match parse_factor(tokens) {
            Ok(rhs) => {
                res = Expr::BinaryOp(
                    BinaryOp { lhs: Box::new(res), operation: op_token, rhs: Box::new(rhs) },
                );
            },
            Err(x) => return Err(x),
        }
    }
    Ok(res)
}

fn parse_factor(tokens: &mut Vec<Token>) -> (r: Result<Expr, ParseError>)
    ensures
        parsed(r, final(tokens)@) == p_factor(old(tokens)@),
        r is Ok ==> final(tokens)@.len() < old(tokens)@.len(),
    decreases old(tokens)@.len(), 2nat,
{
    let ghost s0 = tokens@;
    let mut res = match parse_primary(tokens) {
        Ok(e) => e,
        Err(x) => return Err(x),
    };
    while next_is(tokens, TokenType::Star, TokenType::Slash)
        invariant
            s0 == old(tokens)@,
            tokens@.len() < s0.len(),
            p_factor(s0) == factor_tail(res, tokens@),
        decreases tokens@.len(),
    {
        let operand = tokens.pop().unwrap();
        match parse_primary(tokens) {
            Ok(rhs) => {
                res = Expr::BinaryOp(
                    BinaryOp { lhs: Box::new(res), operation: operand, rhs: Box::new(rhs) },
                );
            },
            Err(x) => return Err(x),
        }
    }
    Ok(res)
}

fn parse_primary(tokens: &mut Vec<Token>) -> (r: Result<Expr, ParseError>)
    ensures
        parsed(r, final(tokens)@) == p_primary(old(tokens)@),
        r is Ok ==> final(tokens)@.len() < old(tokens)@.len(),
    decreases old(tokens)@.len(), 1nat,
{
    let token = match tokens.pop() {
        Some(t) => t,
        None => return Err(ParseError::UnexpectedEnd),
    };
    match token.t_type {
        TokenType::NumberLiteral => match parse_number(token.lexeme.as_str()) {
            Some(value) => Ok(Expr::Number(Number { value, token })),
            None => Err(ParseError::InvalidNumber),
        },
        TokenType::Ident => {
            if next_is(tokens, TokenType::LeftParen, TokenType::LeftParen) {
                let func_name = Variable { name: token };
                let _ = tokens.pop();
                let arg = match parse_expr(tokens) {
                    Ok(e) => e,
                    Err(x) => return Err(x),
                };
                match expect(TokenType::RightParen, tokens) {
                    Ok(_) => Ok(Expr::FunCall(FunCall { name: func_name, arg: Box::new(arg) })),
                    Err(x) => Err(x),
                }
            } else {
                Ok(Expr::Variable(Variable { name: token }))
            }
        },
        TokenType::LeftParen => {
            let e = match parse_expr(tokens) {
                Ok(e) => e,
                Err(x) => return Err(x),
            };
            match expect(TokenType::RightParen, tokens) {
                Ok(_) => Ok(e),
                Err(x) => Err(x),
            }
        },
        other => Err(ParseError::InvalidPrimary { found: other }),
    }
}

/// Parses a token sequence, first token first, into its statements: one
/// expression per line.
pub fn parse(tokens: Vec<Token>) -> (r: Result<Vec<Expr>, ParseError>)
    ensures
        match r {
            Ok(v) => parse_tokens(tokens@) == Ok::<Seq<Expr>, ParseError>(v@),
            Err(x) => parse_tokens(tokens@) == Err::<Seq<Expr>, ParseError>(x),
        },
{
    let ghost t0 = tokens@;
    let mut input = tokens;
    let mut stack: Vec<Token> = Vec::new();
    while input.len() > 0
        invariant
            t0 == tokens@,
            input@.len() <= t0.len(),
            input@ == t0.subrange(0, input@.len() as int),
            stack@ == t0.subrange(input@.len() as int, t0.len() as int).reverse(),
        decreases input@.len(),
    {
        let t = input.pop().unwrap();
        stack.push(t);
        assert(stack@ =~= t0.subrange(input@.len() as int, t0.len() as int).reverse());
        assert(input@ =~= t0.subrange(0, input@.len() as int));
    }
    assert(t0.subrange(0, t0.len() as int) =~= t0);
    let mut res: Vec<Expr> = Vec::new();
    while stack.len() > 0
        invariant
            t0 == tokens@,
            p_program(t0.reverse()) == match p_program(stack@) {
                Ok(es) => Ok(res@ + es),
                Err(x) => Err(x),
            },
        decreases stack@.len(),
    {
        let ghost s1 = stack@;
        let expr = match parse_expr(&mut stack) {
            Ok(e) => e,
            Err(x) => return Err(x),
        };
        match expect(TokenType::Newline, &mut stack) {
            Ok(_) => {},
            Err(x) => return Err(x),
        }
        let ghost before = res@;
        res.push(expr);
        proof {
            if let Ok(es) = p_program(stack@) {
                assert(before + (seq![expr] + es) =~= res@ + es);
            }
        }
    }
    assert(res@ + seq![] =~= res@);
    Ok(res)
}

} // verus!
