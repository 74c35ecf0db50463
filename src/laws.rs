//! Properties of the language that relate its stages or several steps.
use vstd::prelude::*;

use crate::expr::{Assignment, Expr, FunCall, Number, Variable};
use crate::interpreter::{eval, print_name, run, RuntimeError, Store};
use crate::parser::{
    digits_value, is_digit_run, p_assignment, p_expr, p_factor, p_primary, p_program, p_term,
    parse_tokens, ParseError,
};
use crate::token::{Token, TokenType};
use crate::tokenizer::{
    digit_run_len, ends_number, ident_run_len, is_digit, is_ident_char, lex, lex_from, lexed,
    token_views, LexError, TokenView,
};

verus! {

proof fn lemma_digit_run_len(s: Seq<char>, i: nat, end: nat)
    requires
        i <= end <= s.len(),
        forall|k: int| i <= k < end ==> is_digit(#[trigger] s[k]),
        end == s.len() || !is_digit(s[end as int]),
    ensures
        digit_run_len(s, i) == end - i,
    decreases end - i,
{
    if i < end {
        lemma_digit_run_len(s, i + 1, end);
    }
}

proof fn lemma_ident_run_len(s: Seq<char>, i: nat, end: nat)
    requires
        i <= end <= s.len(),
        forall|k: int| i <= k < end ==> is_ident_char(#[trigger] s[k]),
        end == s.len() || !is_ident_char(s[end as int]),
    ensures
        ident_run_len(s, i) == end - i,
    decreases end - i,
{
    if i < end {
        lemma_ident_run_len(s, i + 1, end);
    }
}

/// The character of the decimal digit `d`.
pub open spec fn digit_char(d: nat) -> char {
    ('0' as nat + d) as char
}

/// The decimal numeral of `n`, without leading zeros.
pub open spec fn decimal(n: nat) -> Seq<char>
    decreases n,
{
    if n < 10 {
        seq![digit_char(n)]
    } else {
        decimal(n / 10).push(digit_char(n % 10))
    }
}

proof fn lemma_decimal(n: nat)
    ensures
        is_digit_run(decimal(n)),
        digits_value(decimal(n)) == n,
    decreases n,
{
    let d = decimal(n);
    assert(digit_char(n % 10) as nat == '0' as nat + n % 10);
    if n < 10 {
        assert(d.drop_last() =~= Seq::<char>::empty());
        assert(digits_value(d.drop_last()) == 0);
        assert(digits_value(d) == n);
    } else {
        lemma_decimal(n / 10);
        assert(d.drop_last() =~= decimal(n / 10));
        assert(d.last() == digit_char(n % 10));
        assert(digits_value(d) == digits_value(decimal(n / 10)) * 10 + n % 10);
        assert(n == (n / 10) * 10 + n % 10) by (nonlinear_arith);
        assert forall|i: int| 0 <= i < d.len() implies is_digit(#[trigger] d[i]) by {
            if i < d.len() - 1 {
                assert(d[i] == decimal(n / 10)[i]);
            }
        }
    }
}

/// The program `x = n`, a newline, then `print(x)`.
pub open spec fn assign_then_print(n: nat) -> Seq<char> {
    seq!['x', ' ', '=', ' '] + decimal(n) + seq!['\n', 'p', 'r', 'i', 'n', 't', '(', 'x', ')']
}

/// The tokens of `x = n`, a newline, then `print(x)`.
pub open spec fn assign_then_print_tokens(n: nat) -> Seq<TokenView> {
    seq![
        (TokenType::Ident, seq!['x']),
        (TokenType::Equal, seq!['=']),
        (TokenType::NumberLiteral, decimal(n)),
        (TokenType::Newline, seq!['\n']),
        (TokenType::Ident, print_name()),
        (TokenType::LeftParen, seq!['(']),
        (TokenType::Ident, seq!['x']),
        (TokenType::RightParen, seq![')']),
    ]
}

proof fn lemma_assign_then_print_lexes(n: i32)
    requires
        0 <= n,
    ensures
        lex(assign_then_print(n as nat)) == Ok::<Seq<TokenView>, LexError>(
            assign_then_print_tokens(n as nat),
        ),
{
    let d = decimal(n as nat);
    lemma_decimal(n as nat);
    let l = d.len() as int;
    let s = assign_then_print(n as nat);
    assert(s.len() == 13 + l);
    assert(s[0] == 'x' && s[1] == ' ' && s[2] == '=' && s[3] == ' ');
    assert(forall|k: int| 0 <= k < l ==> s[4 + k] == d[k]);
    assert(s[4 + l] == '\n' && s[5 + l] == 'p' && s[6 + l] == 'r' && s[7 + l] == 'i');
    assert(s[8 + l] == 'n' && s[9 + l] == 't' && s[10 + l] == '(' && s[11 + l] == 'x');
    assert(s[12 + l] == ')');

    // Lexing, from the end of the text back to its start.
    let v_rp = (TokenType::RightParen, seq![')']);
    let v_x = (TokenType::Ident, seq!['x']);
    let v_lp = (TokenType::LeftParen, seq!['(']);
    let v_print = (TokenType::Ident, print_name());
    let v_nl = (TokenType::Newline, seq!['\n']);
    let v_num = (TokenType::NumberLiteral, d);
    let v_eq = (TokenType::Equal, seq!['=']);
    assert(lex_from(s, (13 + l) as nat) == Ok::<Seq<TokenView>, LexError>(seq![]));
    assert(lex_from(s, (12 + l) as nat) == Ok::<Seq<TokenView>, LexError>(seq![v_rp]));
    lemma_ident_run_len(s, (12 + l) as nat, (12 + l) as nat);
    assert(s.subrange(11 + l, 12 + l) =~= seq!['x']);
    assert(seq![v_x] + seq![v_rp] =~= seq![v_x, v_rp]);
    assert(lex_from(s, (11 + l) as nat) == Ok::<Seq<TokenView>, LexError>(seq![v_x, v_rp]));
    assert(seq![v_lp] + seq![v_x, v_rp] =~= seq![v_lp, v_x, v_rp]);
    assert(lex_from(s, (10 + l) as nat) == Ok::<Seq<TokenView>, LexError>(seq![v_lp, v_x, v_rp]));
    lemma_ident_run_len(s, (6 + l) as nat, (10 + l) as nat);
    assert(s.subrange(5 + l, 10 + l) =~= print_name());
    assert(seq![v_print] + seq![v_lp, v_x, v_rp] =~= seq![v_print, v_lp, v_x, v_rp]);
    assert(lex_from(s, (5 + l) as nat) == Ok::<Seq<TokenView>, LexError>(
        seq![v_print, v_lp, v_x, v_rp],
    ));
    assert(seq![v_nl] + seq![v_print, v_lp, v_x, v_rp] =~= seq![v_nl, v_print, v_lp, v_x, v_rp]);
    assert(lex_from(s, (4 + l) as nat) == Ok::<Seq<TokenView>, LexError>(
        seq![v_nl, v_print, v_lp, v_x, v_rp],
    ));
    lemma_digit_run_len(s, 5, (4 + l) as nat);
    assert(s.subrange(4, 4 + l) =~= d);
    assert(seq![v_num] + seq![v_nl, v_print, v_lp, v_x, v_rp] =~= seq![v_num, v_nl, v_print, v_lp, v_x, v_rp]);
    assert(lex_from(s, 4) == Ok::<Seq<TokenView>, LexError>(
        seq![v_num, v_nl, v_print, v_lp, v_x, v_rp],
    ));
    assert(lex_from(s, 3) == lex_from(s, 4));
    assert(seq![v_eq] + seq![v_num, v_nl, v_print, v_lp, v_x, v_rp] =~= seq![v_eq, v_num, v_nl, v_print, v_lp, v_x, v_rp]);
    assert(lex_from(s, 2) == Ok::<Seq<TokenView>, LexError>(
        seq![v_eq, v_num, v_nl, v_print, v_lp, v_x, v_rp],
    ));
    assert(lex_from(s, 1) == lex_from(s, 2));
    lemma_ident_run_len(s, 1, 1);
    assert(s.subrange(0, 1) =~= seq!['x']);
    let views = seq![v_x, v_eq, v_num, v_nl, v_print, v_lp, v_x, v_rp];
    assert(seq![v_x] + seq![v_eq, v_num, v_nl, v_print, v_lp, v_x, v_rp] =~= views);
    assert(lex_from(s, 0) == Ok::<Seq<TokenView>, LexError>(views));
    assert(views =~= assign_then_print_tokens(n as nat));
}

proof fn lemma_assign_then_print_parses(n: i32, tokens: Seq<Token>)
    requires
        0 <= n,
        tokens.len() == 8,
        tokens[0]@ == (TokenType::Ident, seq!['x']),
        tokens[1]@.0 == TokenType::Equal,
        tokens[2]@ == (TokenType::NumberLiteral, decimal(n as nat)),
        tokens[3]@.0 == TokenType::Newline,
        tokens[4]@ == (TokenType::Ident, print_name()),
        tokens[5]@.0 == TokenType::LeftParen,
        tokens[6]@ == (TokenType::Ident, seq!['x']),
        tokens[7]@.0 == TokenType::RightParen,
    ensures
        parse_tokens(tokens) == Ok::<Seq<Expr>, ParseError>(
            seq![
                Expr::Assignment(
                    Assignment {
                        target: Variable { name: tokens[0] },
                        value: Box::new(Expr::Number(Number { value: n, token: tokens[2] })),
                    },
                ),
                Expr::FunCall(
                    FunCall {
                        name: Variable { name: tokens[4] },
                        arg: Box::new(Expr::Variable(Variable { name: tokens[6] })),
                    },
                ),
            ],
        ),
{
    lemma_decimal(n as nat);
    // Parsing: the stack holds the tokens last first.
    let st = tokens.reverse();
    assert(forall|k: int| 0 <= k < 8 ==> #[trigger] st[k] == tokens[7 - k]);
    let s6 = st.subrange(0, 6);
    let s5 = st.subrange(0, 5);
    let s4 = st.subrange(0, 4);
    let s3 = st.subrange(0, 3);
    let s2 = st.subrange(0, 2);
    let s1 = st.subrange(0, 1);
    let s0 = st.subrange(0, 0);
    assert(st.drop_last().drop_last() =~= s6);
    assert(s6.drop_last() =~= s5);
    assert(s5.drop_last() =~= s4);
    assert(s4.drop_last() =~= s3);
    assert(s3.drop_last() =~= s2);
    assert(s2.drop_last() =~= s1);
    assert(s1.drop_last() =~= s0);

    let num = Expr::Number(Number { value: n, token: st[5] });
    assert(p_primary(s6) == Ok::<(Expr, Seq<Token>), ParseError>((num, s5)));
    assert(p_factor(s6) == Ok::<(Expr, Seq<Token>), ParseError>((num, s5)));
    assert(p_term(s6) == Ok::<(Expr, Seq<Token>), ParseError>((num, s5)));
    assert(p_expr(s6) == Ok::<(Expr, Seq<Token>), ParseError>((num, s5)));
    let assign = Expr::Assignment(
        Assignment { target: Variable { name: st[7] }, value: Box::new(num) },
    );
    assert(p_expr(st) == Ok::<(Expr, Seq<Token>), ParseError>((assign, s5)));

    let var = Expr::Variable(Variable { name: st[1] });
    assert(p_primary(s2) == Ok::<(Expr, Seq<Token>), ParseError>((var, s1)));
    assert(p_factor(s2) == Ok::<(Expr, Seq<Token>), ParseError>((var, s1)));
    assert(p_term(s2) == Ok::<(Expr, Seq<Token>), ParseError>((var, s1)));
    assert(p_expr(s2) == Ok::<(Expr, Seq<Token>), ParseError>((var, s1)));
    let call = Expr::FunCall(FunCall { name: Variable { name: st[3] }, arg: Box::new(var) });
    assert(p_primary(s4) == Ok::<(Expr, Seq<Token>), ParseError>((call, s0)));
    assert(p_factor(s4) == Ok::<(Expr, Seq<Token>), ParseError>((call, s0)));
    assert(p_term(s4) == Ok::<(Expr, Seq<Token>), ParseError>((call, s0)));
    assert(p_expr(s4) == Ok::<(Expr, Seq<Token>), ParseError>((call, s0)));
    assert(p_program(s0) == Ok::<Seq<Expr>, ParseError>(seq![]));
    assert(p_program(s4) == Ok::<Seq<Expr>, ParseError>(seq![call]));
    assert(seq![assign] + seq![call] =~= seq![assign, call]);
    assert(p_program(st) == Ok::<Seq<Expr>, ParseError>(seq![assign, call]));

}

proof fn lemma_assign_then_print_runs(n: i32, x1: Token, lit: Token, print: Token, x2: Token)
    requires
        x1.lexeme@ == seq!['x'],
        x2.lexeme@ == seq!['x'],
        print.lexeme@ == print_name(),
    ensures
        ({
            let assign = Expr::Assignment(
                Assignment {
                    target: Variable { name: x1 },
                    value: Box::new(Expr::Number(Number { value: n, token: lit })),
                },
            );
            let call = Expr::FunCall(
                FunCall {
                    name: Variable { name: print },
                    arg: Box::new(Expr::Variable(Variable { name: x2 })),
                },
            );
            let r = run(seq![assign, call], Map::empty(), seq![]);
            &&& r.0 is Ok
            &&& r.1 == Map::<Seq<char>, i32>::empty().insert(seq!['x'], n)
            &&& r.2 == seq![n]
        }),
{
    let num = Expr::Number(Number { value: n, token: lit });
    let assign = Expr::Assignment(Assignment { target: Variable { name: x1 }, value: Box::new(num) });
    let var = Expr::Variable(Variable { name: x2 });
    let call = Expr::FunCall(FunCall { name: Variable { name: print }, arg: Box::new(var) });
    let es = seq![assign, call];
    let env1 = Map::<Seq<char>, i32>::empty().insert(seq!['x'], n);
    assert(eval(num, Map::empty(), seq![]) == (Ok::<i32, RuntimeError>(n), Map::<Seq<char>, i32>::empty(), Seq::<i32>::empty()));
    assert(eval(assign, Map::empty(), seq![]) == (Ok::<i32, RuntimeError>(n), env1, Seq::<i32>::empty()));
    assert(env1.contains_key(seq!['x']));
    assert(eval(var, env1, seq![]) == (Ok::<i32, RuntimeError>(n), env1, Seq::<i32>::empty()));
    assert(eval(call, env1, seq![]) == (Ok::<i32, RuntimeError>(n), env1, seq![n]));
    assert(es.drop_first() =~= seq![call]);
    assert(seq![call].drop_first() =~= Seq::<Expr>::empty());
    assert(seq![call][0] == call);
    assert(run(Seq::<Expr>::empty(), env1, seq![n]) == (Ok::<(), RuntimeError>(()), env1, seq![n]));
    assert(run(seq![call], env1, seq![]) == (Ok::<(), RuntimeError>(()), env1, seq![n]));
}

/// For every value `n` that a literal can denote, the program `x = n` then
/// `print(x)` lexes; any tokens with what lexing gives parse into two
/// statements, which run from an empty store to completion, printing exactly
/// `n` and leaving `x` bound to `n`.
pub proof fn lemma_assign_then_print(n: i32, tokens: Seq<Token>)
    requires
        0 <= n,
    ensures
        lex(assign_then_print(n as nat)) is Ok,
        lex(assign_then_print(n as nat)) == Ok::<Seq<TokenView>, LexError>(token_views(tokens))
            ==> {
            &&& parse_tokens(tokens) is Ok
            &&& run(parse_tokens(tokens)->Ok_0, Map::empty(), seq![]).0 is Ok
            &&& run(parse_tokens(tokens)->Ok_0, Map::empty(), seq![]).1 == Map::<
                Seq<char>,
                i32,
            >::empty().insert(seq!['x'], n)
            &&& run(parse_tokens(tokens)->Ok_0, Map::empty(), seq![]).2 == seq![n]
        },
{
    lemma_assign_then_print_lexes(n);
    if lex(assign_then_print(n as nat)) == Ok::<Seq<TokenView>, LexError>(token_views(tokens)) {
        let views = assign_then_print_tokens(n as nat);
        assert(views.len() == 8);
        assert(token_views(tokens) == views);
        assert(tokens.len() == 8);
        assert(forall|k: int| 0 <= k < 8 ==> #[trigger] tokens[k]@ == views[k]);
        lemma_assign_then_print_parses(n, tokens);
        lemma_assign_then_print_runs(n, tokens[0], tokens[2], tokens[4], tokens[6]);
    }
}

/// Lexing is a function of the text alone: whatever two calls of `tokenize`
/// on the same text return is the same.
pub proof fn lemma_tokenize_deterministic(
    src: Seq<char>,
    r1: Result<Vec<Token>, LexError>,
    r2: Result<Vec<Token>, LexError>,
)
    requires
        lexed(r1) == lex(src),
        lexed(r2) == lex(src),
    ensures
        lexed(r1) == lexed(r2),
{
}

/// A digit run that runs into a character which is neither a digit nor a
/// space, `)` or newline is a lexical error naming that character; it is
/// never cut short or read as an identifier.
pub proof fn lemma_malformed_number_rejected(digits: Seq<char>, c: char, rest: Seq<char>)
    requires
        is_digit_run(digits),
        !is_digit(c),
        !ends_number(c),
    ensures
        lex(digits + seq![c] + rest) == Err::<Seq<TokenView>, LexError>(
            LexError::InvalidCharacter(c),
        ),
{
    let s = digits + seq![c] + rest;
    assert(s[0] == digits[0]);
    assert(forall|k: int| 1 <= k < digits.len() ==> s[k] == digits[k]);
    assert(s[digits.len() as int] == c);
    lemma_digit_run_len(s, 1, digits.len());
}

/// Printing a variable that holds no value fails at once: nothing is printed
/// and the store is left as it was.
pub proof fn lemma_undefined_variable_aborts(print: Token, b: Token, env: Store, out: Seq<i32>)
    requires
        print.lexeme@ == print_name(),
        !env.contains_key(b.lexeme@),
    ensures
        eval(
            Expr::FunCall(
                FunCall {
                    name: Variable { name: print },
                    arg: Box::new(Expr::Variable(Variable { name: b })),
                },
            ),
            env,
            out,
        ) == (Err::<i32, RuntimeError>(RuntimeError::UndefinedVariable), env, out),
{
    let read = Expr::Variable(Variable { name: b });
    assert(eval(read, env, out) == (
        Err::<i32, RuntimeError>(RuntimeError::UndefinedVariable),
        env,
        out,
    ));
}

/// An assignment whose right-hand side evaluates yields that value, and
/// leaves the target bound to it.
pub proof fn lemma_assignment_binds(a: Assignment, env: Store, out: Seq<i32>)
    requires
        eval(*a.value, env, out).0 is Ok,
    ensures
        ({
            let (v, env1, out1) = eval(*a.value, env, out);
            eval(Expr::Assignment(a), env, out) == (v, env1.insert(a.target.name.lexeme@, v->Ok_0), out1)
        }),
        ({
            let (r, env2, out2) = eval(Expr::Assignment(a), env, out);
            eval(Expr::Variable(a.target), env2, out2) == (r, env2, out2)
        }),
{
}

/// Assigning to a name that already holds a value replaces it: afterwards
/// the name reads as the new value, whatever it held before.
pub proof fn lemma_reassignment_overwrites(a: Assignment, env: Store, out: Seq<i32>)
    requires
        env.contains_key(a.target.name.lexeme@),
        eval(*a.value, env, out).0 is Ok,
    ensures
        ({
            let (r, env2, out2) = eval(Expr::Assignment(a), env, out);
            &&& env2[a.target.name.lexeme@] == r->Ok_0
            &&& eval(Expr::Variable(a.target), env2, out2).0 == r
        }),
{
}

} // verus!
