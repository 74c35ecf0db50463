use tiny_lang::{
    evaluate, interpret, is_valid_identifier_char, parse, tokenize, Env, Expr, LexError,
    ParseError, RuntimeError, Token, TokenType,
};

/// Lexes, parses and runs `src`; returns how the run ended and what it printed.
fn run_source(src: &str) -> (Result<(), RuntimeError>, Vec<i32>) {
    let tokens = tokenize(src).expect("source should lex");
    let exprs = parse(tokens).expect("source should parse");
    let mut env = Env::new();
    let mut out = Vec::new();
    let r = interpret(&exprs, &mut env, &mut out);
    (r, out)
}

/// Lexes and parses `src`, then evaluates its single statement.
fn eval_source(src: &str) -> Result<i32, RuntimeError> {
    let exprs = parse(tokenize(src).expect("source should lex")).expect("source should parse");
    assert_eq!(exprs.len(), 1);
    let mut env = Env::new();
    let mut out = Vec::new();
    evaluate(&exprs[0], &mut env, &mut out)
}

fn printed(out: &[i32]) -> String {
    out.iter().map(|v| format!("{}\n", v)).collect()
}

fn token(t_type: TokenType, lexeme: &str) -> Token {
    Token { t_type, lexeme: lexeme.to_string() }
}

#[test]
fn assign_then_print_prints_the_literal() {
    for n in [0, 7, 42, 654, 2147483647] {
        let (r, out) = run_source(&format!("x = {}\nprint(x)", n));
        assert_eq!(r, Ok(()));
        assert_eq!(printed(&out), format!("{}\n", n));
    }
}

#[test]
fn multiplication_binds_tighter_than_addition() {
    assert_eq!(eval_source("2 + 3 * 4"), Ok(14));
}

#[test]
fn parentheses_override_precedence() {
    assert_eq!(eval_source("(2 + 3) * 4"), Ok(20));
}

#[test]
fn subtraction_groups_to_the_left() {
    assert_eq!(eval_source("10 - 3 - 2"), Ok(5));
}

#[test]
fn division_groups_to_the_left() {
    assert_eq!(eval_source("100 / 10 / 5"), Ok(2));
}

#[test]
fn assignment_updates_environment() {
    let (r, out) = run_source("a = 5\nprint(a)");
    assert_eq!(r, Ok(()));
    assert_eq!(printed(&out), "5\n");
}

#[test]
fn assignment_yields_its_value() {
    assert_eq!(eval_source("a = 3 * 3"), Ok(9));
    let (r, out) = run_source("print(a = 4)\nprint(a)");
    assert_eq!(r, Ok(()));
    assert_eq!(out, vec![4, 4]);
}

#[test]
fn undefined_variable_aborts_before_printing() {
    let (r, out) = run_source("print(b)");
    assert_eq!(r, Err(RuntimeError::UndefinedVariable));
    assert!(out.is_empty());
}

#[test]
fn output_before_an_error_stands() {
    let (r, out) = run_source("print(1)\nprint(b)\nprint(2)");
    assert_eq!(r, Err(RuntimeError::UndefinedVariable));
    assert_eq!(out, vec![1]);
}

#[test]
fn reassignment_overwrites() {
    let (r, out) = run_source("a = 1\na = 2\nprint(a)");
    assert_eq!(r, Ok(()));
    assert_eq!(printed(&out), "2\n");
}

#[test]
fn division_truncates() {
    let (r, out) = run_source("print(7 / 2)");
    assert_eq!(r, Ok(()));
    assert_eq!(printed(&out), "3\n");
}

#[test]
fn division_truncates_toward_zero_for_negatives() {
    assert_eq!(eval_source("(0 - 7) / 2"), Ok(-3));
    assert_eq!(eval_source("7 / (0 - 2)"), Ok(-3));
    assert_eq!(eval_source("(0 - 7) / (0 - 2)"), Ok(3));
}

#[test]
fn nested_print_prints_twice() {
    let (r, out) = run_source("print(print(3))");
    assert_eq!(r, Ok(()));
    assert_eq!(printed(&out), "3\n3\n");
}

#[test]
fn tokenizing_twice_gives_same_tokens() {
    let src = "a_123 = 654 * (2 * 1)\n    print(a_123)";
    let first = tokenize(src).unwrap();
    let second = tokenize(src).unwrap();
    assert!(first == second);
    assert_eq!(first.len(), 14);
}

#[test]
fn malformed_digit_run_is_a_lexical_error() {
    assert_eq!(tokenize("12a3").err(), Some(LexError::InvalidCharacter('a')));
    assert_eq!(tokenize("x = 12a3").err(), Some(LexError::InvalidCharacter('a')));
}

#[test]
fn digit_run_must_end_at_space_paren_or_newline() {
    assert_eq!(tokenize("2+3").err(), Some(LexError::InvalidCharacter('+')));
    assert!(tokenize("print(2)\n3").is_ok());
}

#[test]
fn tokens_carry_kind_and_text() {
    let tokens = tokenize("x = 12\nprint(x)").unwrap();
    let expected = vec![
        token(TokenType::Ident, "x"),
        token(TokenType::Equal, "="),
        token(TokenType::NumberLiteral, "12"),
        token(TokenType::Newline, "\n"),
        token(TokenType::Ident, "print"),
        token(TokenType::LeftParen, "("),
        token(TokenType::Ident, "x"),
        token(TokenType::RightParen, ")"),
    ];
    assert!(tokens == expected);
}

#[test]
fn all_punctuation_is_recognised() {
    let tokens = tokenize("=+-*/()\n").unwrap();
    let kinds: Vec<TokenType> = tokens.iter().map(|t| t.t_type).collect();
    assert_eq!(
        kinds,
        vec![
            TokenType::Equal,
            TokenType::Plus,
            TokenType::Minus,
            TokenType::Star,
            TokenType::Slash,
            TokenType::LeftParen,
            TokenType::RightParen,
            TokenType::Newline,
        ]
    );
}

#[test]
fn identifier_ends_at_other_characters() {
    let tokens = tokenize("ab_1+c").unwrap();
    assert!(tokens == vec![
        token(TokenType::Ident, "ab_1"),
        token(TokenType::Plus, "+"),
        token(TokenType::Ident, "c"),
    ]);
}

#[test]
fn identifier_char_classes() {
    assert!(is_valid_identifier_char('a'));
    assert!(is_valid_identifier_char('Z'));
    assert!(is_valid_identifier_char('7'));
    assert!(is_valid_identifier_char('_'));
    assert!(is_valid_identifier_char('é'));
    assert!(!is_valid_identifier_char(' '));
    assert!(!is_valid_identifier_char('('));
    assert!(!is_valid_identifier_char('+'));
}

#[test]
fn unicode_identifiers_are_read_whole() {
    let (r, out) = run_source("café = 8\nprint(café)");
    assert_eq!(r, Ok(()));
    assert_eq!(out, vec![8]);
}

#[test]
fn empty_source_is_an_empty_program() {
    assert!(tokenize("").unwrap().is_empty());
    assert!(parse(Vec::new()).unwrap().is_empty());
}

#[test]
fn example_program_runs() {
    let (r, out) = run_source("a_123 = 654 * (2 * 1)\n    print(a_123)");
    assert_eq!(r, Ok(()));
    assert_eq!(out, vec![1308]);
}

#[test]
fn number_literal_keeps_its_value_and_token() {
    let exprs = parse(tokenize("654").unwrap()).unwrap();
    match &exprs[0] {
        Expr::Number(n) => {
            assert_eq!(n.value, 654);
            assert_eq!(n.token.lexeme, "654");
        }
        _ => panic!("expected a number literal"),
    }
}

#[test]
fn assignment_parses_into_target_and_value() {
    let exprs = parse(tokenize("a = b + 1").unwrap()).unwrap();
    match &exprs[0] {
        Expr::Assignment(a) => {
            assert_eq!(a.target.name.lexeme, "a");
            match a.value.as_ref() {
                Expr::BinaryOp(b) => {
                    assert_eq!(b.operation.t_type, TokenType::Plus);
                    assert!(matches!(b.lhs.as_ref(), Expr::Variable(_)));
                    assert!(matches!(b.rhs.as_ref(), Expr::Number(_)));
                }
                _ => panic!("expected a binary operation"),
            }
        }
        _ => panic!("expected an assignment"),
    }
}

#[test]
fn literal_too_large_is_rejected() {
    let tokens = tokenize("2147483648").unwrap();
    assert_eq!(parse(tokens).err(), Some(ParseError::InvalidNumber));
}

#[test]
fn malformed_literal_token_is_rejected() {
    let tokens = vec![token(TokenType::NumberLiteral, "+5")];
    assert_eq!(parse(tokens).err(), Some(ParseError::InvalidNumber));
}

#[test]
fn assignment_target_must_be_identifier() {
    let tokens = tokenize("5 = 3").unwrap();
    assert_eq!(
        parse(tokens).err(),
        Some(ParseError::ExpectedIdentifier { found: TokenType::NumberLiteral })
    );
}

#[test]
fn missing_closing_paren_mid_input_is_an_error() {
    let tokens = tokenize("(1 2").unwrap();
    assert_eq!(
        parse(tokens).err(),
        Some(ParseError::UnexpectedToken {
            expected: TokenType::RightParen,
            found: TokenType::NumberLiteral,
        })
    );
}

#[test]
fn missing_closing_paren_at_end_is_an_error() {
    assert_eq!(parse(tokenize("print(3").unwrap()).err(), Some(ParseError::UnexpectedEnd));
    assert_eq!(parse(tokenize("(3").unwrap()).err(), Some(ParseError::UnexpectedEnd));
    assert_eq!(
        parse(tokenize("print(3\nprint(4)").unwrap()).err(),
        Some(ParseError::UnexpectedToken {
            expected: TokenType::RightParen,
            found: TokenType::Newline,
        })
    );
}

#[test]
fn missing_final_newline_is_tolerated() {
    let exprs = parse(tokenize("a = 1\nprint(a)").unwrap()).unwrap();
    assert_eq!(exprs.len(), 2);
    let with_newline = parse(tokenize("a = 1\nprint(a)\n").unwrap()).unwrap();
    assert_eq!(with_newline.len(), 2);
}

#[test]
fn literal_with_leading_zeros_keeps_its_value() {
    assert_eq!(eval_source("007 + 1"), Ok(8));
}

#[test]
fn statements_must_end_with_newline() {
    let tokens = tokenize("1 2").unwrap();
    assert_eq!(
        parse(tokens).err(),
        Some(ParseError::UnexpectedToken {
            expected: TokenType::Newline,
            found: TokenType::NumberLiteral,
        })
    );
}

#[test]
fn operator_cannot_start_an_expression() {
    let tokens = tokenize("* 2").unwrap();
    assert_eq!(parse(tokens).err(), Some(ParseError::InvalidPrimary { found: TokenType::Star }));
    let blank_line = tokenize("a = 1\n\nprint(a)").unwrap();
    assert_eq!(
        parse(blank_line).err(),
        Some(ParseError::InvalidPrimary { found: TokenType::Newline })
    );
}

#[test]
fn dangling_operator_runs_out_of_tokens() {
    let tokens = tokenize("1 +").unwrap();
    assert_eq!(parse(tokens).err(), Some(ParseError::UnexpectedEnd));
}

#[test]
fn dangling_multiplication_runs_out_of_tokens() {
    let tokens = tokenize("2 *").unwrap();
    assert_eq!(parse(tokens).err(), Some(ParseError::UnexpectedEnd));
}

#[test]
fn undefined_function_is_an_error() {
    let (r, out) = run_source("foo(1)");
    assert_eq!(r, Err(RuntimeError::UndefinedFunction));
    assert!(out.is_empty());
}

#[test]
fn division_by_zero_is_an_error() {
    assert_eq!(eval_source("1 / 0"), Err(RuntimeError::DivisionByZero));
}

#[test]
fn overflow_is_an_error() {
    assert_eq!(eval_source("2147483647 + 1"), Err(RuntimeError::Overflow));
    assert_eq!(eval_source("0 - 2147483647 - 2"), Err(RuntimeError::Overflow));
    assert_eq!(eval_source("65536 * 65536"), Err(RuntimeError::Overflow));
}

#[test]
fn operator_outside_arithmetic_is_an_error() {
    let exprs = parse(vec![
        token(TokenType::NumberLiteral, "1"),
        token(TokenType::Plus, "+"),
        token(TokenType::NumberLiteral, "2"),
    ])
    .unwrap();
    let bad = match exprs.into_iter().next().unwrap() {
        Expr::BinaryOp(mut b) => {
            b.operation = token(TokenType::Equal, "=");
            Expr::BinaryOp(b)
        }
        _ => panic!("expected a binary operation"),
    };
    let mut env = Env::new();
    let mut out = Vec::new();
    assert_eq!(evaluate(&bad, &mut env, &mut out), Err(RuntimeError::InvalidOperator));
}

#[test]
fn environment_get_and_insert() {
    let mut env = Env::new();
    assert_eq!(env.get(&"a".to_string()), None);
    env.insert("a".to_string(), 1);
    env.insert("b".to_string(), 2);
    env.insert("a".to_string(), 3);
    assert_eq!(env.get(&"a".to_string()), Some(3));
    assert_eq!(env.get(&"b".to_string()), Some(2));
}
