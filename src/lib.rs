//! A tiny expression language: a lexer, a recursive-descent parser and a
//! tree-walking evaluator, each specified by spec functions and verified
//! against them.
pub mod env;
pub mod expr;
pub mod interpreter;
pub mod laws;
pub mod parser;
pub mod token;
pub mod tokenizer;

pub use env::Env;
pub use expr::{Assignment, BinaryOp, Expr, FunCall, Number, Variable};
pub use interpreter::{evaluate, interpret, RuntimeError};
pub use parser::{parse, ParseError};
pub use token::{Token, TokenType};
pub use tokenizer::{is_valid_identifier_char, tokenize, LexError};
