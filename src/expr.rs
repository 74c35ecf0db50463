//! The abstract syntax tree: a strict tree whose nodes own their children.
use vstd::prelude::*;

use crate::token::Token;

verus! {

/// A reference to a named slot; also the name of a call's callee.
#[derive(Debug)]
pub struct Variable {
    pub name: Token,
}

/// `name(arg)`: a call with exactly one argument.
#[derive(Debug)]
pub struct FunCall {
    pub name: Variable,
    pub arg: Box<Expr>,
}

/// `target = value`.
#[derive(Debug)]
pub struct Assignment {
    pub target: Variable,
    pub value: Box<Expr>,
}

/// `lhs operation rhs`, where the operation is one of `+ - * /`.
#[derive(Debug)]
pub struct BinaryOp {
    pub lhs: Box<Expr>,
    pub operation: Token,
    pub rhs: Box<Expr>,
}

/// An integer literal with the token it was read from.
#[derive(Debug)]
pub struct Number {
    pub value: i32,
    pub token: Token,
}

#[derive(Debug)]
pub enum Expr {
    Assignment(Assignment),
    Variable(Variable),
    Number(Number),
    BinaryOp(BinaryOp),
    FunCall(FunCall),
}

} // verus!
