//! The evaluator: walks each statement against the environment and records
//! what `print` writes, in order.
use vstd::prelude::*;

use crate::env::Env;
use crate::expr::{Assignment, BinaryOp, Expr, FunCall, Number, Variable};
use crate::token::TokenType;

verus! {

#[derive(Debug, Clone, Copy, PartialEq, Eq, Structural)]
pub enum RuntimeError {
    /// A variable was read before any value was assigned to it.
    UndefinedVariable,
    /// A call names a function other than `print`.
    UndefinedFunction,
    DivisionByZero,
    /// The result of an operation does not fit in `i32`.
    Overflow,
    /// A binary operation whose operator is not one of `+ - * /`.
    InvalidOperator,
}

/// The variable store, seen abstractly.
pub type Store = Map<Seq<char>, i32>;

/// What evaluation leaves behind: its result, the store, and the values
/// printed so far. After an error the store and output stand as they were
/// when the error struck.
pub type Evaluated<T> = (Result<T, RuntimeError>, Store, Seq<i32>);

/// The name of the one defined function.
pub open spec fn print_name() -> Seq<char> {
    seq!['p', 'r', 'i', 'n', 't']
}

/// Division that rounds toward zero.
pub open spec fn trunc_div(a: int, b: int) -> int {
    let q = (if a < 0 {
        -a
    } else {
        a
    }) / (if b < 0 {
        -b
    } else {
        b
    });
    if (a < 0) != (b < 0) {
        -q
    } else {
        q
    }
}

pub open spec fn fit(v: int) -> Result<i32, RuntimeError> {
    if i32::MIN <= v && v <= i32::MAX {
        Ok(v as i32)
    } else {
        Err(RuntimeError::Overflow)
    }
}

/// The result of applying the operator of kind `op` to `l` and `r`.
pub open spec fn apply_op(op: TokenType, l: i32, r: i32) -> Result<i32, RuntimeError> {
    match op {
        TokenType::Plus => fit(l + r),
        TokenType::Minus => fit(l - r),
        TokenType::Star => fit(l * r),
        TokenType::Slash => if r == 0 {
            Err(RuntimeError::DivisionByZero)
        } else {
            fit(trunc_div(l as int, r as int))
        },
        _ => Err(RuntimeError::InvalidOperator),
    }
}

/// Evaluation of `e` from store `env`, with `out` printed so far.
pub open spec fn eval(e: Expr, env: Store, out: Seq<i32>) -> Evaluated<i32>
    decreases e,
{
    match e {
        Expr::Number(n) => (Ok(n.value), env, out),
        Expr::Variable(v) => if env.contains_key(v.name.lexeme@) {
            (Ok(env[v.name.lexeme@]), env, out)
        } else {
            (Err(RuntimeError::UndefinedVariable), env, out)
        },
        Expr::BinaryOp(b) => {
            let (l, env1, out1) = eval(*b.lhs, env, out);
            match l {
                Ok(lv) => {
                    let (r, env2, out2) = eval(*b.rhs, env1, out1);
                    match r {
                        Ok(rv) => (apply_op(b.operation.t_type, lv, rv), env2, out2),
                        Err(x) => (Err(x), env2, out2),
                    }
                },
                Err(x) => (Err(x), env1, out1),
            }
        },
        Expr::Assignment(a) => {
            let (v, env1, out1) = eval(*a.value, env, out);
            match v {
                Ok(x) => (Ok(x), env1.insert(a.target.name.lexeme@, x), out1),
                Err(x) => (Err(x), env1, out1),
            }
        },
        Expr::FunCall(f) => if f.name.name.lexeme@ == print_name() {
            let (v, env1, out1) = eval(*f.arg, env, out);
            match v {
                Ok(x) => (Ok(x), env1, out1.push(x)),
                Err(x) => (Err(x), env1, out1),
            }
        } else {
            (Err(RuntimeError::UndefinedFunction), env, out)
        },
    }
}

/// Evaluation of the statements `es` in order, stopping at the first error.
pub open spec fn run(es: Seq<Expr>, env: Store, out: Seq<i32>) -> Evaluated<()>
    decreases es.len(),
{
    if es.len() == 0 {
        (Ok(()), env, out)
    } else {
        let (r, env1, out1) = eval(es[0], env, out);
        match r {
            Ok(_) => run(es.drop_first(), env1, out1),
            Err(x) => (Err(x), env1, out1),
        }
    }
}

fn apply_operator(op: TokenType, l: i32, r: i32) -> (res: Result<i32, RuntimeError>)
    ensures
        res == apply_op(op, l, r),
{
    let v = match op {
        TokenType::Plus => l.checked_add(r),
        TokenType::Minus => l.checked_sub(r),
        TokenType::Star => l.checked_mul(r),
        TokenType::Slash => {
            if r == 0 {
                return Err(RuntimeError::DivisionByZero);
            }
            l.checked_div(r)
        },
        _ => return Err(RuntimeError::InvalidOperator),
    };
    match v {
        Some(x) => Ok(x),
        None => Err(RuntimeError::Overflow),
    }
}

/// Evaluates one expression: its value, with the assignments it makes
/// applied to `env` and the values it prints appended to `out`.
pub fn evaluate(expr: &Expr, env: &mut Env, out: &mut Vec<i32>) -> (r: Result<i32, RuntimeError>)
    requires
        old(env).wf(),
    ensures
        final(env).wf(),
        (r, final(env)@, final(out)@) == eval(*expr, old(env)@, old(out)@),
    decreases expr,
{
    match expr {
        Expr::Number(Number { value, .. }) => Ok(*value),
        Expr::BinaryOp(BinaryOp { lhs, operation, rhs }) => {
            let lhs_value = match evaluate(lhs, env, out) {
                Ok(v) => v,
                Err(x) => return Err(x),
            };
            let rhs_value = match evaluate(rhs, env, out) {
                Ok(v) => v,
                Err(x) => return Err(x),
            };
            apply_operator(operation.t_type, lhs_value, rhs_value)
        },
        Expr::Assignment(Assignment { target, value }) => {
            let v = match evaluate(value, env, out) {
                Ok(v) => v,
                Err(x) => return Err(x),
            };
            env.insert(target.name.lexeme.clone(), v);
            Ok(v)
        },
        Expr::Variable(Variable { name }) => match env.get(&name.lexeme) {
            Some(v) => Ok(v),
            None => Err(RuntimeError::UndefinedVariable),
        },
        Expr::FunCall(FunCall { name, arg }) => {
            let print = String::from_str("print");
            proof {
                reveal_strlit("print");
                assert(print@ =~= print_name());
            }
            if name.name.lexeme == print {
                let v = match evaluate(arg, env, out) {
                    Ok(v) => v,
                    Err(x) => return Err(x),
                };
                out.push(v);
                Ok(v)
            } else {
                Err(RuntimeError::UndefinedFunction)
            }
        },
    }
}

/// Runs the statements in order against `env`, appending what `print`
/// writes to `out`; stops at the first error.
pub fn interpret(exprs: &Vec<Expr>, env: &mut Env, out: &mut Vec<i32>) -> (r: Result<(), RuntimeError>)
    requires
        old(env).wf(),
    ensures
        final(env).wf(),
        (r, final(env)@, final(out)@) == run(exprs@, old(env)@, old(out)@),
{
    let mut i: usize = 0;
    assert(exprs@.subrange(0, exprs@.len() as int) =~= exprs@);
    while i < exprs.len()
        invariant
            i <= exprs@.len(),
            env.wf(),
            run(exprs@, old(env)@, old(out)@) == run(
                exprs@.subrange(i as int, exprs@.len() as int),
                env@,
                out@,
            ),
        decreases exprs@.len() - i,
    {
        let ghost rest = exprs@.subrange(i as int, exprs@.len() as int);
        assert(rest[0] == exprs@[i as int]);
        assert(rest.drop_first() =~= exprs@.subrange(i + 1, exprs@.len() as int));
        match evaluate(&exprs[i], env, out) {
            Ok(_) => {},
            Err(x) => return Err(x),
        }
        i = i + 1;
    }
    Ok(())
}

} // verus!
