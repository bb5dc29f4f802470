//! Evaluation of an expression tree to an `i32`.
//!
//! Numbers are narrowed to their low 32 bits; `+`, `-`, `*` and negation wrap
//! around on overflow; `/` rounds toward zero. A division by zero fails the
//! whole evaluation; a division with a remainder raises a warning beside the
//! value.
use crate::ast::{BinOp, Expr, Neg, Number, Operation, Pair, AST};
use vstd::prelude::*;

verus! {

/// Why an expression has no value.
#[derive(Debug, PartialEq, Eq, Clone, Copy)]
pub enum EvalError {
    DivisionByZero,
}

/// A note on a value that was still computed.
#[derive(Debug, PartialEq, Eq, Clone, Copy)]
pub enum EvalWarning {
    /// Some division had a remainder, which was dropped.
    TruncatingDivision,
}

/// The value of an expression, with the warning that its evaluation raised.
#[derive(Debug, PartialEq, Eq, Clone, Copy)]
pub struct Evaluation {
    pub value: i32,
    pub warning: Option<EvalWarning>,
}

/// `x` reduced to the `i32` with the same low 32 bits.
pub open spec fn wrap_i32(x: int) -> i32 {
    let m = x % 0x1_0000_0000;
    if m >= 0x8000_0000 {
        (m - 0x1_0000_0000) as i32
    } else {
        m as i32
    }
}

pub open spec fn abs(x: int) -> int {
    if x < 0 {
        -x
    } else {
        x
    }
}

/// The quotient of `a` by `b`, rounded toward zero.
pub open spec fn trunc_div(a: int, b: int) -> int {
    if (a < 0) == (b < 0) {
        abs(a) / abs(b)
    } else {
        -(abs(a) / abs(b))
    }
}

/// The value of `a op b`, and whether a remainder was dropped.
pub open spec fn apply_op(op: BinOp, a: i32, b: i32) -> Result<(i32, bool), EvalError> {
    match op {
        BinOp::Plus => Ok((wrap_i32(a as int + b as int), false)),
        BinOp::Minus => Ok((wrap_i32(a as int - b as int), false)),
        BinOp::Times => Ok((wrap_i32(a as int * b as int), false)),
        BinOp::Division => if b == 0 {
            Err(EvalError::DivisionByZero)
        } else {
            Ok((wrap_i32(trunc_div(a as int, b as int)), abs(a as int) % abs(b as int) != 0))
        },
    }
}

/// The value of `e`, and whether some division in it dropped a remainder.
pub open spec fn eval(e: Expr) -> Result<(i32, bool), EvalError>
    decreases e,
{
    match e {
        Expr::Num(n) => Ok((wrap_i32(n.num as int), false)),
        Expr::Pair(p) => eval(*p.expr),
        Expr::Neg(n) => match eval(*n.expr) {
            Ok((v, w)) => Ok((wrap_i32(-(v as int)), w)),
            Err(err) => Err(err),
        },
        Expr::Operation(o) => match eval(*o.lhs) {
            Ok((a, wa)) => match eval(*o.rhs) {
                Ok((b, wb)) => match apply_op(o.op, a, b) {
                    Ok((v, w)) => Ok((v, wa || wb || w)),
                    Err(err) => Err(err),
                },
                Err(err) => Err(err),
            },
            Err(err) => Err(err),
        },
    }
}

pub open spec fn warning_if(truncated: bool) -> Option<EvalWarning> {
    if truncated {
        Some(EvalWarning::TruncatingDivision)
    } else {
        None
    }
}

/// `r` is the evaluation that `eval` gives for `e`.
pub open spec fn evaluates(e: Expr, r: Result<Evaluation, EvalError>) -> bool {
    match (r, eval(e)) {
        (Ok(ev), Ok((v, w))) => ev == Evaluation { value: v, warning: warning_if(w) },
        (Err(a), Err(b)) => a == b,
        _ => false,
    }
}

fn narrow_u64(v: u64) -> (r: i32)
    ensures
        r == wrap_i32(v as int),
{
    let m: u64 = v % 0x1_0000_0000;
    if m >= 0x8000_0000 {
        (m as i64 - 0x1_0000_0000i64) as i32
    } else {
        m as i32
    }
}

fn narrow_i64(x: i64) -> (r: i32)
    requires
        -0x4000_0000_0000_0000 <= x <= 0x4000_0000_0000_0000,
    ensures
        r == wrap_i32(x as int),
{
    let y: u64 = (x as i128 + 0x4000_0000_0000_0000i128) as u64;
    assert((y as int) % 0x1_0000_0000 == (x as int) % 0x1_0000_0000);
    narrow_u64(y)
}

fn apply(op: BinOp, a: i32, b: i32) -> (r: Result<(i32, bool), EvalError>)
    ensures
        r == apply_op(op, a, b),
{
    match op {
        BinOp::Plus => Ok((narrow_i64(a as i64 + b as i64), false)),
        BinOp::Minus => Ok((narrow_i64(a as i64 - b as i64), false)),
        BinOp::Times => {
            assert(-0x4000_0000_0000_0000 <= (a as int) * (b as int) <= 0x4000_0000_0000_0000)
                by (nonlinear_arith);
            Ok((narrow_i64(a as i64 * b as i64), false))
        },
        BinOp::Division => {
            if b == 0 {
                Err(EvalError::DivisionByZero)
            } else {
                let q: i64 = match a.checked_div(b) {
                    Some(q) => q as i64,
                    None => 0x8000_0000i64,
                };
                let truncated = match a.checked_rem(b) {
                    Some(rem) => rem != 0,
                    None => false,
                };
                assert(q == trunc_div(a as int, b as int));
                proof {
                    let (x, d) = (a as int, b as int);
                    if a == i32::MIN && b == -1 {
                        assert(abs(x) % abs(d) == 0);
                    } else {
                        assert(0 <= abs(x) % abs(d) < abs(d)) by (nonlinear_arith)
                            requires
                                d != 0,
                        ;
                    }
                }
                assert(truncated == (abs(a as int) % abs(b as int) != 0));
                Ok((narrow_i64(q), truncated))
            }
        },
    }
}

impl Expr {
    pub fn calculate(&self) -> (r: Result<Evaluation, EvalError>)
        ensures
            evaluates(*self, r),
        decreases self,
    {
        match self {
            Expr::Pair(pair) => pair.calculate(),
            Expr::Operation(operation) => operation.calculate(),
            Expr::Neg(neg) => neg.calculate(),
            Expr::Num(num) => Ok(num.calculate()),
        }
    }
}

impl Operation {
    pub fn calculate(&self) -> (r: Result<Evaluation, EvalError>)
        ensures
            evaluates(Expr::Operation(*self), r),
        decreases self,
    {
        let lval = match self.lhs.calculate() {
            Ok(ev) => ev,
            Err(e) => {
                return Err(e);
            },
        };
        let rval = match self.rhs.calculate() {
            Ok(ev) => ev,
            Err(e) => {
                return Err(e);
            },
        };
        match apply(self.op, lval.value, rval.value) {
            Ok((value, truncated)) => {
                let warning = if truncated || lval.warning.is_some() || rval.warning.is_some() {
                    Some(EvalWarning::TruncatingDivision)
                } else {
                    None
                };
                Ok(Evaluation { value, warning })
            },
            Err(e) => Err(e),
        }
    }
}

impl Number {
    pub fn calculate(&self) -> (r: Evaluation)
        ensures
            r == (Evaluation { value: wrap_i32(self.num as int), warning: None }),
    {
        Evaluation { value: narrow_u64(self.num), warning: None }
    }
}

impl Pair {
    pub fn calculate(&self) -> (r: Result<Evaluation, EvalError>)
        ensures
            evaluates(*self.expr, r),
        decreases self,
    {
        self.expr.calculate()
    }
}

impl Neg {
    pub fn calculate(&self) -> (r: Result<Evaluation, EvalError>)
        ensures
            evaluates(Expr::Neg(*self), r),
        decreases self,
    {
        match self.expr.calculate() {
            Ok(ev) => Ok(Evaluation { value: narrow_i64(0 - ev.value as i64), warning: ev.warning }),
            Err(e) => Err(e),
        }
    }
}

impl AST {
    pub fn calculate(&self) -> (r: Result<Evaluation, EvalError>)
        ensures
            evaluates(self.root, r),
    {
        self.root.calculate()
    }
}

/// Evaluates a parsed expression.
pub fn calculate(ast: AST) -> (r: Result<Evaluation, EvalError>)
    ensures
        evaluates(ast.root, r),
{
    ast.calculate()
}

} // verus!
