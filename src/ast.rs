//! Abstract syntax tree of an arithmetic expression.
//!
//! ```text
//! Expr      -> Operation | Neg | Pair | Number
//! Operation -> expr + expr | expr - expr | expr * expr | expr / expr
//! Neg       -> - expr
//! Pair      -> ( expr )
//! Number    -> number
//! ```
use vstd::prelude::*;

verus! {

/// The four binary operators. An `Operation` can hold no other token.
#[derive(Debug, PartialEq, Eq, Clone, Copy)]
pub enum BinOp {
    Plus,
    Minus,
    Times,
    Division,
}

/// `expr`
#[derive(Debug, PartialEq, Eq)]
pub enum Expr {
    Pair(Pair),
    Operation(Operation),
    Neg(Neg),
    Num(Number),
}

/// `( expr )`, kept as a node of its own so that the tree shows the source's parentheses.
#[derive(Debug, PartialEq, Eq)]
pub struct Pair {
    pub expr: Box<Expr>,
}

impl Pair {
    pub fn new(expr: Expr) -> (r: Expr)
        ensures
            r == Expr::Pair(Pair { expr: Box::new(expr) }),
    {
        Expr::Pair(Pair { expr: Box::new(expr) })
    }
}

/// `lhs op rhs`
#[derive(Debug, PartialEq, Eq)]
pub struct Operation {
    pub lhs: Box<Expr>,
    pub rhs: Box<Expr>,
    pub op: BinOp,
}

impl Operation {
    pub fn new(lhs: Expr, rhs: Expr, op: BinOp) -> (r: Expr)
        ensures
            r == Expr::Operation(Operation { lhs: Box::new(lhs), rhs: Box::new(rhs), op }),
    {
        Expr::Operation(Operation { lhs: Box::new(lhs), rhs: Box::new(rhs), op })
    }
}

/// `- expr`
#[derive(Debug, PartialEq, Eq)]
pub struct Neg {
    pub expr: Box<Expr>,
}

impl Neg {
    pub fn new(expr: Expr) -> (r: Expr)
        ensures
            r == Expr::Neg(Neg { expr: Box::new(expr) }),
    {
        Expr::Neg(Neg { expr: Box::new(expr) })
    }
}

/// A number literal, stored as `u64`.
#[derive(Debug, PartialEq, Eq)]
pub struct Number {
    pub num: u64,
}

impl Number {
    pub fn new(num: u64) -> (r: Expr)
        ensures
            r == Expr::Num(Number { num }),
    {
        Expr::Num(Number { num })
    }
}

/// A parsed expression.
#[derive(Debug, PartialEq, Eq)]
pub struct AST {
    pub root: Expr,
}

} // verus!
