//! Recursive-descent parser: tokens to an expression tree.
//!
//! ```text
//! expr   := term (('+' | '-') term)*
//! term   := factor (('*' | '/') factor)*
//! factor := NUMBER | '(' expr ')' | '-' factor
//! ```
//! Both binary levels are left-associative; unary minus binds tighter than any
//! binary operator.
use crate::ast::{BinOp, Expr, Neg, Number, Operation, Pair, AST};
use crate::lexer::Token;
use vstd::prelude::*;

verus! {

/// What the parser needed where it failed.
#[derive(Debug, PartialEq, Eq, Clone, Copy)]
pub enum Expected {
    /// The start of a factor: a number, `(` or `-`.
    Number,
    /// The `)` that closes a group.
    RightParen,
}

/// Why a token sequence is not an expression.
#[derive(Debug, PartialEq, Eq, Clone, Copy)]
pub enum ParseError {
    /// A token stands where `expected` was needed.
    UnexpectedToken { expected: Expected, found: Token },
    /// The tokens ran out where `expected` was needed.
    UnexpectedEnd { expected: Expected },
    /// An expression was read but tokens remain after it.
    TrailingInput,
}

pub open spec fn additive_op(t: Token) -> Option<BinOp> {
    match t {
        Token::Plus => Some(BinOp::Plus),
        Token::Minus => Some(BinOp::Minus),
        _ => None,
    }
}

pub open spec fn multiplicative_op(t: Token) -> Option<BinOp> {
    match t {
        Token::Times => Some(BinOp::Times),
        Token::Division => Some(BinOp::Division),
        _ => None,
    }
}

pub open spec fn operation(lhs: Expr, rhs: Expr, op: BinOp) -> Expr {
    Expr::Operation(Operation { lhs: Box::new(lhs), rhs: Box::new(rhs), op })
}

/// `j` lies past `i` and within the tokens. Every parse that succeeds consumes
/// a token, so this holds wherever the grammar below tests it (see
/// `lemma_expr_advances`); the tests only let the definitions terminate.
pub open spec fn advanced(t: Seq<Token>, i: int, j: int) -> bool {
    i < j <= t.len()
}

/// `expr` read from position `i`: the tree and the position after it.
pub open spec fn parse_expr(t: Seq<Token>, i: int) -> Result<(Expr, int), ParseError>
    decreases t.len() - i, 3int,
{
    match parse_term(t, i) {
        Ok((lhs, j)) => if advanced(t, i, j) {
            parse_expr_tail(t, lhs, j)
        } else {
            Ok((lhs, j))
        },
        Err(e) => Err(e),
    }
}

/// The `(('+' | '-') term)*` that follows `lhs`, folded to the left.
pub open spec fn parse_expr_tail(t: Seq<Token>, lhs: Expr, i: int) -> Result<(Expr, int), ParseError>
    decreases t.len() - i, 0int,
{
    if 0 <= i < t.len() && additive_op(t[i]) is Some {
        match parse_term(t, i + 1) {
            Ok((rhs, j)) => {
                let e = operation(lhs, rhs, additive_op(t[i])->0);
                if advanced(t, i, j) {
                    parse_expr_tail(t, e, j)
                } else {
                    Ok((e, j))
                }
            },
            Err(e) => Err(e),
        }
    } else {
        Ok((lhs, i))
    }
}

/// `term` read from position `i`.
pub open spec fn parse_term(t: Seq<Token>, i: int) -> Result<(Expr, int), ParseError>
    decreases t.len() - i, 2int,
{
    match parse_factor(t, i) {
        Ok((lhs, j)) => if advanced(t, i, j) {
            parse_term_tail(t, lhs, j)
        } else {
            Ok((lhs, j))
        },
        Err(e) => Err(e),
    }
}

/// The `(('*' | '/') factor)*` that follows `lhs`, folded to the left.
pub open spec fn parse_term_tail(t: Seq<Token>, lhs: Expr, i: int) -> Result<(Expr, int), ParseError>
    decreases t.len() - i, 0int,
{
    if 0 <= i < t.len() && multiplicative_op(t[i]) is Some {
        match parse_factor(t, i + 1) {
            Ok((rhs, j)) => {
                let e = operation(lhs, rhs, multiplicative_op(t[i])->0);
                if advanced(t, i, j) {
                    parse_term_tail(t, e, j)
                } else {
                    Ok((e, j))
                }
            },
            Err(e) => Err(e),
        }
    } else {
        Ok((lhs, i))
    }
}

/// `factor` read from position `i`.
pub open spec fn parse_factor(t: Seq<Token>, i: int) -> Result<(Expr, int), ParseError>
    decreases t.len() - i, 1int,
{
    if i < 0 || i >= t.len() {
        Err(ParseError::UnexpectedEnd { expected: Expected::Number })
    } else {
        match t[i] {
            Token::Number(n) => Ok((Expr::Num(Number { num: n }), i + 1)),
            Token::Minus => match parse_factor(t, i + 1) {
                Ok((e, j)) => Ok((Expr::Neg(Neg { expr: Box::new(e) }), j)),
                Err(e) => Err(e),
            },
            Token::LP => match parse_expr(t, i + 1) {
                Ok((e, j)) => if j < 0 || j >= t.len() {
                    Err(ParseError::UnexpectedEnd { expected: Expected::RightParen })
                } else if t[j] == Token::RP {
                    Ok((Expr::Pair(Pair { expr: Box::new(e) }), j + 1))
                } else {
                    Err(ParseError::UnexpectedToken { expected: Expected::RightParen, found: t[j] })
                },
                Err(e) => Err(e),
            },
            found => Err(ParseError::UnexpectedToken { expected: Expected::Number, found }),
        }
    }
}

/// The tree of a whole token sequence.
pub open spec fn parse_spec(t: Seq<Token>) -> Result<Expr, ParseError> {
    match parse_expr(t, 0) {
        Ok((e, j)) => if j == t.len() {
            Ok(e)
        } else {
            Err(ParseError::TrailingInput)
        },
        Err(e) => Err(e),
    }
}

/// A parse that succeeds from `i` ends past `i` and within the tokens: the
/// `advanced` tests in the grammar never fail.
pub proof fn lemma_expr_advances(t: Seq<Token>, i: int)
    requires
        0 <= i <= t.len(),
    ensures
        parse_expr(t, i) matches Ok((_, j)) ==> advanced(t, i, j),
    decreases t.len() - i, 3int,
{
    lemma_term_advances(t, i);
    if let Ok((lhs, j)) = parse_term(t, i) {
        lemma_expr_tail_stays(t, lhs, j);
    }
}

proof fn lemma_expr_tail_stays(t: Seq<Token>, lhs: Expr, i: int)
    requires
        0 <= i <= t.len(),
    ensures
        parse_expr_tail(t, lhs, i) matches Ok((_, j)) ==> i <= j <= t.len(),
    decreases t.len() - i, 0int,
{
    if 0 <= i < t.len() && additive_op(t[i]) is Some {
        lemma_term_advances(t, i + 1);
        if let Ok((rhs, j)) = parse_term(t, i + 1) {
            lemma_expr_tail_stays(t, operation(lhs, rhs, additive_op(t[i])->0), j);
        }
    }
}

proof fn lemma_term_advances(t: Seq<Token>, i: int)
    requires
        0 <= i <= t.len(),
    ensures
        parse_term(t, i) matches Ok((_, j)) ==> advanced(t, i, j),
    decreases t.len() - i, 2int,
{
    lemma_factor_advances(t, i);
    if let Ok((lhs, j)) = parse_factor(t, i) {
        lemma_term_tail_stays(t, lhs, j);
    }
}

proof fn lemma_term_tail_stays(t: Seq<Token>, lhs: Expr, i: int)
    requires
        0 <= i <= t.len(),
    ensures
        parse_term_tail(t, lhs, i) matches Ok((_, j)) ==> i <= j <= t.len(),
    decreases t.len() - i, 0int,
{
    if 0 <= i < t.len() && multiplicative_op(t[i]) is Some {
        lemma_factor_advances(t, i + 1);
        if let Ok((rhs, j)) = parse_factor(t, i + 1) {
            lemma_term_tail_stays(t, operation(lhs, rhs, multiplicative_op(t[i])->0), j);
        }
    }
}

proof fn lemma_factor_advances(t: Seq<Token>, i: int)
    requires
        0 <= i <= t.len(),
    ensures
        parse_factor(t, i) matches Ok((_, j)) ==> advanced(t, i, j),
    decreases t.len() - i, 1int,
{
    if i < t.len() {
        match t[i] {
            Token::Minus => lemma_factor_advances(t, i + 1),
            Token::LP => lemma_expr_advances(t, i + 1),
            _ => {},
        }
    }
}

/// The exec result `r` of a parse from `i` is `s`, and a tree consumed at least a token.
pub open spec fn agrees(
    t: Seq<Token>,
    i: int,
    r: Result<(Expr, usize), ParseError>,
    s: Result<(Expr, int), ParseError>,
) -> bool {
    match r {
        Ok((e, j)) => s == Ok::<(Expr, int), ParseError>((e, j as int)) && advanced(t, i, j as int),
        Err(err) => s == Err::<(Expr, int), ParseError>(err),
    }
}

/// The same for a tail, which may consume nothing.
pub open spec fn agrees_tail(
    t: Seq<Token>,
    i: int,
    r: Result<(Expr, usize), ParseError>,
    s: Result<(Expr, int), ParseError>,
) -> bool {
    match r {
        Ok((e, j)) => s == Ok::<(Expr, int), ParseError>((e, j as int)) && i <= j <= t.len(),
        Err(err) => s == Err::<(Expr, int), ParseError>(err),
    }
}

fn expr(t: &Vec<Token>, i: usize) -> (r: Result<(Expr, usize), ParseError>)
    requires
        i <= t@.len(),
    ensures
        agrees(t@, i as int, r, parse_expr(t@, i as int)),
    decreases t@.len() - i, 3int,
{
    match term(t, i) {
        Ok((lhs, j)) => expr_tail(t, lhs, j),
        Err(e) => Err(e),
    }
}

fn expr_tail(t: &Vec<Token>, lhs: Expr, i: usize) -> (r: Result<(Expr, usize), ParseError>)
    requires
        0 < i <= t@.len(),
    ensures
        agrees_tail(t@, i as int, r, parse_expr_tail(t@, lhs, i as int)),
    decreases t@.len() - i, 0int,
{
    if i >= t.len() {
        return Ok((lhs, i));
    }
    let op = match t[i] {
        Token::Plus => BinOp::Plus,
        Token::Minus => BinOp::Minus,
        _ => {
            return Ok((lhs, i));
        },
    };
    match term(t, i + 1) {
        Ok((rhs, j)) => expr_tail(t, Operation::new(lhs, rhs, op), j),
        Err(e) => Err(e),
    }
}

fn term(t: &Vec<Token>, i: usize) -> (r: Result<(Expr, usize), ParseError>)
    requires
        i <= t@.len(),
    ensures
        agrees(t@, i as int, r, parse_term(t@, i as int)),
    decreases t@.len() - i, 2int,
{
    match factor(t, i) {
        Ok((lhs, j)) => term_tail(t, lhs, j),
        Err(e) => Err(e),
    }
}

fn term_tail(t: &Vec<Token>, lhs: Expr, i: usize) -> (r: Result<(Expr, usize), ParseError>)
    requires
        0 < i <= t@.len(),
    ensures
        agrees_tail(t@, i as int, r, parse_term_tail(t@, lhs, i as int)),
    decreases t@.len() - i, 0int,
{
    if i >= t.len() {
        return Ok((lhs, i));
    }
    let op = match t[i] {
        Token::Times => BinOp::Times,
        Token::Division => BinOp::Division,
        _ => {
            return Ok((lhs, i));
        },
    };
    match factor(t, i + 1) {
        Ok((rhs, j)) => term_tail(t, Operation::new(lhs, rhs, op), j),
        Err(e) => Err(e),
    }
}

fn factor(t: &Vec<Token>, i: usize) -> (r: Result<(Expr, usize), ParseError>)
    requires
        i <= t@.len(),
    ensures
        agrees(t@, i as int, r, parse_factor(t@, i as int)),
    decreases t@.len() - i, 1int,
{
    if i >= t.len() {
        return Err(ParseError::UnexpectedEnd { expected: Expected::Number });
    }
    match t[i] {
        Token::Number(n) => Ok((Number::new(n), i + 1)),
        Token::Minus => match factor(t, i + 1) {
            Ok((e, j)) => Ok((Neg::new(e), j)),
            Err(e) => Err(e),
        },
        Token::LP => match expr(t, i + 1) {
            Ok((e, j)) => {
                if j >= t.len() {
                    Err(ParseError::UnexpectedEnd { expected: Expected::RightParen })
                } else {
                    match t[j] {
                        Token::RP => Ok((Pair::new(e), j + 1)),
                        found => Err(
                            ParseError::UnexpectedToken { expected: Expected::RightParen, found },
                        ),
                    }
                }
            },
            Err(e) => Err(e),
        },
        found => Err(ParseError::UnexpectedToken { expected: Expected::Number, found }),
    }
}

/// Parses a whole token sequence into a tree; every token must be consumed.
pub fn parse(tokens: Vec<Token>) -> (r: Result<AST, ParseError>)
    ensures
        match r {
            Ok(ast) => parse_spec(tokens@) == Ok::<Expr, ParseError>(ast.root),
            Err(e) => parse_spec(tokens@) == Err::<Expr, ParseError>(e),
        },
{
    match expr(&tokens, 0) {
        Ok((root, j)) => {
            if j == tokens.len() {
                Ok(AST { root })
            } else {
                Err(ParseError::TrailingInput)
            }
        },
        Err(e) => Err(e),
    }
}

} // verus!
