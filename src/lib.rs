//! A single-line integer calculator: a lexer, a precedence-climbing parser and
//! an evaluator with 32-bit wrapping arithmetic, each proved to compute what
//! the spec functions beside it describe.
use vstd::prelude::*;

pub mod ast;
pub mod calculator;
pub mod lexer;
pub mod parser;

use ast::AST;
use calculator::{eval, warning_if, EvalError, Evaluation};
use lexer::{lex_spec, LexError};
use parser::{parse_spec, ParseError};
use vstd::string::StringSliceAdditionalSpecFns;

verus! {

/// A result that can be computed from an expression tree.
pub trait FromAST: Sized {
    spec fn from_ast_spec(ast: AST) -> Result<Self, EvalError>;

    fn from_ast(ast: AST) -> (r: Result<Self, EvalError>)
        ensures
            r == Self::from_ast_spec(ast),
    ;
}

/// The evaluation that `eval` describes, as a value.
pub open spec fn evaluation_of(e: ast::Expr) -> Result<Evaluation, EvalError> {
    match eval(e) {
        Ok((v, w)) => Ok(Evaluation { value: v, warning: warning_if(w) }),
        Err(err) => Err(err),
    }
}

impl FromAST for Evaluation {
    open spec fn from_ast_spec(ast: AST) -> Result<Evaluation, EvalError> {
        evaluation_of(ast.root)
    }

    fn from_ast(ast: AST) -> (r: Result<Evaluation, EvalError>) {
        calculator::calculate(ast)
    }
}

impl FromAST for i32 {
    open spec fn from_ast_spec(ast: AST) -> Result<i32, EvalError> {
        match eval(ast.root) {
            Ok((v, _)) => Ok(v),
            Err(err) => Err(err),
        }
    }

    fn from_ast(ast: AST) -> (r: Result<i32, EvalError>) {
        match calculator::calculate(ast) {
            Ok(ev) => Ok(ev.value),
            Err(err) => Err(err),
        }
    }
}

/// The first failure of a calculation, from whichever stage it came.
#[derive(Debug, PartialEq, Eq)]
pub enum CalcError {
    Lex(LexError),
    Parse(ParseError),
    Eval(EvalError),
}

/// `r` is the outcome of lexing, parsing and evaluating the text `s`.
pub open spec fn calculated(s: Seq<u8>, r: Result<Evaluation, CalcError>) -> bool {
    match lex_spec(s) {
        Err(f) => match r {
            Err(CalcError::Lex(e)) => e.reports(s, f),
            _ => false,
        },
        Ok(tokens) => match parse_spec(tokens) {
            Err(pe) => r == Err::<Evaluation, CalcError>(CalcError::Parse(pe)),
            Ok(e) => match evaluation_of(e) {
                Ok(ev) => r == Ok::<Evaluation, CalcError>(ev),
                Err(ee) => r == Err::<Evaluation, CalcError>(CalcError::Eval(ee)),
            },
        },
    }
}

/// Lexes, parses and evaluates one line of text.
pub fn calculate(expr: &str) -> (r: Result<Evaluation, CalcError>)
    ensures
        calculated(expr.spec_bytes(), r),
{
    let tokens = match lexer::lexer(expr) {
        Ok(tokens) => tokens,
        Err(e) => {
            return Err(CalcError::Lex(e));
        },
    };
    let ast = match parser::parse(tokens) {
        Ok(ast) => ast,
        Err(e) => {
            return Err(CalcError::Parse(e));
        },
    };
    match Evaluation::from_ast(ast) {
        Ok(ev) => Ok(ev),
        Err(e) => Err(CalcError::Eval(e)),
    }
}

} // verus!
