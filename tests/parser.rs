use wcal::ast::{BinOp, Neg, Number, Operation, Pair, AST};
use wcal::lexer::{self, Token};
use wcal::parser::{parse, Expected, ParseError};

#[test]
fn parser_test_add() {
    let tokens = lexer::lexer("12+3").unwrap();
    let ast = parse(tokens).unwrap();
    assert_eq!(
        ast,
        AST {
            root: Operation::new(Number::new(12), Number::new(3), BinOp::Plus)
        }
    );
}

#[test]
fn test_sub() {
    let tokens = lexer::lexer("12-3").unwrap();
    let ast = parse(tokens).unwrap();
    assert_eq!(
        ast,
        AST {
            root: Operation::new(Number::new(12), Number::new(3), BinOp::Minus)
        }
    );
}

#[test]
fn parser_test_times() {
    let tokens = lexer::lexer("12*3").unwrap();
    let ast = parse(tokens).unwrap();
    assert_eq!(
        ast,
        AST {
            root: Operation::new(Number::new(12), Number::new(3), BinOp::Times)
        }
    );
}

#[test]
fn test_div() {
    let tokens = lexer::lexer("12/3").unwrap();
    let ast = parse(tokens).unwrap();
    assert_eq!(
        ast,
        AST {
            root: Operation::new(Number::new(12), Number::new(3), BinOp::Division)
        }
    );
}

#[test]
fn parser_test_num() {
    let tokens = lexer::lexer("12").unwrap();
    let ast = parse(tokens).unwrap();
    assert_eq!(
        ast,
        AST {
            root: Number::new(12)
        }
    );

    let tokens = lexer::lexer("-12").unwrap();
    let ast = parse(tokens).unwrap();
    assert_eq!(
        ast,
        AST {
            root: Neg::new(Number::new(12))
        }
    );
}

#[test]
fn parser_test_pair() {
    let tokens = lexer::lexer("((12))").unwrap();
    let ast = parse(tokens).unwrap();
    assert_eq!(
        ast,
        AST {
            root: Pair::new(Pair::new(Number::new(12)))
        }
    );
}

#[test]
fn test_expect_num() {
    let tokens = lexer::lexer("1+").unwrap();
    let err = parse(tokens).err().unwrap();
    assert_eq!(err, ParseError::UnexpectedEnd { expected: Expected::Number });

    let tokens = lexer::lexer("+").unwrap();
    let err = parse(tokens).err().unwrap();
    assert_eq!(
        err,
        ParseError::UnexpectedToken { expected: Expected::Number, found: Token::Plus }
    );

    let tokens = lexer::lexer("(").unwrap();
    let err = parse(tokens).err().unwrap();
    assert_eq!(err, ParseError::UnexpectedEnd { expected: Expected::Number });
}

#[test]
fn test_pair_error() {
    let tokens = lexer::lexer("(((2))").unwrap();
    let err = parse(tokens).err().unwrap();
    assert_eq!(err, ParseError::UnexpectedEnd { expected: Expected::RightParen });

    let tokens = lexer::lexer("(2)(1)").unwrap();
    let err = parse(tokens).err().unwrap();
    assert_eq!(err, ParseError::TrailingInput);

    let tokens = lexer::lexer("(())").unwrap();
    let err = parse(tokens).err().unwrap();
    assert_eq!(
        err,
        ParseError::UnexpectedToken { expected: Expected::Number, found: Token::RP }
    );
}

#[test]
fn test_priority() {
    let tokens = lexer::lexer("1+3*6").unwrap();
    let ast = parse(tokens).unwrap();
    assert_eq!(
        ast,
        AST {
            root: Operation::new(
                Number::new(1),
                Operation::new(Number::new(3), Number::new(6), BinOp::Times),
                BinOp::Plus
            )
        }
    );

    let tokens = lexer::lexer("6/(2-3)").unwrap();
    let ast = parse(tokens).unwrap();
    assert_eq!(
        ast,
        AST {
            root: Operation::new(
                Number::new(6),
                Pair::new(Operation::new(
                    Number::new(2),
                    Number::new(3),
                    BinOp::Minus
                )),
                BinOp::Division
            )
        }
    );
}

#[test]
fn parser_test_neg() {
    let tokens = lexer::lexer("-7--2").unwrap();
    let ast = parse(tokens).unwrap();
    assert_eq!(
        ast,
        AST {
            root: Operation::new(
                Neg::new(Number::new(7)),
                Neg::new(Number::new(2)),
                BinOp::Minus
            )
        }
    );

    let tokens = lexer::lexer("---7").unwrap();
    let ast = parse(tokens).unwrap();
    assert_eq!(
        ast,
        AST {
            root: Neg::new(Neg::new(Neg::new(Number::new(7))))
        }
    );

    let tokens = lexer::lexer("-(1+2)").unwrap();
    let ast = parse(tokens).unwrap();
    assert_eq!(
        ast,
        AST {
            root: Neg::new(Pair::new(Operation::new(
                Number::new(1),
                Number::new(2),
                BinOp::Plus
            )))
        }
    );
}

#[test]
fn binary_operators_fold_to_the_left() {
    let ast = parse(lexer::lexer("8-4-2").unwrap()).unwrap();
    assert_eq!(
        ast.root,
        Operation::new(
            Operation::new(Number::new(8), Number::new(4), BinOp::Minus),
            Number::new(2),
            BinOp::Minus
        )
    );
    let ast = parse(lexer::lexer("8/4*2").unwrap()).unwrap();
    assert_eq!(
        ast.root,
        Operation::new(
            Operation::new(Number::new(8), Number::new(4), BinOp::Division),
            Number::new(2),
            BinOp::Times
        )
    );
}

#[test]
fn empty_token_sequence_is_an_unexpected_end() {
    assert_eq!(
        parse(vec![]),
        Err(ParseError::UnexpectedEnd { expected: Expected::Number })
    );
}

#[test]
fn unclosed_group_reports_the_token_found() {
    let tokens = vec![Token::LP, Token::Number(1), Token::Number(2)];
    assert_eq!(
        parse(tokens),
        Err(ParseError::UnexpectedToken { expected: Expected::RightParen, found: Token::Number(2) })
    );
}

#[test]
fn malformed_sequences_give_errors_not_panics() {
    let samples: Vec<Vec<Token>> = vec![
        vec![Token::RP],
        vec![Token::Times, Token::Number(1)],
        vec![Token::Number(1), Token::Number(2)],
        vec![Token::Minus],
        vec![Token::LP, Token::LP, Token::RP, Token::RP],
        vec![Token::NewLine],
        vec![Token::Number(1), Token::Division],
    ];
    for tokens in samples {
        assert!(parse(tokens).is_err());
    }
}
