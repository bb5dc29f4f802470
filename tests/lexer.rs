use wcal::lexer::{lex_bytes, lexer, LexError, Token};

#[test]
fn test_number() {
    let tokens = lexer("12_3 0b0000_1111 0o00_13 0x00_1a 0x____").unwrap();
    assert_eq!(
        tokens,
        vec![
            Token::Number(123),
            Token::Number(15),
            Token::Number(11),
            Token::Number(26),
            Token::Number(0),
        ]
    );
}

#[test]
fn test_symbol() {
    let tokens = lexer("+- * / ()").unwrap();
    assert_eq!(
        tokens,
        vec![
            Token::Plus,
            Token::Minus,
            Token::Times,
            Token::Division,
            Token::LP,
            Token::RP,
        ]
    );
}

#[test]
fn test_overflow() {
    let err = lexer("123456789123456789123456789123456789").unwrap_err();
    match err {
        LexError::IntegerOverflow { start, end, .. } => {
            assert_eq!(start, 0);
            assert_eq!(end, 36);
        }
        other => panic!("unexpected error {:?}", other),
    }
}

#[test]
fn test_mismatch() {
    let err = lexer("0abc").unwrap_err();
    assert_eq!(
        err,
        LexError::InvalidCharacter { start: 1, end: 2, character: b'a' }
    );
}

#[test]
fn test_lexer() {
    let tokens = lexer("12*(0x_1A-0b01)+-0o12/0\n123").unwrap();
    assert_eq!(
        tokens,
        [
            Token::Number(12),
            Token::Times,
            Token::LP,
            Token::Number(26),
            Token::Minus,
            Token::Number(1),
            Token::RP,
            Token::Plus,
            Token::Minus,
            Token::Number(10),
            Token::Division,
            Token::Number(0)
        ]
    );
}

#[test]
fn test_lexer_error() {
    let res = lexer("123456789123456789123456789123456789");
    assert!(res.is_err());
    assert_eq!(
        res.unwrap_err(),
        LexError::IntegerOverflow {
            start: 0,
            end: 36,
            raw: b"123456789123456789123456789123456789".to_vec(),
            message: String::from("number too large to fit in target type"),
        }
    );

    let res = lexer("0+a");
    assert!(res.is_err());
    assert_eq!(
        res.unwrap_err(),
        LexError::InvalidCharacter { start: 2, end: 3, character: b'a' }
    );
}

#[test]
fn separators_do_not_change_values() {
    let pairs = [
        ("1_000", "1000"),
        ("0b1_0_1", "0b101"),
        ("0o_7_7", "0o77"),
        ("0xdead_BEEF", "0xdeadBEEF"),
        ("18_446_744_073_709_551_615", "18446744073709551615"),
    ];
    for (with, without) in pairs {
        assert_eq!(lexer(with).unwrap(), lexer(without).unwrap());
    }
    assert_eq!(lexer("1_000").unwrap(), vec![Token::Number(1000)]);
}

#[test]
fn largest_u64_literal_and_one_past_it() {
    assert_eq!(
        lexer("18446744073709551615").unwrap(),
        vec![Token::Number(u64::MAX)]
    );
    assert_eq!(
        lexer("0xffff_ffff_ffff_ffff").unwrap(),
        vec![Token::Number(u64::MAX)]
    );
    assert!(matches!(
        lexer("18446744073709551616"),
        Err(LexError::IntegerOverflow { start: 0, end: 20, .. })
    ));
    assert!(matches!(
        lexer("1+0x1_0000_0000_0000_0000"),
        Err(LexError::IntegerOverflow { start: 2, end: 25, .. })
    ));
}

#[test]
fn empty_prefixed_bodies_are_zero() {
    assert_eq!(lexer("0x").unwrap(), vec![Token::Number(0)]);
    assert_eq!(lexer("0b__").unwrap(), vec![Token::Number(0)]);
    assert_eq!(lexer("0o").unwrap(), vec![Token::Number(0)]);
}

#[test]
fn empty_and_blank_input_give_no_tokens() {
    assert_eq!(lexer("").unwrap(), vec![]);
    assert_eq!(lexer(" \t ").unwrap(), vec![]);
    assert_eq!(lexer("\n1+1").unwrap(), vec![]);
}

#[test]
fn form_feed_ends_the_scan() {
    assert_eq!(lexer("7\x0c?").unwrap(), vec![Token::Number(7)]);
}

#[test]
fn digit_past_the_radix_starts_a_new_literal() {
    assert_eq!(
        lexer("0b12").unwrap(),
        vec![Token::Number(1), Token::Number(2)]
    );
    assert_eq!(
        lexer("0o78").unwrap(),
        vec![Token::Number(7), Token::Number(8)]
    );
}

#[test]
fn invalid_byte_reports_its_offset() {
    assert_eq!(
        lex_bytes(b"1 % 2").unwrap_err(),
        LexError::InvalidCharacter { start: 2, end: 3, character: b'%' }
    );
    assert_eq!(
        lex_bytes(&[0x31, 0xc3, 0xa9]).unwrap_err(),
        LexError::InvalidCharacter { start: 1, end: 2, character: 0xc3 }
    );
}
