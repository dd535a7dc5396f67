use stang::lexer::{LexError, Lexer};
use stang::token::Token;

fn lexer(src: &str) -> Lexer {
    Lexer::new("t.st", src.as_bytes().to_vec())
}

#[test]
fn lexes_keywords_and_identifiers() {
    let mut lx = lexer("fn main let x while");
    assert!(matches!(lx.eat().unwrap().inner, Token::Fn));
    match lx.eat().unwrap().inner {
        Token::Ident(s) => assert_eq!(s.as_str(), "main"),
        _ => panic!("expected an identifier"),
    }
    assert!(matches!(lx.eat().unwrap().inner, Token::Let));
    assert!(matches!(lx.eat().unwrap().inner, Token::Ident(_)));
    assert!(matches!(lx.eat().unwrap().inner, Token::While));
    assert!(matches!(lx.eat().unwrap().inner, Token::Eof));
    assert!(matches!(lx.eat().unwrap().inner, Token::Eof));
}

#[test]
fn lexes_booleans_numbers_and_sizeof() {
    let mut lx = lexer("true false 1234 sizeof");
    assert!(matches!(lx.eat().unwrap().inner, Token::Bool(true)));
    assert!(matches!(lx.eat().unwrap().inner, Token::Bool(false)));
    match lx.eat().unwrap().inner {
        Token::Int(s) => assert_eq!(s.as_str(), "1234"),
        _ => panic!("expected a number"),
    }
    assert!(matches!(lx.eat().unwrap().inner, Token::Sizeof));
}

#[test]
fn lexes_two_character_punctuation() {
    let mut lx = lexer("== != <= >= && || -> = < >");
    for expected in [
        "EqEq", "BangEq", "LtEq", "GtEq", "AndAnd", "OrOr", "RArrow", "Eq", "Lt", "Gt",
    ] {
        let t = lx.eat().unwrap();
        assert_eq!(format!("{:?}", t.inner), expected);
    }
}

#[test]
fn lexes_string_literals() {
    let mut lx = lexer("\"hello world\" x");
    match lx.eat().unwrap().inner {
        Token::Str(s) => assert_eq!(s.as_str(), "hello world"),
        _ => panic!("expected a string"),
    }
    assert!(matches!(lx.eat().unwrap().inner, Token::Ident(_)));
}

#[test]
fn unclosed_string_is_an_error() {
    let mut lx = lexer("\"abc");
    assert!(matches!(lx.eat(), Err(LexError::UnclosedQuote)));
}

#[test]
fn spans_record_position() {
    let mut lx = lexer("  ab\n cd");
    let a = lx.eat().unwrap();
    assert_eq!((a.span.lo, a.span.hi), (2, 4));
    let c = lx.eat().unwrap();
    assert_eq!((c.span.lo, c.span.hi), (6, 8));
    assert_eq!(c.span.row, 1);
    assert_eq!(lx.last_span().lo, 6);
}

#[test]
fn peek_does_not_consume() {
    let mut lx = lexer("x y");
    let p = lx.peek().unwrap();
    let e = lx.eat().unwrap();
    assert_eq!(p.span.lo, e.span.lo);
    match e.inner {
        Token::Ident(s) => assert_eq!(s.as_str(), "x"),
        _ => panic!("expected x"),
    }
}

#[test]
fn expect_and_is_next() {
    let mut lx = lexer("( x");
    assert!(lx.is_next(Token::LParen).unwrap());
    lx.expect(Token::LParen).unwrap();
    assert!(!lx.is_next(Token::RParen).unwrap());
    let name = lx.expect_ident().unwrap();
    assert_eq!(name.inner.as_str(), "x");
    assert!(lx.expect(Token::Semi).is_err());
}
