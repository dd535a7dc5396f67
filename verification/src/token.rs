//! Lexical tokens.
use crate::qual_type::{rc_str_eq, RcString};
use vstd::prelude::*;

verus! {

#[derive(Debug)]
pub enum Token {
    Eof,
    Int(RcString),
    Bool(bool),
    Str(RcString),
    Ident(RcString),
    Let,
    Fn,
    Struct,
    Global,
    While,
    Continue,
    Break,
    If,
    Else,
    Return,
    LParen,
    RParen,
    LCurly,
    RCurly,
    LBrack,
    RBrack,
    Comma,
    Dot,
    Colon,
    Semi,
    RArrow,
    Plus,
    Minus,
    Star,
    Slash,
    Percent,
    And,
    Or,
    Caret,
    Bang,
    Eq,
    AndAnd,
    OrOr,
    At,
    EqEq,
    BangEq,
    Lt,
    Gt,
    LtEq,
    GtEq,
    Sizeof,
}

/// The mathematical value of a token: string payloads become character sequences.
pub enum TokenV {
    Eof,
    Int(Seq<char>),
    Bool(bool),
    Str(Seq<char>),
    Ident(Seq<char>),
    Let,
    Fn,
    Struct,
    Global,
    While,
    Continue,
    Break,
    If,
    Else,
    Return,
    LParen,
    RParen,
    LCurly,
    RCurly,
    LBrack,
    RBrack,
    Comma,
    Dot,
    Colon,
    Semi,
    RArrow,
    Plus,
    Minus,
    Star,
    Slash,
    Percent,
    And,
    Or,
    Caret,
    Bang,
    Eq,
    AndAnd,
    OrOr,
    At,
    EqEq,
    BangEq,
    Lt,
    Gt,
    LtEq,
    GtEq,
    Sizeof,
}

impl View for Token {
    type V = TokenV;

    open spec fn view(&self) -> TokenV {
        match self {
            Token::Int(s) => TokenV::Int((**s)@),
            Token::Bool(b) => TokenV::Bool(*b),
            Token::Str(s) => TokenV::Str((**s)@),
            Token::Ident(s) => TokenV::Ident((**s)@),
            Token::Eof => TokenV::Eof,
            Token::Let => TokenV::Let,
            Token::Fn => TokenV::Fn,
            Token::Struct => TokenV::Struct,
            Token::Global => TokenV::Global,
            Token::While => TokenV::While,
            Token::Continue => TokenV::Continue,
            Token::Break => TokenV::Break,
            Token::If => TokenV::If,
            Token::Else => TokenV::Else,
            Token::Return => TokenV::Return,
            Token::LParen => TokenV::LParen,
            Token::RParen => TokenV::RParen,
            Token::LCurly => TokenV::LCurly,
            Token::RCurly => TokenV::RCurly,
            Token::LBrack => TokenV::LBrack,
            Token::RBrack => TokenV::RBrack,
            Token::Comma => TokenV::Comma,
            Token::Dot => TokenV::Dot,
            Token::Colon => TokenV::Colon,
            Token::Semi => TokenV::Semi,
            Token::RArrow => TokenV::RArrow,
            Token::Plus => TokenV::Plus,
            Token::Minus => TokenV::Minus,
            Token::Star => TokenV::Star,
            Token::Slash => TokenV::Slash,
            Token::Percent => TokenV::Percent,
            Token::And => TokenV::And,
            Token::Or => TokenV::Or,
            Token::Caret => TokenV::Caret,
            Token::Bang => TokenV::Bang,
            Token::Eq => TokenV::Eq,
            Token::AndAnd => TokenV::AndAnd,
            Token::OrOr => TokenV::OrOr,
            Token::At => TokenV::At,
            Token::EqEq => TokenV::EqEq,
            Token::BangEq => TokenV::BangEq,
            Token::Lt => TokenV::Lt,
            Token::Gt => TokenV::Gt,
            Token::LtEq => TokenV::LtEq,
            Token::GtEq => TokenV::GtEq,
            Token::Sizeof => TokenV::Sizeof,
        }
    }
}

impl Token {
    /// Equality by value.
    pub fn same(&self, other: &Token) -> (r: bool)
        ensures
            r == (self@ == other@),
    {
        match (self, other) {
            (Token::Int(a), Token::Int(b)) => rc_str_eq(a, b),
            (Token::Str(a), Token::Str(b)) => rc_str_eq(a, b),
            (Token::Ident(a), Token::Ident(b)) => rc_str_eq(a, b),
            (Token::Bool(a), Token::Bool(b)) => *a == *b,
            (Token::Eof, Token::Eof) => true,
            (Token::Let, Token::Let) => true,
            (Token::Fn, Token::Fn) => true,
            (Token::Struct, Token::Struct) => true,
            (Token::Global, Token::Global) => true,
            (Token::While, Token::While) => true,
            (Token::Continue, Token::Continue) => true,
            (Token::Break, Token::Break) => true,
            (Token::If, Token::If) => true,
            (Token::Else, Token::Else) => true,
            (Token::Return, Token::Return) => true,
            (Token::LParen, Token::LParen) => true,
            (Token::RParen, Token::RParen) => true,
            (Token::LCurly, Token::LCurly) => true,
            (Token::RCurly, Token::RCurly) => true,
            (Token::LBrack, Token::LBrack) => true,
            (Token::RBrack, Token::RBrack) => true,
            (Token::Comma, Token::Comma) => true,
            (Token::Dot, Token::Dot) => true,
            (Token::Colon, Token::Colon) => true,
            (Token::Semi, Token::Semi) => true,
            (Token::RArrow, Token::RArrow) => true,
            (Token::Plus, Token::Plus) => true,
            (Token::Minus, Token::Minus) => true,
            (Token::Star, Token::Star) => true,
            (Token::Slash, Token::Slash) => true,
            (Token::Percent, Token::Percent) => true,
            (Token::And, Token::And) => true,
            (Token::Or, Token::Or) => true,
            (Token::Caret, Token::Caret) => true,
            (Token::Bang, Token::Bang) => true,
            (Token::Eq, Token::Eq) => true,
            (Token::AndAnd, Token::AndAnd) => true,
            (Token::OrOr, Token::OrOr) => true,
            (Token::At, Token::At) => true,
            (Token::EqEq, Token::EqEq) => true,
            (Token::BangEq, Token::BangEq) => true,
            (Token::Lt, Token::Lt) => true,
            (Token::Gt, Token::Gt) => true,
            (Token::LtEq, Token::LtEq) => true,
            (Token::GtEq, Token::GtEq) => true,
            (Token::Sizeof, Token::Sizeof) => true,
            _ => false,
        }
    }

    /// A copy that shares the string payload.
    pub fn copy(&self) -> (r: Token)
        ensures
            r@ == self@,
    {
        match self {
            Token::Int(s) => Token::Int(crate::interner::rc_share(s)),
            Token::Str(s) => Token::Str(crate::interner::rc_share(s)),
            Token::Ident(s) => Token::Ident(crate::interner::rc_share(s)),
            Token::Bool(b) => Token::Bool(*b),
            Token::Eof => Token::Eof,
            Token::Let => Token::Let,
            Token::Fn => Token::Fn,
            Token::Struct => Token::Struct,
            Token::Global => Token::Global,
            Token::While => Token::While,
            Token::Continue => Token::Continue,
            Token::Break => Token::Break,
            Token::If => Token::If,
            Token::Else => Token::Else,
            Token::Return => Token::Return,
            Token::LParen => Token::LParen,
            Token::RParen => Token::RParen,
            Token::LCurly => Token::LCurly,
            Token::RCurly => Token::RCurly,
            Token::LBrack => Token::LBrack,
            Token::RBrack => Token::RBrack,
            Token::Comma => Token::Comma,
            Token::Dot => Token::Dot,
            Token::Colon => Token::Colon,
            Token::Semi => Token::Semi,
            Token::RArrow => Token::RArrow,
            Token::Plus => Token::Plus,
            Token::Minus => Token::Minus,
            Token::Star => Token::Star,
            Token::Slash => Token::Slash,
            Token::Percent => Token::Percent,
            Token::And => Token::And,
            Token::Or => Token::Or,
            Token::Caret => Token::Caret,
            Token::Bang => Token::Bang,
            Token::Eq => Token::Eq,
            Token::AndAnd => Token::AndAnd,
            Token::OrOr => Token::OrOr,
            Token::At => Token::At,
            Token::EqEq => Token::EqEq,
            Token::BangEq => Token::BangEq,
            Token::Lt => Token::Lt,
            Token::Gt => Token::Gt,
            Token::LtEq => Token::LtEq,
            Token::GtEq => Token::GtEq,
            Token::Sizeof => Token::Sizeof,
        }
    }
}

} // verus!
