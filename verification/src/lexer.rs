//! The lexer: turns source bytes into tokens, one at a time.
use crate::error::CompileError;
use crate::interner::{interned, Pool};
use crate::qual_type::RcString;
use crate::span::{default_span, Span, Spanned, SpannedV};
use crate::token::{Token, TokenV};
use crate::text::string_from_utf8;
use vstd::prelude::*;
use vstd::utf8::{decode_utf8, valid_utf8};

verus! {

/// A position of the lexer: byte offset, row and column.
pub struct LexPos {
    pub cursor: nat,
    pub row: nat,
    pub col: nat,
}

pub open spec fn is_ws(b: u8) -> bool {
    b == 32 || b == 9 || b == 10 || b == 12 || b == 13
}

pub open spec fn is_alpha(b: u8) -> bool {
    (65 <= b <= 90) || (97 <= b <= 122)
}

pub open spec fn is_digit(b: u8) -> bool {
    48 <= b <= 57
}

pub open spec fn is_word_start(b: u8) -> bool {
    is_alpha(b) || b == 95
}

pub open spec fn is_word_byte(b: u8) -> bool {
    is_alpha(b) || is_digit(b) || b == 95
}

pub open spec fn is_num_byte(b: u8) -> bool {
    is_digit(b) || b == 95
}

/// ASCII punctuation, as `u8::is_ascii_punctuation` defines it.
pub open spec fn is_punct(b: u8) -> bool {
    (33 <= b <= 47) || (58 <= b <= 64) || (91 <= b <= 96) || (123 <= b <= 126)
}

/// The characters that ASCII bytes stand for.
pub open spec fn ascii_chars(w: Seq<u8>) -> Seq<char> {
    w.map_values(|b: u8| b as char)
}

/// The bytes of ASCII text.
pub open spec fn ascii_bytes(s: Seq<char>) -> Seq<u8> {
    s.map_values(|c: char| c as u8)
}

/// Every byte is ASCII.
pub open spec fn all_ascii(w: Seq<u8>) -> bool {
    forall|i: int| 0 <= i < w.len() ==> w[i] < 128
}

/// The position after consuming the byte at `p`: a newline starts a new row.
pub open spec fn adv(src: Seq<u8>, p: LexPos) -> LexPos {
    LexPos {
        cursor: p.cursor + 1,
        row: if src[p.cursor as int] == 10 { p.row + 1 } else { p.row },
        col: if src[p.cursor as int] == 10 { 0 } else { p.col + 1 },
    }
}

pub open spec fn skip_ws(src: Seq<u8>, p: LexPos) -> LexPos
    decreases src.len() - p.cursor,
{
    if p.cursor < src.len() && is_ws(src[p.cursor as int]) {
        skip_ws(src, adv(src, p))
    } else {
        p
    }
}

pub open spec fn scan_word(src: Seq<u8>, p: LexPos) -> LexPos
    decreases src.len() - p.cursor,
{
    if p.cursor < src.len() && is_word_byte(src[p.cursor as int]) {
        scan_word(src, adv(src, p))
    } else {
        p
    }
}

pub open spec fn scan_num(src: Seq<u8>, p: LexPos) -> LexPos
    decreases src.len() - p.cursor,
{
    if p.cursor < src.len() && is_num_byte(src[p.cursor as int]) {
        scan_num(src, adv(src, p))
    } else {
        p
    }
}

/// Scans the body of a string literal starting just after the opening quote; the position after
/// the closing quote, or `None` if the input ends first. A backslash escapes the byte after it.
pub open spec fn scan_str(src: Seq<u8>, p: LexPos) -> Option<LexPos>
    decreases src.len() - p.cursor,
{
    if p.cursor >= src.len() {
        None
    } else {
        let b = src[p.cursor as int];
        let q = adv(src, p);
        if b == 34 {
            Some(q)
        } else if b == 92 {
            if q.cursor >= src.len() {
                None
            } else {
                scan_str(src, adv(src, q))
            }
        } else {
            scan_str(src, q)
        }
    }
}

/// The digits of a numeric literal: its bytes without the `_` separators.
pub open spec fn num_digits(w: Seq<u8>) -> Seq<u8> {
    w.filter(|b: u8| b != 95)
}

pub open spec fn is_two_char_punct(a: u8, b: u8) -> bool {
    (a == 61u8 && b == 61u8) || (a == 33u8 && b == 61u8) || (a == 60u8 && b == 61u8) || (a == 62u8 && b == 61u8) || (a == 45u8 && b == 62u8) || (a == 38u8 && b == 38u8) || (a == 124u8 && b == 124u8) || (a == 60u8 && b == 60u8) || (a == 62u8 && b == 62u8)
}


/// Length of the punctuator starting at `c`.
pub open spec fn punct_len(src: Seq<u8>, c: nat) -> nat {
    if c + 1 < src.len() && is_two_char_punct(src[c as int], src[(c + 1) as int]) {
        2
    } else {
        1
    }
}

pub open spec fn word_token(w: Seq<u8>) -> TokenV {
    if w.len() == 3 && w[0] == 108u8 && w[1] == 101u8 && w[2] == 116u8 {
        TokenV::Let
    } else if w.len() == 2 && w[0] == 102u8 && w[1] == 110u8 {
        TokenV::Fn
    } else if w.len() == 6 && w[0] == 115u8 && w[1] == 116u8 && w[2] == 114u8 && w[3] == 117u8 && w[4] == 99u8 && w[5] == 116u8 {
        TokenV::Struct
    } else if w.len() == 6 && w[0] == 103u8 && w[1] == 108u8 && w[2] == 111u8 && w[3] == 98u8 && w[4] == 97u8 && w[5] == 108u8 {
        TokenV::Global
    } else if w.len() == 5 && w[0] == 119u8 && w[1] == 104u8 && w[2] == 105u8 && w[3] == 108u8 && w[4] == 101u8 {
        TokenV::While
    } else if w.len() == 8 && w[0] == 99u8 && w[1] == 111u8 && w[2] == 110u8 && w[3] == 116u8 && w[4] == 105u8 && w[5] == 110u8 && w[6] == 117u8 && w[7] == 101u8 {
        TokenV::Continue
    } else if w.len() == 5 && w[0] == 98u8 && w[1] == 114u8 && w[2] == 101u8 && w[3] == 97u8 && w[4] == 107u8 {
        TokenV::Break
    } else if w.len() == 2 && w[0] == 105u8 && w[1] == 102u8 {
        TokenV::If
    } else if w.len() == 4 && w[0] == 101u8 && w[1] == 108u8 && w[2] == 115u8 && w[3] == 101u8 {
        TokenV::Else
    } else if w.len() == 6 && w[0] == 114u8 && w[1] == 101u8 && w[2] == 116u8 && w[3] == 117u8 && w[4] == 114u8 && w[5] == 110u8 {
        TokenV::Return
    } else if w.len() == 4 && w[0] == 116u8 && w[1] == 114u8 && w[2] == 117u8 && w[3] == 101u8 {
        TokenV::Bool(true)
    } else if w.len() == 5 && w[0] == 102u8 && w[1] == 97u8 && w[2] == 108u8 && w[3] == 115u8 && w[4] == 101u8 {
        TokenV::Bool(false)
    } else if w.len() == 6 && w[0] == 115u8 && w[1] == 105u8 && w[2] == 122u8 && w[3] == 101u8 && w[4] == 111u8 && w[5] == 102u8 {
        TokenV::Sizeof
    } else {
        TokenV::Ident(ascii_chars(w))
    }
}


/// How each keyword is written in source text; `None` for a token that is no keyword.
pub open spec fn keyword_spelling(t: TokenV) -> Option<Seq<char>> {
    match t {
        TokenV::Let => Some(seq!['l', 'e', 't']),
        TokenV::Fn => Some(seq!['f', 'n']),
        TokenV::Struct => Some(seq!['s', 't', 'r', 'u', 'c', 't']),
        TokenV::Global => Some(seq!['g', 'l', 'o', 'b', 'a', 'l']),
        TokenV::While => Some(seq!['w', 'h', 'i', 'l', 'e']),
        TokenV::Continue => Some(seq!['c', 'o', 'n', 't', 'i', 'n', 'u', 'e']),
        TokenV::Break => Some(seq!['b', 'r', 'e', 'a', 'k']),
        TokenV::If => Some(seq!['i', 'f']),
        TokenV::Else => Some(seq!['e', 'l', 's', 'e']),
        TokenV::Return => Some(seq!['r', 'e', 't', 'u', 'r', 'n']),
        TokenV::Bool(true) => Some(seq!['t', 'r', 'u', 'e']),
        TokenV::Bool(false) => Some(seq!['f', 'a', 'l', 's', 'e']),
        TokenV::Sizeof => Some(seq!['s', 'i', 'z', 'e', 'o', 'f']),
        _ => None,
    }
}

/// A word is read either as the keyword it spells or as an identifier made of its characters.
pub proof fn law_word_token(w: Seq<u8>)
    ensures
        word_token(w) == TokenV::Ident(ascii_chars(w)) || (keyword_spelling(word_token(w)) is Some
            && w == ascii_bytes(keyword_spelling(word_token(w))->0)),
{
    if keyword_spelling(word_token(w)) is Some {
        law_keyword_spelling(w, word_token(w));
    }
}

/// Each keyword is read from its own spelling: a word lexes to the keyword token `t` exactly
/// when its bytes are the spelling of `t`.
pub proof fn law_keyword_spelling(w: Seq<u8>, t: TokenV)
    requires
        keyword_spelling(t) is Some,
    ensures
        word_token(w) == t <==> w == ascii_bytes(keyword_spelling(t)->0),
{
    let b = ascii_bytes(keyword_spelling(t)->0);
    assert(b =~= match t {
        TokenV::Let => seq![108u8, 101u8, 116u8],
        TokenV::Fn => seq![102u8, 110u8],
        TokenV::Struct => seq![115u8, 116u8, 114u8, 117u8, 99u8, 116u8],
        TokenV::Global => seq![103u8, 108u8, 111u8, 98u8, 97u8, 108u8],
        TokenV::While => seq![119u8, 104u8, 105u8, 108u8, 101u8],
        TokenV::Continue => seq![99u8, 111u8, 110u8, 116u8, 105u8, 110u8, 117u8, 101u8],
        TokenV::Break => seq![98u8, 114u8, 101u8, 97u8, 107u8],
        TokenV::If => seq![105u8, 102u8],
        TokenV::Else => seq![101u8, 108u8, 115u8, 101u8],
        TokenV::Return => seq![114u8, 101u8, 116u8, 117u8, 114u8, 110u8],
        TokenV::Bool(true) => seq![116u8, 114u8, 117u8, 101u8],
        TokenV::Bool(false) => seq![102u8, 97u8, 108u8, 115u8, 101u8],
        _ => seq![115u8, 105u8, 122u8, 101u8, 111u8, 102u8],
    });
    if word_token(w) == t {
        assert(w =~= b);
    }
}

pub open spec fn punct_token(p: Seq<u8>) -> Option<TokenV> {
    if p.len() == 1 && p[0] == 40u8 {
        Some(TokenV::LParen)
    } else if p.len() == 1 && p[0] == 41u8 {
        Some(TokenV::RParen)
    } else if p.len() == 1 && p[0] == 123u8 {
        Some(TokenV::LCurly)
    } else if p.len() == 1 && p[0] == 125u8 {
        Some(TokenV::RCurly)
    } else if p.len() == 1 && p[0] == 91u8 {
        Some(TokenV::LBrack)
    } else if p.len() == 1 && p[0] == 93u8 {
        Some(TokenV::RBrack)
    } else if p.len() == 1 && p[0] == 44u8 {
        Some(TokenV::Comma)
    } else if p.len() == 1 && p[0] == 46u8 {
        Some(TokenV::Dot)
    } else if p.len() == 1 && p[0] == 58u8 {
        Some(TokenV::Colon)
    } else if p.len() == 1 && p[0] == 59u8 {
        Some(TokenV::Semi)
    } else if p.len() == 1 && p[0] == 43u8 {
        Some(TokenV::Plus)
    } else if p.len() == 1 && p[0] == 45u8 {
        Some(TokenV::Minus)
    } else if p.len() == 1 && p[0] == 42u8 {
        Some(TokenV::Star)
    } else if p.len() == 1 && p[0] == 47u8 {
        Some(TokenV::Slash)
    } else if p.len() == 1 && p[0] == 37u8 {
        Some(TokenV::Percent)
    } else if p.len() == 1 && p[0] == 38u8 {
        Some(TokenV::And)
    } else if p.len() == 1 && p[0] == 124u8 {
        Some(TokenV::Or)
    } else if p.len() == 1 && p[0] == 94u8 {
        Some(TokenV::Caret)
    } else if p.len() == 1 && p[0] == 33u8 {
        Some(TokenV::Bang)
    } else if p.len() == 1 && p[0] == 61u8 {
        Some(TokenV::Eq)
    } else if p.len() == 1 && p[0] == 60u8 {
        Some(TokenV::Lt)
    } else if p.len() == 1 && p[0] == 62u8 {
        Some(TokenV::Gt)
    } else if p.len() == 1 && p[0] == 64u8 {
        Some(TokenV::At)
    } else if p.len() == 2 && p[0] == 45u8 && p[1] == 62u8 {
        Some(TokenV::RArrow)
    } else if p.len() == 2 && p[0] == 38u8 && p[1] == 38u8 {
        Some(TokenV::AndAnd)
    } else if p.len() == 2 && p[0] == 124u8 && p[1] == 124u8 {
        Some(TokenV::OrOr)
    } else if p.len() == 2 && p[0] == 61u8 && p[1] == 61u8 {
        Some(TokenV::EqEq)
    } else if p.len() == 2 && p[0] == 33u8 && p[1] == 61u8 {
        Some(TokenV::BangEq)
    } else if p.len() == 2 && p[0] == 60u8 && p[1] == 61u8 {
        Some(TokenV::LtEq)
    } else if p.len() == 2 && p[0] == 62u8 && p[1] == 61u8 {
        Some(TokenV::GtEq)
    } else {
        None
    }
}

/// How each punctuation token is written in source text; `None` for a token that is no
/// punctuation.
pub open spec fn punct_spelling(t: TokenV) -> Option<Seq<char>> {
    match t {
        TokenV::LParen => Some(seq!['(']),
        TokenV::RParen => Some(seq![')']),
        TokenV::LCurly => Some(seq!['{']),
        TokenV::RCurly => Some(seq!['}']),
        TokenV::LBrack => Some(seq!['[']),
        TokenV::RBrack => Some(seq![']']),
        TokenV::Comma => Some(seq![',']),
        TokenV::Dot => Some(seq!['.']),
        TokenV::Colon => Some(seq![':']),
        TokenV::Semi => Some(seq![';']),
        TokenV::Plus => Some(seq!['+']),
        TokenV::Minus => Some(seq!['-']),
        TokenV::Star => Some(seq!['*']),
        TokenV::Slash => Some(seq!['/']),
        TokenV::Percent => Some(seq!['%']),
        TokenV::And => Some(seq!['&']),
        TokenV::Or => Some(seq!['|']),
        TokenV::Caret => Some(seq!['^']),
        TokenV::Bang => Some(seq!['!']),
        TokenV::Eq => Some(seq!['=']),
        TokenV::Lt => Some(seq!['<']),
        TokenV::Gt => Some(seq!['>']),
        TokenV::At => Some(seq!['@']),
        TokenV::RArrow => Some(seq!['-', '>']),
        TokenV::AndAnd => Some(seq!['&', '&']),
        TokenV::OrOr => Some(seq!['|', '|']),
        TokenV::EqEq => Some(seq!['=', '=']),
        TokenV::BangEq => Some(seq!['!', '=']),
        TokenV::LtEq => Some(seq!['<', '=']),
        TokenV::GtEq => Some(seq!['>', '=']),
        _ => None,
    }
}

/// Punctuation is read greedily: where the next two bytes spell a two-byte punctuation token,
/// both are read as one token.
pub proof fn law_punct_longest(src: Seq<u8>, c: nat, t: TokenV)
    requires
        (punct_spelling(t) is Some),
        punct_spelling(t)->0.len() == 2,
        c + 2 <= src.len(),
        src.subrange(c as int, c + 2int) == ascii_bytes(punct_spelling(t)->0),
    ensures
        punct_len(src, c) == 2,
        punct_token(src.subrange(c as int, c + 2int)) == Some(t),
{
    law_punct_spelling(src.subrange(c as int, c + 2int), t);
    assert(src.subrange(c as int, c + 2int)[0] == src[c as int]);
    assert(src.subrange(c as int, c + 2int)[1] == src[c + 1int]);
}

/// Each punctuation token is read from its own spelling: punctuation lexes to the token `t`
/// exactly when its bytes are the spelling of `t`.
pub proof fn law_punct_spelling(p: Seq<u8>, t: TokenV)
    requires
        (punct_spelling(t) is Some),
    ensures
        punct_token(p) == Some(t) <==> p == ascii_bytes(punct_spelling(t)->0),
{
    let b = ascii_bytes(punct_spelling(t)->0);
    assert(b =~= match t {
        TokenV::LParen => seq![40u8],
        TokenV::RParen => seq![41u8],
        TokenV::LCurly => seq![123u8],
        TokenV::RCurly => seq![125u8],
        TokenV::LBrack => seq![91u8],
        TokenV::RBrack => seq![93u8],
        TokenV::Comma => seq![44u8],
        TokenV::Dot => seq![46u8],
        TokenV::Colon => seq![58u8],
        TokenV::Semi => seq![59u8],
        TokenV::Plus => seq![43u8],
        TokenV::Minus => seq![45u8],
        TokenV::Star => seq![42u8],
        TokenV::Slash => seq![47u8],
        TokenV::Percent => seq![37u8],
        TokenV::And => seq![38u8],
        TokenV::Or => seq![124u8],
        TokenV::Caret => seq![94u8],
        TokenV::Bang => seq![33u8],
        TokenV::Eq => seq![61u8],
        TokenV::Lt => seq![60u8],
        TokenV::Gt => seq![62u8],
        TokenV::At => seq![64u8],
        TokenV::RArrow => seq![45u8, 62u8],
        TokenV::AndAnd => seq![38u8, 38u8],
        TokenV::OrOr => seq![124u8, 124u8],
        TokenV::EqEq => seq![61u8, 61u8],
        TokenV::BangEq => seq![33u8, 61u8],
        TokenV::LtEq => seq![60u8, 61u8],
        _ => seq![62u8, 61u8],
    });
    if punct_token(p) == Some(t) {
        assert(p =~= b);
    }
}


pub open spec fn span_at(file: &'static str, lo: nat, q: LexPos) -> Span {
    Span { file, lo: lo as usize, hi: q.cursor as usize, row: q.row as usize, col: q.col as usize }
}

/// Why the lexer rejected its input.
#[derive(Debug, Clone, Copy)]
pub enum LexError {
    /// A string literal is not closed before the input ends.
    UnclosedQuote,
    /// A string literal is not valid UTF-8; `at` is the span of the token before it.
    NonUtf8 { at: Span },
    /// Punctuation that is no token; `at` is the span of the token before it.
    UnknownToken { at: Span },
}

/// The next token of `src` from position `p0`: its value, its span and the position after it.
/// At the end of input, and at a byte that starts no token, the result is `Eof` with the empty
/// span and the position does not move past that byte.
#[verifier::opaque]
pub open spec fn lex_next(src: Seq<u8>, file: &'static str, p0: LexPos, last: Span) -> Result<
    (TokenV, Span, LexPos),
    LexError,
> {
    let p = skip_ws(src, p0);
    let c = p.cursor;
    if c >= src.len() {
        Ok((TokenV::Eof, default_span(), p))
    } else if is_word_start(src[c as int]) {
        let q = scan_word(src, p);
        Ok((word_token(src.subrange(c as int, q.cursor as int)), span_at(file, c, q), q))
    } else if is_digit(src[c as int]) {
        let q = scan_num(src, p);
        Ok(
            (
                TokenV::Int(ascii_chars(num_digits(src.subrange(c as int, q.cursor as int)))),
                span_at(file, c, q),
                q,
            ),
        )
    } else if src[c as int] == 34 {
        match scan_str(src, adv(src, p)) {
            None => Err(LexError::UnclosedQuote),
            Some(q) => {
                let body = src.subrange((c + 1) as int, q.cursor - 1);
                if valid_utf8(body) {
                    Ok((TokenV::Str(decode_utf8(body)), span_at(file, c, q), q))
                } else {
                    Err(LexError::NonUtf8 { at: last })
                }
            },
        }
    } else if punct_len(src, c) == 1 && !is_punct(src[c as int]) {
        Ok((TokenV::Eof, default_span(), p))
    } else {
        let n = punct_len(src, c);
        let q = if n == 2 { adv(src, adv(src, p)) } else { adv(src, p) };
        match punct_token(src.subrange(c as int, (c + n) as int)) {
            Some(t) => Ok((t, span_at(file, c, q), q)),
            None => Err(LexError::UnknownToken { at: last }),
        }
    }
}

/// The string pool after lexing token `t`: its text, if any, is interned.
pub open spec fn pool_after(pool: Seq<Seq<char>>, t: TokenV) -> Seq<Seq<char>> {
    match t {
        TokenV::Int(s) => interned(pool, s),
        TokenV::Str(s) => interned(pool, s),
        TokenV::Ident(s) => interned(pool, s),
        _ => pool,
    }
}


/// The parser-visible state of a lexer: where it is, and the span of the token last read.
pub struct PState {
    pub pos: LexPos,
    pub last: Span,
}

/// Reads the next token (as `Lexer::eat`).
pub open spec fn p_eat(src: Seq<u8>, file: &'static str, st: PState) -> Result<
    (TokenV, Span, PState),
    CompileError,
> {
    match lex_next(src, file, st.pos, st.last) {
        Ok((t, sp, q)) => Ok((t, sp, PState { pos: q, last: sp })),
        Err(e) => Err(CompileError::Lex(e)),
    }
}

/// Looks at the next token (as `Lexer::peek`): the position stays, the last span moves.
pub open spec fn p_peek(src: Seq<u8>, file: &'static str, st: PState) -> Result<
    (TokenV, Span, PState),
    CompileError,
> {
    match lex_next(src, file, st.pos, st.last) {
        Ok((t, sp, q)) => Ok((t, sp, PState { pos: st.pos, last: sp })),
        Err(e) => Err(CompileError::Lex(e)),
    }
}

/// Looks at the span of the next token and leaves the state as it is (as `Parser::mark`).
pub open spec fn p_mark(src: Seq<u8>, file: &'static str, st: PState) -> Result<
    (TokenV, Span, PState),
    CompileError,
> {
    match lex_next(src, file, st.pos, st.last) {
        Ok((t, sp, q)) => Ok((t, sp, st)),
        Err(e) => Err(CompileError::Lex(e)),
    }
}

/// Consumes the next token, which must be `t`.
pub open spec fn p_expect(src: Seq<u8>, file: &'static str, st: PState, t: TokenV) -> Result<
    PState,
    CompileError,
> {
    match p_eat(src, file, st) {
        Ok((u, sp, st2)) => if u == t {
            Ok(st2)
        } else {
            Err(CompileError::ExpectedToken { at: sp })
        },
        Err(e) => Err(e),
    }
}

/// Whether the next token is `t` (looking at it, as `p_peek`).
pub open spec fn p_is_next(src: Seq<u8>, file: &'static str, st: PState, t: TokenV) -> Result<
    (bool, PState),
    CompileError,
> {
    match p_peek(src, file, st) {
        Ok((u, sp, st2)) => Ok((u == t, st2)),
        Err(e) => Err(e),
    }
}

/// Consumes the next token, which must be an identifier; its name with its span.
pub open spec fn p_expect_ident(src: Seq<u8>, file: &'static str, st: PState) -> Result<
    (SpannedV<Seq<char>>, PState),
    CompileError,
> {
    match p_eat(src, file, st) {
        Ok((u, sp, st2)) => match u {
            TokenV::Ident(s) => Ok((SpannedV { inner: s, span: sp }, st2)),
            _ => Err(CompileError::ExpectedIdent { at: sp }),
        },
        Err(e) => Err(e),
    }
}

pub open spec fn wf_pos(src: Seq<u8>, p: LexPos) -> bool {
    p.cursor <= src.len() && p.row <= p.cursor && p.col <= p.cursor
}

proof fn lemma_adv(src: Seq<u8>, p: LexPos)
    requires
        wf_pos(src, p),
        p.cursor < src.len(),
    ensures
        wf_pos(src, adv(src, p)),
        adv(src, p).cursor == p.cursor + 1,
{
}

proof fn lemma_skip_ws(src: Seq<u8>, p: LexPos)
    requires
        wf_pos(src, p),
    ensures
        wf_pos(src, skip_ws(src, p)),
        skip_ws(src, p).cursor >= p.cursor,
    decreases src.len() - p.cursor,
{
    if p.cursor < src.len() && is_ws(src[p.cursor as int]) {
        lemma_skip_ws(src, adv(src, p));
    }
}

proof fn lemma_scan_word(src: Seq<u8>, p: LexPos)
    requires
        wf_pos(src, p),
    ensures
        wf_pos(src, scan_word(src, p)),
        scan_word(src, p).cursor >= p.cursor,
        p.cursor < src.len() && is_word_byte(src[p.cursor as int]) ==> scan_word(src, p).cursor
            > p.cursor,
    decreases src.len() - p.cursor,
{
    if p.cursor < src.len() && is_word_byte(src[p.cursor as int]) {
        lemma_scan_word(src, adv(src, p));
    }
}

proof fn lemma_scan_num(src: Seq<u8>, p: LexPos)
    requires
        wf_pos(src, p),
    ensures
        wf_pos(src, scan_num(src, p)),
        scan_num(src, p).cursor >= p.cursor,
        p.cursor < src.len() && is_num_byte(src[p.cursor as int]) ==> scan_num(src, p).cursor
            > p.cursor,
    decreases src.len() - p.cursor,
{
    if p.cursor < src.len() && is_num_byte(src[p.cursor as int]) {
        lemma_scan_num(src, adv(src, p));
    }
}

proof fn lemma_scan_str(src: Seq<u8>, p: LexPos)
    requires
        wf_pos(src, p),
    ensures
        scan_str(src, p) matches Some(q) ==> wf_pos(src, q) && q.cursor > p.cursor,
    decreases src.len() - p.cursor,
{
    if p.cursor < src.len() {
        let q = adv(src, p);
        if src[p.cursor as int] == 92 && q.cursor < src.len() {
            lemma_scan_str(src, adv(src, q));
        } else if src[p.cursor as int] != 34 && src[p.cursor as int] != 92 {
            lemma_scan_str(src, q);
        }
    }
}

/// Lexing never moves backwards, stays within the input, and every token but `Eof` consumes
/// at least one byte.
pub proof fn lemma_lex_next(src: Seq<u8>, file: &'static str, p: LexPos, last: Span)
    requires
        wf_pos(src, p),
    ensures
        lex_next(src, file, p, last) matches Ok((t, sp, q)) ==> {
            &&& wf_pos(src, q)
            &&& q.cursor >= p.cursor
            &&& t != TokenV::Eof ==> q.cursor > p.cursor
        },
{
    reveal(lex_next);
    lemma_skip_ws(src, p);
    let p1 = skip_ws(src, p);
    if p1.cursor < src.len() {
        lemma_scan_word(src, p1);
        lemma_scan_num(src, p1);
        lemma_adv(src, p1);
        lemma_scan_str(src, adv(src, p1));
        if p1.cursor + 1 < src.len() {
            lemma_adv(src, adv(src, p1));
        }
    }
}


/// The token read does not depend on the span last recorded; only error payloads do.
pub proof fn lemma_lex_next_last(src: Seq<u8>, file: &'static str, p: LexPos, l1: Span, l2: Span)
    ensures
        lex_next(src, file, p, l1) is Ok ==> lex_next(src, file, p, l2) == lex_next(src, file, p, l1),
{
    reveal(lex_next);
}

/// Consuming a token just looked at gives that same token and span.
pub proof fn lemma_peek_eat(src: Seq<u8>, file: &'static str, st: PState)
    ensures
        p_peek(src, file, st) matches Ok((t, sp, st1)) ==> p_eat(src, file, st1) matches Ok(
            (t2, sp2, _),
        ) && t2 == t && sp2 == sp,
{
    reveal(lex_next);
}

/// ASCII bytes are valid UTF-8 and decode to the characters they stand for.
pub proof fn lemma_ascii_utf8(w: Seq<u8>)
    requires
        all_ascii(w),
    ensures
        valid_utf8(w),
        decode_utf8(w) == ascii_chars(w),
{
    let chars = ascii_chars(w);
    assert(vstd::utf8::is_ascii_chars(chars)) by {
        assert forall|i: int| 0 <= i < chars.len() implies '\0' <= #[trigger] chars[i] <= '\u{7f}' by {
            assert(w[i] < 128);
        }
    }
    vstd::utf8::is_ascii_chars_encode_utf8(chars);
    assert forall|i: int| 0 <= i < w.len() implies vstd::utf8::encode_utf8(chars)[i] == w[i] by {
        assert(chars[i] as u8 == vstd::utf8::encode_utf8(chars)[i]);
        assert(chars[i] == w[i] as char);
    }
    assert(vstd::utf8::encode_utf8(chars) =~= w);
    vstd::utf8::encode_utf8_valid_utf8(chars);
    vstd::utf8::encode_utf8_decode_utf8(chars);
}


fn is_ws_byte(b: u8) -> (r: bool)
    ensures
        r == is_ws(b),
{
    b == 32 || b == 9 || b == 10 || b == 12 || b == 13
}

fn is_alpha_byte(b: u8) -> (r: bool)
    ensures
        r == is_alpha(b),
{
    (65 <= b && b <= 90) || (97 <= b && b <= 122)
}

fn is_digit_byte(b: u8) -> (r: bool)
    ensures
        r == is_digit(b),
{
    48 <= b && b <= 57
}

fn is_punct_byte(b: u8) -> (r: bool)
    ensures
        r == is_punct(b),
{
    (33 <= b && b <= 47) || (58 <= b && b <= 64) || (91 <= b && b <= 96) || (123 <= b && b <= 126)
}

fn is_two_char_punct_bytes(a: u8, b: u8) -> (r: bool)
    ensures
        r == is_two_char_punct(a, b),
{
    (a == 61u8 && b == 61u8) || (a == 33u8 && b == 61u8) || (a == 60u8 && b == 61u8) || (a == 62u8 && b == 61u8) || (a == 45u8 && b == 62u8) || (a == 38u8 && b == 38u8) || (a == 124u8 && b == 124u8) || (a == 60u8 && b == 60u8) || (a == 62u8 && b == 62u8)
}

/// The lexer over one source file.
pub struct Lexer {
    filename: &'static str,
    source: Vec<u8>,
    cursor: usize,
    row: usize,
    col: usize,
    last_span: Span,
    strings: Pool<String>,
}

impl Lexer {
    pub closed spec fn src(&self) -> Seq<u8> {
        self.source@
    }

    pub closed spec fn file(&self) -> &'static str {
        self.filename
    }

    pub closed spec fn pos(&self) -> LexPos {
        LexPos { cursor: self.cursor as nat, row: self.row as nat, col: self.col as nat }
    }

    /// The span of the token most recently read.
    pub closed spec fn last(&self) -> Span {
        self.last_span
    }

    /// The strings interned so far.
    pub closed spec fn strings(&self) -> Seq<Seq<char>> {
        self.strings@
    }

    pub closed spec fn wf(&self) -> bool {
        &&& self.cursor <= self.source@.len()
        &&& self.row <= self.cursor
        &&& self.col <= self.cursor
    }

    /// A lexer at the start of `source`, which is the content of the file named `filename`.
    pub fn new(filename: &'static str, source: Vec<u8>) -> (r: Lexer)
        ensures
            r.wf(),
            r.src() == source@,
            r.file() == filename,
            r.pos() == (LexPos { cursor: 0, row: 0, col: 0 }),
            r.last() == (Span { file: filename, lo: 0, hi: 0, row: 0, col: 0 }),
            r.strings() == Seq::<Seq<char>>::empty(),
    {
        Lexer {
            filename,
            source,
            cursor: 0,
            row: 0,
            col: 0,
            last_span: Span::new(filename, 0, 0, 0, 0),
            strings: Pool::new(),
        }
    }

    /// The span of the token most recently read.
    pub fn last_span(&self) -> (r: Span)
        ensures
            r == self.last(),
    {
        self.last_span
    }

    pub fn filename(&self) -> (r: &'static str)
        ensures
            r == self.file(),
    {
        self.filename
    }

    fn peek_byte(&self) -> (r: Option<u8>)
        requires
            self.wf(),
        ensures
            r == if self.pos().cursor < self.src().len() {
                Some(self.src()[self.pos().cursor as int])
            } else {
                None::<u8>
            },
    {
        if self.cursor < self.source.len() {
            Some(self.source[self.cursor])
        } else {
            None
        }
    }

    /// Consumes one byte, tracking rows and columns. At the end of input nothing moves.
    fn eat_byte(&mut self) -> (r: Option<u8>)
        requires
            old(self).wf(),
        ensures
            final(self).wf(),
            final(self).src() == old(self).src(),
            final(self).file() == old(self).file(),
            final(self).last() == old(self).last(),
            final(self).strings() == old(self).strings(),
            old(self).pos().cursor < old(self).src().len() ==> r == Some(
                old(self).src()[old(self).pos().cursor as int],
            ) && final(self).pos() == adv(old(self).src(), old(self).pos()),
            old(self).pos().cursor >= old(self).src().len() ==> r is None && final(self).pos()
                == old(self).pos(),
    {
        if self.cursor < self.source.len() {
            let c = self.source[self.cursor];
            self.cursor += 1;
            if c == 10 {
                self.row += 1;
                self.col = 0;
            } else {
                self.col += 1;
            }
            Some(c)
        } else {
            None
        }
    }

    fn make_token(&self, kind: Token, lo: usize) -> (r: Spanned<Token>)
        ensures
            r.inner == kind,
            r.span == span_at(self.file(), lo as nat, self.pos()),
    {
        Spanned::new(kind, Span::new(self.filename, lo, self.cursor, self.row, self.col))
    }

    /// Skips whitespace; never yields a token.
    fn read_whitespace(&mut self) -> (r: Option<Spanned<Token>>)
        requires
            old(self).wf(),
        ensures
            r is None,
            final(self).wf(),
            final(self).src() == old(self).src(),
            final(self).file() == old(self).file(),
            final(self).last() == old(self).last(),
            final(self).strings() == old(self).strings(),
            final(self).pos() == skip_ws(old(self).src(), old(self).pos()),
    {
        let ghost p0 = self.pos();
        while self.cursor < self.source.len() && is_ws_byte(self.source[self.cursor])
            invariant
                self.wf(),
                self.src() == old(self).src(),
                self.file() == old(self).file(),
                self.last() == old(self).last(),
                self.strings() == old(self).strings(),
                skip_ws(self.src(), p0) == skip_ws(self.src(), self.pos()),
            decreases self.source@.len() - self.cursor,
        {
            self.eat_byte();
        }
        None
    }

    /// Interns a string in the lexer's pool.
    fn add_str(&mut self, s: String) -> (r: RcString)
        ensures
            (*r)@ == s@,
            final(self).strings() == interned(old(self).strings(), s@),
            final(self).src() == old(self).src(),
            final(self).file() == old(self).file(),
            final(self).last() == old(self).last(),
            final(self).pos() == old(self).pos(),
            old(self).wf() ==> final(self).wf(),
    {
        self.strings.get(&s)
    }

    /// Copies bytes `lo..hi` of the source.
    fn source_bytes(&self, lo: usize, hi: usize) -> (r: Vec<u8>)
        requires
            lo <= hi <= self.src().len(),
        ensures
            r@ == self.src().subrange(lo as int, hi as int),
    {
        let mut v: Vec<u8> = Vec::new();
        let mut i = lo;
        while i < hi
            invariant
                lo <= i <= hi,
                hi <= self.source@.len(),
                v@ == self.source@.subrange(lo as int, i as int),
            decreases hi - i,
        {
            v.push(self.source[i]);
            i += 1;
            proof {
                assert(v@ =~= self.source@.subrange(lo as int, i as int));
            }
        }
        v
    }

    /// Reads a numeric literal: a digit followed by digits and `_` separators.
    fn read_num(&mut self) -> (r: Option<Spanned<Token>>)
        requires
            old(self).wf(),
        ensures
            final(self).wf(),
            final(self).src() == old(self).src(),
            final(self).file() == old(self).file(),
            final(self).last() == old(self).last(),
            ({
                let src = old(self).src();
                let p = old(self).pos();
                if p.cursor < src.len() && is_digit(src[p.cursor as int]) {
                    let q = scan_num(src, p);
                    let t = TokenV::Int(
                        ascii_chars(num_digits(src.subrange(p.cursor as int, q.cursor as int))),
                    );
                    &&& r is Some
                    &&& r->0@ == (SpannedV { inner: t, span: span_at(old(self).file(), p.cursor, q) })
                    &&& final(self).pos() == q
                    &&& final(self).strings() == pool_after(old(self).strings(), t)
                } else {
                    r is None && final(self).pos() == p && final(self).strings() == old(self).strings()
                }
            }),
    {
        let start = self.cursor;
        if !(self.cursor < self.source.len() && is_digit_byte(self.source[self.cursor])) {
            return None;
        }
        let ghost p0 = self.pos();
        let mut buf: Vec<u8> = Vec::new();
        while self.cursor < self.source.len() && (is_digit_byte(self.source[self.cursor])
            || self.source[self.cursor] == 95)
            invariant
                self.wf(),
                self.src() == old(self).src(),
                self.file() == old(self).file(),
                self.last() == old(self).last(),
                self.strings() == old(self).strings(),
                start == p0.cursor,
                start <= self.cursor,
                scan_num(self.src(), p0) == scan_num(self.src(), self.pos()),
                buf@ == num_digits(self.src().subrange(start as int, self.cursor as int)),
                all_ascii(buf@),
            decreases self.source@.len() - self.cursor,
        {
            let ghost before = self.src().subrange(start as int, self.cursor as int);
            let c = self.eat_byte().unwrap();
            proof {
                let after = self.src().subrange(start as int, self.cursor as int);
                assert(after =~= before.push(c));
                reveal(Seq::filter);
                assert(after.drop_last() =~= before);
            }
            if c != 95 {
                buf.push(c);
            }
        }
        proof {
            lemma_ascii_utf8(buf@);
        }
        let raw = string_from_utf8(buf).unwrap();
        let s = self.add_str(raw);
        Some(self.make_token(Token::Int(s), start))
    }

    /// Reads a word: an identifier or a keyword.
    fn read_word(&mut self) -> (r: Option<Spanned<Token>>)
        requires
            old(self).wf(),
        ensures
            final(self).wf(),
            final(self).src() == old(self).src(),
            final(self).file() == old(self).file(),
            final(self).last() == old(self).last(),
            ({
                let src = old(self).src();
                let p = old(self).pos();
                if p.cursor < src.len() && is_word_start(src[p.cursor as int]) {
                    let q = scan_word(src, p);
                    let t = word_token(src.subrange(p.cursor as int, q.cursor as int));
                    &&& r is Some
                    &&& r->0@ == (SpannedV { inner: t, span: span_at(old(self).file(), p.cursor, q) })
                    &&& final(self).pos() == q
                    &&& final(self).strings() == pool_after(old(self).strings(), t)
                } else {
                    r is None && final(self).pos() == p && final(self).strings() == old(self).strings()
                }
            }),
    {
        let start = self.cursor;
        if !(self.cursor < self.source.len() && (is_alpha_byte(self.source[self.cursor])
            || self.source[self.cursor] == 95)) {
            return None;
        }
        let ghost p0 = self.pos();
        while self.cursor < self.source.len() && (is_alpha_byte(self.source[self.cursor])
            || is_digit_byte(self.source[self.cursor]) || self.source[self.cursor] == 95)
            invariant
                self.wf(),
                self.src() == old(self).src(),
                self.file() == old(self).file(),
                self.last() == old(self).last(),
                self.strings() == old(self).strings(),
                start == p0.cursor,
                start <= self.cursor,
                scan_word(self.src(), p0) == scan_word(self.src(), self.pos()),
                forall|i: int| start <= i < self.cursor ==> is_word_byte(#[trigger] self.src()[i]),
            decreases self.source@.len() - self.cursor,
        {
            self.eat_byte();
        }
        let lo = start;
        let n = self.cursor - start;
        let ghost w = self.src().subrange(start as int, self.cursor as int);
        let kind = if n == 3 && self.source[lo + 0] == 108u8 && self.source[lo + 1] == 101u8 && self.source[lo + 2] == 116u8 {
            Token::Let
        } else if n == 2 && self.source[lo + 0] == 102u8 && self.source[lo + 1] == 110u8 {
            Token::Fn
        } else if n == 6 && self.source[lo + 0] == 115u8 && self.source[lo + 1] == 116u8 && self.source[lo + 2] == 114u8 && self.source[lo + 3] == 117u8 && self.source[lo + 4] == 99u8 && self.source[lo + 5] == 116u8 {
            Token::Struct
        } else if n == 6 && self.source[lo + 0] == 103u8 && self.source[lo + 1] == 108u8 && self.source[lo + 2] == 111u8 && self.source[lo + 3] == 98u8 && self.source[lo + 4] == 97u8 && self.source[lo + 5] == 108u8 {
            Token::Global
        } else if n == 5 && self.source[lo + 0] == 119u8 && self.source[lo + 1] == 104u8 && self.source[lo + 2] == 105u8 && self.source[lo + 3] == 108u8 && self.source[lo + 4] == 101u8 {
            Token::While
        } else if n == 8 && self.source[lo + 0] == 99u8 && self.source[lo + 1] == 111u8 && self.source[lo + 2] == 110u8 && self.source[lo + 3] == 116u8 && self.source[lo + 4] == 105u8 && self.source[lo + 5] == 110u8 && self.source[lo + 6] == 117u8 && self.source[lo + 7] == 101u8 {
            Token::Continue
        } else if n == 5 && self.source[lo + 0] == 98u8 && self.source[lo + 1] == 114u8 && self.source[lo + 2] == 101u8 && self.source[lo + 3] == 97u8 && self.source[lo + 4] == 107u8 {
            Token::Break
        } else if n == 2 && self.source[lo + 0] == 105u8 && self.source[lo + 1] == 102u8 {
            Token::If
        } else if n == 4 && self.source[lo + 0] == 101u8 && self.source[lo + 1] == 108u8 && self.source[lo + 2] == 115u8 && self.source[lo + 3] == 101u8 {
            Token::Else
        } else if n == 6 && self.source[lo + 0] == 114u8 && self.source[lo + 1] == 101u8 && self.source[lo + 2] == 116u8 && self.source[lo + 3] == 117u8 && self.source[lo + 4] == 114u8 && self.source[lo + 5] == 110u8 {
            Token::Return
        } else if n == 4 && self.source[lo + 0] == 116u8 && self.source[lo + 1] == 114u8 && self.source[lo + 2] == 117u8 && self.source[lo + 3] == 101u8 {
            Token::Bool(true)
        } else if n == 5 && self.source[lo + 0] == 102u8 && self.source[lo + 1] == 97u8 && self.source[lo + 2] == 108u8 && self.source[lo + 3] == 115u8 && self.source[lo + 4] == 101u8 {
            Token::Bool(false)
        } else if n == 6 && self.source[lo + 0] == 115u8 && self.source[lo + 1] == 105u8 && self.source[lo + 2] == 122u8 && self.source[lo + 3] == 101u8 && self.source[lo + 4] == 111u8 && self.source[lo + 5] == 102u8 {
            Token::Sizeof
        } else {
            let bytes = self.source_bytes(start, self.cursor);
            proof {
                assert(all_ascii(bytes@));
                lemma_ascii_utf8(bytes@);
            }
            let raw = string_from_utf8(bytes).unwrap();
            Token::Ident(self.add_str(raw))
        };
        Some(self.make_token(kind, start))
    }

    /// Reads a string literal; its text is the bytes between the quotes, escapes kept as written.
    fn read_strlit(&mut self) -> (r: Result<Option<Spanned<Token>>, LexError>)
        requires
            old(self).wf(),
        ensures
            final(self).wf(),
            final(self).src() == old(self).src(),
            final(self).file() == old(self).file(),
            final(self).last() == old(self).last(),
            ({
                let src = old(self).src();
                let p = old(self).pos();
                if p.cursor < src.len() && src[p.cursor as int] == 34 {
                    match scan_str(src, adv(src, p)) {
                        None => r == Err::<Option<Spanned<Token>>, LexError>(LexError::UnclosedQuote),
                        Some(q) => {
                            let body = src.subrange((p.cursor + 1) as int, q.cursor - 1);
                            if valid_utf8(body) {
                                let t = TokenV::Str(decode_utf8(body));
                                &&& r matches Ok(Some(tok))
                                &&& tok@ == (SpannedV { inner: t, span: span_at(old(self).file(), p.cursor, q) })
                                &&& final(self).pos() == q
                                &&& final(self).strings() == pool_after(old(self).strings(), t)
                            } else {
                                r == Err::<Option<Spanned<Token>>, LexError>(
                                    LexError::NonUtf8 { at: old(self).last() },
                                )
                            }
                        },
                    }
                } else {
                    r matches Ok(None) && final(self).pos() == p && final(self).strings() == old(self).strings()
                }
            }),
    {
        let start = self.cursor;
        if self.cursor < self.source.len() && self.source[self.cursor] == 34 {
            self.eat_byte();
        } else {
            return Ok(None);
        }
        let ghost p1 = self.pos();
        loop
            invariant_except_break
                scan_str(self.src(), p1) == scan_str(self.src(), self.pos()),
            invariant
                self.wf(),
                self.src() == old(self).src(),
                self.file() == old(self).file(),
                self.last() == old(self).last(),
                self.strings() == old(self).strings(),
                start + 1 <= self.cursor,
                start == p1.cursor - 1,
                start == old(self).pos().cursor,
                start < old(self).src().len(),
                old(self).src()[start as int] == 34,
                p1 == adv(old(self).src(), old(self).pos()),
            ensures
                scan_str(self.src(), p1) == Some(self.pos()),
                start + 2 <= self.cursor,
            decreases self.source@.len() - self.cursor,
        {
            let curr = match self.eat_byte() {
                Some(c) => c,
                None => {
                    return Err(LexError::UnclosedQuote);
                },
            };
            if curr == 34 {
                break ;
            } else if curr == 92 {
                if self.eat_byte().is_none() {
                    return Err(LexError::UnclosedQuote);
                }
            }
        }
        let bytes = self.source_bytes(start + 1, self.cursor - 1);
        let ghost q = self.pos();
        assert(scan_str(old(self).src(), adv(old(self).src(), old(self).pos())) == Some(q));
        match string_from_utf8(bytes) {
            Some(raw) => {
                let s = self.add_str(raw);
                assert(self.pos() == q);
                let tok = self.make_token(Token::Str(s), start);
                assert(tok@.span == span_at(old(self).file(), old(self).pos().cursor, q));
                Ok(Some(tok))
            },
            None => Err(LexError::NonUtf8 { at: self.last_span }),
        }
    }

    /// Reads a punctuator of one or two bytes.
    fn read_punct(&mut self) -> (r: Result<Option<Spanned<Token>>, LexError>)
        requires
            old(self).wf(),
        ensures
            final(self).wf(),
            final(self).src() == old(self).src(),
            final(self).file() == old(self).file(),
            final(self).last() == old(self).last(),
            final(self).strings() == old(self).strings(),
            ({
                let src = old(self).src();
                let p = old(self).pos();
                let c = p.cursor;
                if c >= src.len() || (punct_len(src, c) == 1 && !is_punct(src[c as int])) {
                    r matches Ok(None) && final(self).pos() == p
                } else {
                    let n = punct_len(src, c);
                    let q = if n == 2 { adv(src, adv(src, p)) } else { adv(src, p) };
                    match punct_token(src.subrange(c as int, (c + n) as int)) {
                        Some(t) => {
                            &&& r matches Ok(Some(tok))
                            &&& tok@ == (SpannedV { inner: t, span: span_at(old(self).file(), c, q) })
                            &&& final(self).pos() == q
                        },
                        None => r == Err::<Option<Spanned<Token>>, LexError>(
                            LexError::UnknownToken { at: old(self).last() },
                        ),
                    }
                }
            }),
    {
        let start = self.cursor;
        if start >= self.source.len() {
            return Ok(None);
        }
        let n: usize = if start + 1 < self.source.len() && is_two_char_punct_bytes(
            self.source[start],
            self.source[start + 1],
        ) {
            2
        } else {
            1
        };
        let first = self.source[start];
        if n == 1 && !is_punct_byte(first) {
            return Ok(None);
        }
        self.eat_byte();
        if n == 2 {
            self.eat_byte();
        }
        let ghost w = self.src().subrange(start as int, start + n);
        let kind = if n == 1 && self.source[start + 0] == 40u8 {
            Token::LParen
        } else if n == 1 && self.source[start + 0] == 41u8 {
            Token::RParen
        } else if n == 1 && self.source[start + 0] == 123u8 {
            Token::LCurly
        } else if n == 1 && self.source[start + 0] == 125u8 {
            Token::RCurly
        } else if n == 1 && self.source[start + 0] == 91u8 {
            Token::LBrack
        } else if n == 1 && self.source[start + 0] == 93u8 {
            Token::RBrack
        } else if n == 1 && self.source[start + 0] == 44u8 {
            Token::Comma
        } else if n == 1 && self.source[start + 0] == 46u8 {
            Token::Dot
        } else if n == 1 && self.source[start + 0] == 58u8 {
            Token::Colon
        } else if n == 1 && self.source[start + 0] == 59u8 {
            Token::Semi
        } else if n == 1 && self.source[start + 0] == 43u8 {
            Token::Plus
        } else if n == 1 && self.source[start + 0] == 45u8 {
            Token::Minus
        } else if n == 1 && self.source[start + 0] == 42u8 {
            Token::Star
        } else if n == 1 && self.source[start + 0] == 47u8 {
            Token::Slash
        } else if n == 1 && self.source[start + 0] == 37u8 {
            Token::Percent
        } else if n == 1 && self.source[start + 0] == 38u8 {
            Token::And
        } else if n == 1 && self.source[start + 0] == 124u8 {
            Token::Or
        } else if n == 1 && self.source[start + 0] == 94u8 {
            Token::Caret
        } else if n == 1 && self.source[start + 0] == 33u8 {
            Token::Bang
        } else if n == 1 && self.source[start + 0] == 61u8 {
            Token::Eq
        } else if n == 1 && self.source[start + 0] == 60u8 {
            Token::Lt
        } else if n == 1 && self.source[start + 0] == 62u8 {
            Token::Gt
        } else if n == 1 && self.source[start + 0] == 64u8 {
            Token::At
        } else if n == 2 && self.source[start + 0] == 45u8 && self.source[start + 1] == 62u8 {
            Token::RArrow
        } else if n == 2 && self.source[start + 0] == 38u8 && self.source[start + 1] == 38u8 {
            Token::AndAnd
        } else if n == 2 && self.source[start + 0] == 124u8 && self.source[start + 1] == 124u8 {
            Token::OrOr
        } else if n == 2 && self.source[start + 0] == 61u8 && self.source[start + 1] == 61u8 {
            Token::EqEq
        } else if n == 2 && self.source[start + 0] == 33u8 && self.source[start + 1] == 61u8 {
            Token::BangEq
        } else if n == 2 && self.source[start + 0] == 60u8 && self.source[start + 1] == 61u8 {
            Token::LtEq
        } else if n == 2 && self.source[start + 0] == 62u8 && self.source[start + 1] == 61u8 {
            Token::GtEq
        } else {
            return Err(LexError::UnknownToken { at: self.last_span });
        };
        Ok(Some(self.make_token(kind, start)))
    }

    /// Reads the next token (see `lex_next`) and records its span as the last span.
    pub fn eat(&mut self) -> (r: Result<Spanned<Token>, LexError>)
        requires
            old(self).wf(),
        ensures
            final(self).wf(),
            final(self).src() == old(self).src(),
            final(self).file() == old(self).file(),
            match lex_next(old(self).src(), old(self).file(), old(self).pos(), old(self).last()) {
                Ok((t, sp, q)) => {
                    &&& r matches Ok(tok)
                    &&& tok@ == (SpannedV { inner: t, span: sp })
                    &&& final(self).pos() == q
                    &&& final(self).last() == sp
                    &&& final(self).strings() == pool_after(old(self).strings(), t)
                },
                Err(e) => r == Err::<Spanned<Token>, LexError>(e),
            },
            r matches Ok(tok) ==> old(self).pos().cursor <= final(self).pos().cursor && (tok@.inner
                != TokenV::Eof ==> old(self).pos().cursor < final(self).pos().cursor),
    {
        proof {
            reveal(lex_next);
            lemma_lex_next(self.src(), self.file(), self.pos(), self.last());
        }
        self.read_whitespace();
        let tok = match self.read_word() {
            Some(t) => t,
            None => match self.read_num() {
                Some(t) => t,
                None => match self.read_strlit()? {
                    Some(t) => t,
                    None => match self.read_punct()? {
                        Some(t) => t,
                        None => Spanned::new(Token::Eof, Span::default_span()),
                    },
                },
            },
        };
        self.last_span = tok.span;
        Ok(tok)
    }


    /// The parser-visible state.
    pub open spec fn state(&self) -> PState {
        PState { pos: self.pos(), last: self.last() }
    }

    /// A well-formed lexer's position is well formed.
    pub proof fn lemma_wf_pos(&self)
        requires
            self.wf(),
        ensures
            wf_pos(self.src(), self.pos()),
    {
    }

    /// Consumes the next token, which must equal `expected`.
    pub fn expect(&mut self, expected: Token) -> (r: Result<(), CompileError>)
        requires
            old(self).wf(),
        ensures
            final(self).wf(),
            final(self).src() == old(self).src(),
            final(self).file() == old(self).file(),
            match p_expect(old(self).src(), old(self).file(), old(self).state(), expected@) {
                Ok(st) => r is Ok && final(self).state() == st,
                Err(e) => r == Err::<(), CompileError>(e),
            },
            r is Ok && expected@ != TokenV::Eof ==> old(self).pos().cursor < final(self).pos().cursor,
            r is Ok ==> old(self).pos().cursor <= final(self).pos().cursor,
    {
        let next = match self.eat() {
            Ok(t) => t,
            Err(e) => return Err(CompileError::Lex(e)),
        };
        if !next.inner.same(&expected) {
            return Err(CompileError::ExpectedToken { at: next.span });
        }
        Ok(())
    }

    /// Whether the next token equals `expected`, without consuming it.
    pub fn is_next(&mut self, expected: Token) -> (r: Result<bool, CompileError>)
        requires
            old(self).wf(),
        ensures
            final(self).wf(),
            final(self).src() == old(self).src(),
            final(self).file() == old(self).file(),
            match p_is_next(old(self).src(), old(self).file(), old(self).state(), expected@) {
                Ok((b, st)) => r == Ok::<bool, CompileError>(b) && final(self).state() == st,
                Err(e) => r == Err::<bool, CompileError>(e),
            },
    {
        match self.peek() {
            Ok(t) => Ok(t.inner.same(&expected)),
            Err(e) => Err(CompileError::Lex(e)),
        }
    }

    /// Consumes the next token, which must be an identifier, and returns its name.
    pub fn expect_ident(&mut self) -> (r: Result<Spanned<RcString>, CompileError>)
        requires
            old(self).wf(),
        ensures
            final(self).wf(),
            final(self).src() == old(self).src(),
            final(self).file() == old(self).file(),
            match p_expect_ident(old(self).src(), old(self).file(), old(self).state()) {
                Ok((name, st)) => r matches Ok(n) && n@ == name && final(self).state() == st,
                Err(e) => r == Err::<Spanned<RcString>, CompileError>(e),
            },
            r is Ok ==> old(self).pos().cursor < final(self).pos().cursor,
    {
        let next = match self.eat() {
            Ok(t) => t,
            Err(e) => return Err(CompileError::Lex(e)),
        };
        match next.inner {
            Token::Ident(s) => Ok(next.span.wrap(s)),
            _ => Err(CompileError::ExpectedIdent { at: next.span }),
        }
    }

    /// The next token, without consuming it; the last span still becomes that token's span.
    pub fn peek(&mut self) -> (r: Result<Spanned<Token>, LexError>)
        requires
            old(self).wf(),
        ensures
            final(self).wf(),
            final(self).src() == old(self).src(),
            final(self).file() == old(self).file(),
            match lex_next(old(self).src(), old(self).file(), old(self).pos(), old(self).last()) {
                Ok((t, sp, q)) => {
                    &&& r matches Ok(tok)
                    &&& tok@ == (SpannedV { inner: t, span: sp })
                    &&& final(self).pos() == old(self).pos()
                    &&& final(self).last() == sp
                    &&& final(self).strings() == pool_after(old(self).strings(), t)
                },
                Err(e) => r == Err::<Spanned<Token>, LexError>(e),
            },
    {
        let cursor = self.cursor;
        let row = self.row;
        let col = self.col;
        let tok = self.eat();
        self.cursor = cursor;
        self.row = row;
        self.col = col;
        tok
    }

    /// The span of the next token, which is looked at but not consumed: the position and the
    /// last span stay as they were.
    pub fn peek_span(&mut self) -> (r: Result<Span, LexError>)
        requires
            old(self).wf(),
        ensures
            final(self).wf(),
            final(self).src() == old(self).src(),
            final(self).file() == old(self).file(),
            final(self).state() == old(self).state(),
            match lex_next(old(self).src(), old(self).file(), old(self).pos(), old(self).last()) {
                Ok((t, sp, q)) => r == Ok::<Span, LexError>(sp) && final(self).strings() == pool_after(
                    old(self).strings(),
                    t,
                ),
                Err(e) => r == Err::<Span, LexError>(e),
            },
    {
        let cursor = self.cursor;
        let row = self.row;
        let col = self.col;
        let last = self.last_span;
        let tok = self.eat();
        self.cursor = cursor;
        self.row = row;
        self.col = col;
        self.last_span = last;
        match tok {
            Ok(t) => Ok(t.span),
            Err(e) => Err(e),
        }
    }
}

} // verus!
