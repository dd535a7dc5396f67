//! The parser: a recursive-descent parser for items and statements, and a Pratt parser for
//! expressions, reading tokens from the lexer on demand.
use crate::error::CompileError;
use crate::hir::{
    lemma_sexprs_v, lemma_sexprs_v_push, lemma_sstmts_v, lemma_sstmts_v_push, sexpr_v, sexprs_v,
    sstmt_v, sstmts_v, decls_v, DeclsV, HirExpr, HirExprV, HirFunction, HirGlobal, HirObj, HirObjV,
    HirStmt, HirStmtV, HirStruct,
};
use crate::interner::Pool;
use crate::lexer::{
    ascii_bytes, lemma_lex_next, lemma_peek_eat, p_eat, LexPos, p_expect, p_expect_ident, p_is_next, p_mark, p_peek, Lexer, PState, punct_token,
};
use crate::ops::{op_level, op_spelling, BinOp, UnOp};
use crate::qual_type::RcString;
use crate::raw_type::{RawType, RawTypeV};
use crate::span::{default_span, merge_v, Span, Spanned, SpannedV};
use crate::token::{Token, TokenV};
use std::rc::Rc;
use vstd::prelude::*;

verus! {

/// A parse result: the value and the state after it.
pub type PR<T> = Result<(T, PState), CompileError>;

pub type TyV = SpannedV<RawTypeV>;

pub type ExV = SpannedV<HirExprV>;

pub type StV = SpannedV<HirStmtV>;

/// The span from `start` to the last token read, if both lie in the same file.
pub open spec fn p_commit(st: PState, start: Span) -> Result<Span, CompileError> {
    if start.file@ == st.last.file@ {
        Ok(merge_v(start, st.last))
    } else {
        Err(CompileError::SpanFileMismatch { at: st.last })
    }
}

/// `b` lies strictly further into `src` than `a`. The parse specifications below only recurse
/// on states that they have checked to lie further; the parser always meets these checks, so the
/// fallback values that follow a failed check are never the result.
pub open spec fn ahead(src: Seq<u8>, a: PState, b: PState) -> bool {
    b.pos.cursor <= src.len() && a.pos.cursor < b.pos.cursor
}

/// `b` lies no earlier in `src` than `a`.
pub open spec fn not_behind(src: Seq<u8>, a: PState, b: PState) -> bool {
    b.pos.cursor <= src.len() && a.pos.cursor <= b.pos.cursor
}

/// The binding power of a prefix operator token; every prefix operator binds alike.
pub open spec fn prefix_power_of(t: TokenV) -> Option<int> {
    match t {
        TokenV::Sizeof | TokenV::Bang | TokenV::Minus | TokenV::Star | TokenV::And | TokenV::At => Some(90),
        _ => None,
    }
}

/// The binding power that operands of `*`, `&` and casts are parsed with.
pub open spec fn prefix_power_v() -> int {
    prefix_power_of(TokenV::Star)->0
}

/// Left and right binding powers of infix operators. A left power below the right one makes
/// an operator left-associative; `=` is the other way round and so right-associative.
pub open spec fn infix_power_v(t: TokenV) -> Option<(int, int)> {
    match t {
        TokenV::Eq => Some((21, 20)),
        TokenV::AndAnd | TokenV::OrOr => Some((41, 40)),
        TokenV::EqEq | TokenV::BangEq => Some((50, 51)),
        TokenV::Lt | TokenV::Gt | TokenV::LtEq | TokenV::GtEq => Some((60, 61)),
        TokenV::Plus | TokenV::Minus => Some((70, 71)),
        TokenV::Star | TokenV::Slash => Some((80, 81)),
        TokenV::LParen | TokenV::LBrack | TokenV::Dot => Some((100, 101)),
        _ => None,
    }
}

/// The operator that an arithmetic or relational infix token stands for.
pub open spec fn bin_op_of(t: TokenV) -> Option<BinOp> {
    match t {
        TokenV::Plus => Some(BinOp::Add),
        TokenV::Minus => Some(BinOp::Sub),
        TokenV::Star => Some(BinOp::Mul),
        TokenV::Slash => Some(BinOp::Div),
        TokenV::BangEq => Some(BinOp::Ne),
        TokenV::EqEq => Some(BinOp::Eq),
        TokenV::LtEq => Some(BinOp::Le),
        TokenV::Lt => Some(BinOp::Lt),
        TokenV::GtEq => Some(BinOp::Ge),
        TokenV::Gt => Some(BinOp::Gt),
        _ => None,
    }
}

/// A binary operator is read from the punctuation that spells it: the punctuation `p` lexes
/// to a token that parses as the operator `op` exactly when `p` is the spelling of `op`.
pub proof fn law_operator_spelling(p: Seq<u8>, op: BinOp)
    requires
        op != BinOp::PtrAdd,
        op != BinOp::PtrSub,
    ensures
        (punct_token(p) matches Some(t) && bin_op_of(t) == Some(op)) <==> p == ascii_bytes(op_spelling(op)),
{
    assert(ascii_bytes(op_spelling(op)) =~= match op {
        BinOp::Add => seq![43u8],
        BinOp::Sub => seq![45u8],
        BinOp::Mul => seq![42u8],
        BinOp::Div => seq![47u8],
        BinOp::Eq => seq![61u8, 61u8],
        BinOp::Ne => seq![33u8, 61u8],
        BinOp::Lt => seq![60u8],
        BinOp::Le => seq![60u8, 61u8],
        BinOp::Gt => seq![62u8],
        _ => seq![62u8, 61u8],
    });
    if punct_token(p) matches Some(t) && bin_op_of(t) == Some(op) {
        assert(p =~= ascii_bytes(op_spelling(op)));
    }
}

/// Binding powers follow the operators' precedence: of two binary operator tokens, the one
/// whose operator binds tighter takes an operand from the other on either side, and of two
/// operators that bind alike, the left one takes the operand between them (left associativity).
pub proof fn law_precedence(t1: TokenV, t2: TokenV)
    requires
        (bin_op_of(t1) is Some),
        (bin_op_of(t2) is Some),
    ensures
        (infix_power_v(t1) matches Some((l1, r1)) && infix_power_v(t2) matches Some((l2, r2)) && {
            let (o1, o2) = (bin_op_of(t1)->0, bin_op_of(t2)->0);
            &&& op_level(o1) > op_level(o2) ==> l1 >= r2 && l2 < r1
            &&& op_level(o1) == op_level(o2) ==> l2 < r1
        }),
{
}

/// An operator between two operands builds the binary expression of the operator it spells,
/// with the operand already read on the left and the one read after the operator on the right.
pub proof fn law_infix_operands(
    src: Seq<u8>,
    file: &'static str,
    st0: PState,
    lhs: ExV,
    t: TokenV,
    opsp: Span,
    power: int,
    op: BinOp,
)
    requires
        op != BinOp::PtrAdd,
        op != BinOp::PtrSub,
        punct_token(ascii_bytes(op_spelling(op))) == Some(t),
    ensures
        (s_infix(src, file, st0, lhs, t, opsp, power) matches Ok((e, _)) ==> s_expr_bp(src, file, st0, power) matches Ok((rhs, _))
            && e.inner == (HirExprV::Bin { op, lhs: Box::new(lhs), rhs: Box::new(rhs) })),
{
    law_operator_spelling(ascii_bytes(op_spelling(op)), op);
}

/// A prefix operator builds the expression it spells: `!` negates a truth value, `-` negates a
/// number, `*` reads through a pointer and `&` takes an address.
pub proof fn law_prefix_operators(
    src: Seq<u8>,
    file: &'static str,
    st0: PState,
    p: Seq<u8>,
    tok: TokenV,
    tsp: Span,
    st2: PState,
)
    requires
        punct_token(p) == Some(tok),
    ensures
        (p == ascii_bytes(seq!['!']) && s_prefix_kind(src, file, st0, tok, tsp, st2) is Ok ==> s_prefix_kind(
            src, file, st0, tok, tsp, st2)->Ok_0.0 matches HirExprV::Un { op: UnOp::Not, .. }),
        (p == ascii_bytes(seq!['-']) && s_prefix_kind(src, file, st0, tok, tsp, st2) is Ok ==> s_prefix_kind(
            src, file, st0, tok, tsp, st2)->Ok_0.0 matches HirExprV::Un { op: UnOp::Neg, .. }),
        (p == ascii_bytes(seq!['*']) && s_prefix_kind(src, file, st0, tok, tsp, st2) is Ok ==> s_prefix_kind(
            src, file, st0, tok, tsp, st2)->Ok_0.0 is Deref),
        (p == ascii_bytes(seq!['&']) && s_prefix_kind(src, file, st0, tok, tsp, st2) is Ok ==> s_prefix_kind(
            src, file, st0, tok, tsp, st2)->Ok_0.0 is AddrOf),
{
    assert(ascii_bytes(seq!['!']) =~= seq![33u8]);
    assert(ascii_bytes(seq!['-']) =~= seq![45u8]);
    assert(ascii_bytes(seq!['*']) =~= seq![42u8]);
    assert(ascii_bytes(seq!['&']) =~= seq![38u8]);
}

/// A type: `*` followed by a type, or a type name.
pub open spec fn s_type(src: Seq<u8>, file: &'static str, st0: PState) -> PR<TyV>
    decreases src.len() - st0.pos.cursor,
{
    match p_mark(src, file, st0) {
        Err(e) => Err(e),
        Ok((_, start, st1)) => match p_peek(src, file, st1) {
            Err(e) => Err(e),
            Ok((tok, _, st2)) => {
                let r: PR<RawTypeV> = if tok == TokenV::Star {
                    match p_expect(src, file, st2, TokenV::Star) {
                        Err(e) => Err(e),
                        Ok(st3) => if ahead(src, st0, st3) {
                            match s_type(src, file, st3) {
                                Err(e) => Err(e),
                                Ok((inner, st4)) => Ok(
                                    (RawTypeV::Pointer(Box::new(inner.inner)), st4),
                                ),
                            }
                        } else {
                            arbitrary()
                        },
                    }
                } else {
                    match p_expect_ident(src, file, st2) {
                        Err(e) => Err(e),
                        Ok((name, st3)) => Ok((RawTypeV::Base(name.inner), st3)),
                    }
                };
                match r {
                    Err(e) => Err(e),
                    Ok((ty, st9)) => match p_commit(st9, start) {
                        Err(e) => Err(e),
                        Ok(sp) => Ok((SpannedV { inner: ty, span: sp }, st9)),
                    },
                }
            },
        },
    }
}

/// The result of a prefix form, spanned from `start` to the last token read.
pub open spec fn finish_prefix(r: PR<HirExprV>, start: Span) -> PR<ExV> {
    match r {
        Err(e) => Err(e),
        Ok((kind, st9)) => match p_commit(st9, start) {
            Err(e) => Err(e),
            Ok(s1) => match p_commit(st9, s1) {
                Err(e) => Err(e),
                Ok(s2) => Ok((SpannedV { inner: kind, span: s2 }, st9)),
            },
        },
    }
}

/// The operand of a prefix operator: an expression that binds tighter than `power`.
pub open spec fn s_operand(src: Seq<u8>, file: &'static str, st0: PState, st: PState, power: int) -> PR<
    ExV,
>
    decreases src.len() - st0.pos.cursor, 0int,
{
    if ahead(src, st0, st) {
        s_expr_bp(src, file, st, power)
    } else {
        arbitrary()
    }
}

/// `sizeof @(type)` or `sizeof(expr)`, after the `sizeof` token; `st0` is where the prefix form began.
pub open spec fn s_sizeof(src: Seq<u8>, file: &'static str, st0: PState, st2: PState) -> PR<HirExprV>
    decreases src.len() - st0.pos.cursor, 1int,
{
    match p_is_next(src, file, st2, TokenV::At) {
        Err(e) => Err(e),
        Ok((b, st3)) => if b {
            match p_expect(src, file, st3, TokenV::At) {
                Err(e) => Err(e),
                Ok(st4) => match p_expect(src, file, st4, TokenV::LParen) {
                    Err(e) => Err(e),
                    Ok(st5) => match s_type(src, file, st5) {
                        Err(e) => Err(e),
                        Ok((ty, st6)) => match p_expect(src, file, st6, TokenV::RParen) {
                            Err(e) => Err(e),
                            Ok(st7) => Ok((HirExprV::SizeOfTy { ty }, st7)),
                        },
                    },
                },
            }
        } else {
            match p_expect(src, file, st3, TokenV::LParen) {
                Err(e) => Err(e),
                Ok(st4) => match s_operand(src, file, st0, st4, 0) {
                    Err(e) => Err(e),
                    Ok((e1, st5)) => match p_expect(src, file, st5, TokenV::RParen) {
                        Err(e) => Err(e),
                        Ok(st6) => Ok((HirExprV::SizeOfExpr { expr: Box::new(e1) }, st6)),
                    },
                },
            }
        },
    }
}

/// `@(type) expr`, after the `@` token; `st0` is where the prefix form began.
pub open spec fn s_cast(src: Seq<u8>, file: &'static str, st0: PState, st2: PState) -> PR<HirExprV>
    decreases src.len() - st0.pos.cursor, 1int,
{
    match p_expect(src, file, st2, TokenV::LParen) {
        Err(e) => Err(e),
        Ok(st3) => match s_type(src, file, st3) {
            Err(e) => Err(e),
            Ok((ty, st4)) => match p_expect(src, file, st4, TokenV::RParen) {
                Err(e) => Err(e),
                Ok(st5) => match s_operand(src, file, st0, st5, prefix_power_v()) {
                    Err(e) => Err(e),
                    Ok((e1, st6)) => Ok((HirExprV::Cast { target_ty: ty, rhs: Box::new(e1) }, st6)),
                },
            },
        },
    }
}

/// The form that the first token `tok` (read with span `tsp`, leaving state `st2`) begins.
pub open spec fn s_prefix_kind(
    src: Seq<u8>,
    file: &'static str,
    st0: PState,
    tok: TokenV,
    tsp: Span,
    st2: PState,
) -> PR<HirExprV>
    decreases src.len() - st0.pos.cursor, 2int,
{
    match tok {
        TokenV::Sizeof => s_sizeof(src, file, st0, st2),
        TokenV::Bang => match s_operand(src, file, st0, st2, 0) {
            Err(e) => Err(e),
            Ok((e1, st3)) => Ok((HirExprV::Un { op: UnOp::Not, rhs: Box::new(e1) }, st3)),
        },
        TokenV::Ident(x) => Ok((HirExprV::Ident(x), st2)),
        TokenV::Minus => match s_operand(src, file, st0, st2, 0) {
            Err(e) => Err(e),
            Ok((e1, st3)) => Ok((HirExprV::Un { op: UnOp::Neg, rhs: Box::new(e1) }, st3)),
        },
        TokenV::Bool(x) => Ok((HirExprV::Bool(x), st2)),
        TokenV::Int(x) => Ok((HirExprV::Num(x), st2)),
        TokenV::LParen => match s_operand(src, file, st0, st2, 0) {
            Err(e) => Err(e),
            Ok((e1, st3)) => match p_expect(src, file, st3, TokenV::RParen) {
                Err(e) => Err(e),
                Ok(st4) => Ok((e1.inner, st4)),
            },
        },
        TokenV::Star => match s_operand(src, file, st0, st2, prefix_power_v()) {
            Err(e) => Err(e),
            Ok((e1, st3)) => Ok((HirExprV::Deref { inner: Box::new(e1) }, st3)),
        },
        TokenV::And => match s_operand(src, file, st0, st2, prefix_power_v()) {
            Err(e) => Err(e),
            Ok((e1, st3)) => Ok((HirExprV::AddrOf { inner: Box::new(e1) }, st3)),
        },
        TokenV::At => s_cast(src, file, st0, st2),
        _ => Err(CompileError::ExpectedExpression { at: tsp }),
    }
}

/// A prefix form: `sizeof @(type)`, `sizeof(expr)`, `!e`, `-e`, `*e`, `&e`, `@(type) e`, a
/// name, a literal, or a parenthesized expression.
pub open spec fn s_prefix(src: Seq<u8>, file: &'static str, st0: PState) -> PR<ExV>
    decreases src.len() - st0.pos.cursor, 3int,
{
    match p_mark(src, file, st0) {
        Err(e) => Err(e),
        Ok((_, start, st1)) => match p_eat(src, file, st1) {
            Err(e) => Err(e),
            Ok((tok, tsp, st2)) => finish_prefix(s_prefix_kind(src, file, st0, tok, tsp, st2), start),
        },
    }
}

/// An expression whose operators all bind at least as tightly as `min` (Pratt parsing).
pub open spec fn s_expr_bp(src: Seq<u8>, file: &'static str, st0: PState, min: int) -> PR<ExV>
    decreases src.len() - st0.pos.cursor, 4int,
{
    match s_prefix(src, file, st0) {
        Err(e) => Err(e),
        Ok((lhs, st1)) => if not_behind(src, st0, st1) {
            s_infix_loop(src, file, st1, lhs, min)
        } else {
            arbitrary()
        },
    }
}

/// Extends `lhs` with infix operators while they bind at least as tightly as `min`.
pub open spec fn s_infix_loop(
    src: Seq<u8>,
    file: &'static str,
    st0: PState,
    lhs: ExV,
    min: int,
) -> PR<ExV>
    decreases src.len() - st0.pos.cursor, 3int,
{
    match p_peek(src, file, st0) {
        Err(e) => Err(e),
        Ok((op, opsp, st1)) => match infix_power_v(op) {
            None => Ok((lhs, st1)),
            Some((l, r)) => if l < min {
                Ok((lhs, st1))
            } else {
                match p_eat(src, file, st1) {
                    Err(e) => Err(e),
                    Ok((_, _, st2)) => if ahead(src, st0, st2) {
                        match s_infix(src, file, st2, lhs, op, opsp, r) {
                            Err(e) => Err(e),
                            Ok((lhs2, st3)) => if not_behind(src, st2, st3) {
                                s_infix_loop(src, file, st3, lhs2, min)
                            } else {
                                arbitrary()
                            },
                        }
                    } else {
                        arbitrary()
                    },
                }
            },
        },
    }
}

/// The arguments of a call, up to (not including) the closing parenthesis, appended to `acc`.
pub open spec fn s_call_args(src: Seq<u8>, file: &'static str, st0: PState, acc: Seq<ExV>) -> PR<
    Seq<ExV>,
>
    decreases src.len() - st0.pos.cursor, 5int,
{
    match p_is_next(src, file, st0, TokenV::RParen) {
        Err(e) => Err(e),
        Ok((b, st1)) => if b {
            Ok((acc, st1))
        } else {
            let sep: Result<PState, CompileError> = if acc.len() > 0 {
                p_expect(src, file, st1, TokenV::Comma)
            } else {
                Ok(st1)
            };
            match sep {
                Err(e) => Err(e),
                Ok(st2) => if not_behind(src, st0, st2) {
                    match s_expr_bp(src, file, st2, 0) {
                        Err(e) => Err(e),
                        Ok((e1, st3)) => if ahead(src, st0, st3) {
                            s_call_args(src, file, st3, acc.push(e1))
                        } else {
                            arbitrary()
                        },
                    }
                } else {
                    arbitrary()
                },
            }
        },
    }
}

/// The rest of an infix form whose operator `op` (read with span `opsp`) was just consumed.
pub open spec fn s_infix(
    src: Seq<u8>,
    file: &'static str,
    st0: PState,
    lhs: ExV,
    op: TokenV,
    opsp: Span,
    power: int,
) -> PR<ExV>
    decreases src.len() - st0.pos.cursor, 6int,
{
    let r: PR<HirExprV> = match op {
        TokenV::LBrack => match s_expr_bp(src, file, st0, 0) {
            Err(e) => Err(e),
            Ok((idx, st1)) => match p_expect(src, file, st1, TokenV::RBrack) {
                Err(e) => Err(e),
                Ok(st2) => Ok((HirExprV::Index { base: Box::new(lhs), index: Box::new(idx) }, st2)),
            },
        },
        TokenV::Dot => match p_expect_ident(src, file, st0) {
            Err(e) => Err(e),
            Ok((f, st1)) => Ok((HirExprV::Field { base: Box::new(lhs), field: f.inner }, st1)),
        },
        TokenV::LParen => match s_call_args(src, file, st0, Seq::empty()) {
            Err(e) => Err(e),
            Ok((args, st1)) => match p_expect(src, file, st1, TokenV::RParen) {
                Err(e) => Err(e),
                Ok(st2) => Ok((HirExprV::Call { callee: Box::new(lhs), args }, st2)),
            },
        },
        TokenV::Eq => match s_expr_bp(src, file, st0, power) {
            Err(e) => Err(e),
            Ok((rhs, st1)) => Ok((HirExprV::Assign { lhs: Box::new(lhs), rhs: Box::new(rhs) }, st1)),
        },
        _ => match bin_op_of(op) {
            Some(bop) => match s_expr_bp(src, file, st0, power) {
                Err(e) => Err(e),
                Ok((rhs, st1)) => Ok(
                    (HirExprV::Bin { op: bop, lhs: Box::new(lhs), rhs: Box::new(rhs) }, st1),
                ),
            },
            None => Err(CompileError::ExpectedInfixOperator { at: opsp }),
        },
    };
    match r {
        Err(e) => Err(e),
        Ok((kind, st9)) => match p_commit(st9, lhs.span) {
            Err(e) => Err(e),
            Ok(sp) => Ok((SpannedV { inner: kind, span: sp }, st9)),
        },
    }
}

/// A block at `st`, provided that `st` lies further than `st0`.
pub open spec fn s_sub_block(src: Seq<u8>, file: &'static str, st0: PState, st: PState) -> PR<StV>
    decreases src.len() - st0.pos.cursor, 0int,
{
    if ahead(src, st0, st) {
        s_block(src, file, st)
    } else {
        arbitrary()
    }
}

/// `let name [: type] = expr;`, after the `let` token.
pub open spec fn s_let(src: Seq<u8>, file: &'static str, st3: PState) -> PR<HirStmtV> {
    match p_expect_ident(src, file, st3) {
        Err(e) => Err(e),
        Ok((lhs, st4)) => match p_is_next(src, file, st4, TokenV::Colon) {
            Err(e) => Err(e),
            Ok((b, st5)) => {
                let tyr: PR<Option<TyV>> = if b {
                    match p_expect(src, file, st5, TokenV::Colon) {
                        Err(e) => Err(e),
                        Ok(st6) => match s_type(src, file, st6) {
                            Err(e) => Err(e),
                            Ok((t, st7)) => Ok((Some(t), st7)),
                        },
                    }
                } else {
                    Ok((None, st5))
                };
                match tyr {
                    Err(e) => Err(e),
                    Ok((ty, st8)) => match p_expect(src, file, st8, TokenV::Eq) {
                        Err(e) => Err(e),
                        Ok(st9) => match s_expr_bp(src, file, st9, 0) {
                            Err(e) => Err(e),
                            Ok((rhs, st10)) => match p_expect(src, file, st10, TokenV::Semi) {
                                Err(e) => Err(e),
                                Ok(st11) => Ok(
                                    (HirStmtV::LetAssign { name: lhs, ty, value: rhs }, st11),
                                ),
                            },
                        },
                    },
                }
            },
        },
    }
}

/// `return [expr];`, after the `return` token.
pub open spec fn s_return(src: Seq<u8>, file: &'static str, st3: PState) -> PR<HirStmtV> {
    match p_is_next(src, file, st3, TokenV::Semi) {
        Err(e) => Err(e),
        Ok((b, st4)) => {
            let vr: PR<Option<ExV>> = if b {
                Ok((None, st4))
            } else {
                match s_expr_bp(src, file, st4, 0) {
                    Err(e) => Err(e),
                    Ok((v, st5)) => Ok((Some(v), st5)),
                }
            };
            match vr {
                Err(e) => Err(e),
                Ok((v, st6)) => match p_expect(src, file, st6, TokenV::Semi) {
                    Err(e) => Err(e),
                    Ok(st7) => Ok((HirStmtV::Return(v), st7)),
                },
            }
        },
    }
}

/// The `else` part of an `if` statement at `st5`, after its `then` block; `st0` is where the
/// statement began. A missing `else` is an empty block with the empty span.
pub open spec fn s_else(src: Seq<u8>, file: &'static str, st0: PState, st5: PState) -> PR<StV>
    decreases src.len() - st0.pos.cursor, 0int,
{
    match p_is_next(src, file, st5, TokenV::Else) {
        Err(e) => Err(e),
        Ok((b, st6)) => if b {
            match p_eat(src, file, st6) {
                Err(e) => Err(e),
                Ok((_, _, st7)) => match p_is_next(src, file, st7, TokenV::If) {
                    Err(e) => Err(e),
                    Ok((b2, st8)) => if !ahead(src, st0, st8) {
                        arbitrary()
                    } else if b2 {
                        s_stmt(src, file, st8)
                    } else {
                        s_block(src, file, st8)
                    },
                },
            }
        } else {
            Ok((SpannedV { inner: HirStmtV::Block(Seq::empty()), span: default_span() }, st6))
        },
    }
}

/// `if cond { .. } [else if .. | else { .. }]`, after the `if` token; `st0` is where the
/// statement began.
pub open spec fn s_if(src: Seq<u8>, file: &'static str, st0: PState, st3: PState) -> PR<HirStmtV>
    decreases src.len() - st0.pos.cursor, 1int,
{
    match s_expr_bp(src, file, st3, 0) {
        Err(e) => Err(e),
        Ok((cond, st4)) => match s_sub_block(src, file, st0, st4) {
            Err(e) => Err(e),
            Ok((then_, st5)) => match s_else(src, file, st0, st5) {
                Err(e) => Err(e),
                Ok((else_, st9)) => Ok(
                    (HirStmtV::If { cond, then_: Box::new(then_), else_: Box::new(else_) }, st9),
                ),
            },
        },
    }
}

/// `while cond { .. }`, after the `while` token; `st0` is where the statement began.
pub open spec fn s_while(src: Seq<u8>, file: &'static str, st0: PState, st3: PState) -> PR<HirStmtV>
    decreases src.len() - st0.pos.cursor, 1int,
{
    match s_expr_bp(src, file, st3, 0) {
        Err(e) => Err(e),
        Ok((cond, st4)) => match s_sub_block(src, file, st0, st4) {
            Err(e) => Err(e),
            Ok((body, st5)) => Ok((HirStmtV::While { cond, body: Box::new(body) }, st5)),
        },
    }
}

/// The statement that begins with the token `tok` (looked at, not consumed; state `st2`).
pub open spec fn s_stmt_kind(src: Seq<u8>, file: &'static str, st0: PState, tok: TokenV, st2: PState) -> PR<
    HirStmtV,
>
    decreases src.len() - st0.pos.cursor, 2int,
{
    match tok {
        TokenV::Let => match p_eat(src, file, st2) {
            Err(e) => Err(e),
            Ok((_, _, st3)) => s_let(src, file, st3),
        },
        TokenV::If => match p_eat(src, file, st2) {
            Err(e) => Err(e),
            Ok((_, _, st3)) => s_if(src, file, st0, st3),
        },
        TokenV::Break => match p_eat(src, file, st2) {
            Err(e) => Err(e),
            Ok((_, _, st3)) => match p_expect(src, file, st3, TokenV::Semi) {
                Err(e) => Err(e),
                Ok(st4) => Ok((HirStmtV::Break, st4)),
            },
        },
        TokenV::Continue => match p_eat(src, file, st2) {
            Err(e) => Err(e),
            Ok((_, _, st3)) => match p_expect(src, file, st3, TokenV::Semi) {
                Err(e) => Err(e),
                Ok(st4) => Ok((HirStmtV::Continue, st4)),
            },
        },
        TokenV::Return => match p_eat(src, file, st2) {
            Err(e) => Err(e),
            Ok((_, _, st3)) => s_return(src, file, st3),
        },
        TokenV::While => match p_eat(src, file, st2) {
            Err(e) => Err(e),
            Ok((_, _, st3)) => s_while(src, file, st0, st3),
        },
        _ => match s_expr_bp(src, file, st2, 0) {
            Err(e) => Err(e),
            Ok((ex, st3)) => match p_expect(src, file, st3, TokenV::Semi) {
                Err(e) => Err(e),
                Ok(st4) => Ok((HirStmtV::Expr(ex), st4)),
            },
        },
    }
}

/// A statement, spanned from its first token to the last token read.
pub open spec fn s_stmt(src: Seq<u8>, file: &'static str, st0: PState) -> PR<StV>
    decreases src.len() - st0.pos.cursor, 3int,
{
    match p_mark(src, file, st0) {
        Err(e) => Err(e),
        Ok((_, start, st1)) => match p_peek(src, file, st1) {
            Err(e) => Err(e),
            Ok((tok, _, st2)) => match s_stmt_kind(src, file, st0, tok, st2) {
                Err(e) => Err(e),
                Ok((kind, st9)) => match p_commit(st9, start) {
                    Err(e) => Err(e),
                    Ok(sp) => Ok((SpannedV { inner: kind, span: sp }, st9)),
                },
            },
        },
    }
}

/// An empty block statement.
pub open spec fn is_empty_block(s: StV) -> bool {
    s.inner matches HirStmtV::Block(v) && v.len() == 0
}

/// The statements of a block up to (not including) its closing brace, appended to `acc`;
/// empty blocks are left out.
pub open spec fn s_block_stmts(src: Seq<u8>, file: &'static str, st0: PState, acc: Seq<StV>) -> PR<
    Seq<StV>,
>
    decreases src.len() - st0.pos.cursor, 4int,
{
    match p_is_next(src, file, st0, TokenV::RCurly) {
        Err(e) => Err(e),
        Ok((b, st1)) => if b {
            Ok((acc, st1))
        } else if not_behind(src, st0, st1) {
            match s_stmt(src, file, st1) {
                Err(e) => Err(e),
                Ok((st_, st2)) => if ahead(src, st0, st2) {
                    s_block_stmts(
                        src,
                        file,
                        st2,
                        if is_empty_block(st_) {
                            acc
                        } else {
                            acc.push(st_)
                        },
                    )
                } else {
                    arbitrary()
                },
            }
        } else {
            arbitrary()
        },
    }
}

/// The end of a block whose statements came out as `r`: its closing brace, and the span
/// from `start` to it.
pub open spec fn s_block_close(src: Seq<u8>, file: &'static str, start: Span, r: PR<Seq<StV>>) -> PR<StV> {
    match r {
        Err(e) => Err(e),
        Ok((stmts, st3)) => match p_expect(src, file, st3, TokenV::RCurly) {
            Err(e) => Err(e),
            Ok(st4) => match p_commit(st4, start) {
                Err(e) => Err(e),
                Ok(sp) => Ok((SpannedV { inner: HirStmtV::Block(stmts), span: sp }, st4)),
            },
        },
    }
}

/// `{ statements }`.
pub open spec fn s_block(src: Seq<u8>, file: &'static str, st0: PState) -> PR<StV>
    decreases src.len() - st0.pos.cursor, 5int,
{
    match p_mark(src, file, st0) {
        Err(e) => Err(e),
        Ok((_, start, st1)) => match p_expect(src, file, st1, TokenV::LCurly) {
            Err(e) => Err(e),
            Ok(st2) => if not_behind(src, st0, st2) {
                s_block_close(src, file, start, s_block_stmts(src, file, st2, Seq::empty()))
            } else {
                arbitrary()
            },
        },
    }
}

/// `x` spanned from `start` to the last token read at `st`.
pub open spec fn s_spanned<V>(x: V, st: PState, start: Span) -> PR<SpannedV<V>> {
    match p_commit(st, start) {
        Err(e) => Err(e),
        Ok(sp) => Ok((SpannedV { inner: x, span: sp }, st)),
    }
}

/// A declaration `name: type`.
pub open spec fn s_decl(src: Seq<u8>, file: &'static str, st0: PState) -> PR<
    (SpannedV<Seq<char>>, TyV),
> {
    match p_expect_ident(src, file, st0) {
        Err(e) => Err(e),
        Ok((name, st1)) => match p_expect(src, file, st1, TokenV::Colon) {
            Err(e) => Err(e),
            Ok(st2) => match s_type(src, file, st2) {
                Err(e) => Err(e),
                Ok((ty, st3)) => Ok(((name, ty), st3)),
            },
        },
    }
}

/// Struct fields `name: type;` up to (not including) the closing brace, appended to `acc`.
pub open spec fn s_fields(src: Seq<u8>, file: &'static str, st0: PState, acc: DeclsV) -> PR<DeclsV>
    decreases src.len() - st0.pos.cursor,
{
    match p_is_next(src, file, st0, TokenV::RCurly) {
        Err(e) => Err(e),
        Ok((b, st1)) => if b {
            Ok((acc, st1))
        } else {
            match s_decl(src, file, st1) {
                Err(e) => Err(e),
                Ok((d, st2)) => match p_expect(src, file, st2, TokenV::Semi) {
                    Err(e) => Err(e),
                    Ok(st3) => if ahead(src, st0, st3) {
                        s_fields(src, file, st3, acc.push(d))
                    } else {
                        arbitrary()
                    },
                },
            }
        },
    }
}

/// `struct Name { fields }`.
pub open spec fn s_struct(src: Seq<u8>, file: &'static str, st0: PState) -> PR<SpannedV<HirObjV>> {
    match p_mark(src, file, st0) {
        Err(e) => Err(e),
        Ok((_, start, st1)) => match p_expect(src, file, st1, TokenV::Struct) {
            Err(e) => Err(e),
            Ok(st2) => match p_expect_ident(src, file, st2) {
                Err(e) => Err(e),
                Ok((name, st3)) => match p_expect(src, file, st3, TokenV::LCurly) {
                    Err(e) => Err(e),
                    Ok(st4) => match s_fields(src, file, st4, Seq::empty()) {
                        Err(e) => Err(e),
                        Ok((fields, st5)) => match p_expect(src, file, st5, TokenV::RCurly) {
                            Err(e) => Err(e),
                            Ok(st6) => s_spanned(HirObjV::Struct { name, fields }, st6, start),
                        },
                    },
                },
            },
        },
    }
}

/// `global name: type = expr;`.
pub open spec fn s_global(src: Seq<u8>, file: &'static str, st0: PState) -> PR<SpannedV<HirObjV>> {
    match p_mark(src, file, st0) {
        Err(e) => Err(e),
        Ok((_, start, st1)) => match p_expect(src, file, st1, TokenV::Global) {
            Err(e) => Err(e),
            Ok(st2) => match s_decl(src, file, st2) {
                Err(e) => Err(e),
                Ok(((name, ty), st3)) => match p_expect(src, file, st3, TokenV::Eq) {
                    Err(e) => Err(e),
                    Ok(st4) => match s_expr_bp(src, file, st4, 0) {
                        Err(e) => Err(e),
                        Ok((rhs, st5)) => match p_expect(src, file, st5, TokenV::Semi) {
                            Err(e) => Err(e),
                            Ok(st6) => s_spanned(HirObjV::Global { name, ty, rhs }, st6, start),
                        },
                    },
                },
            },
        },
    }
}

/// Function parameters `name: type`, separated by commas, a trailing comma allowed, up to (not
/// including) the closing parenthesis, appended to `acc`.
pub open spec fn s_params(src: Seq<u8>, file: &'static str, st0: PState, acc: DeclsV) -> PR<DeclsV>
    decreases src.len() - st0.pos.cursor,
{
    match p_peek(src, file, st0) {
        Err(e) => Err(e),
        Ok((t, _, st1)) => if t == TokenV::RParen {
            Ok((acc, st1))
        } else {
            let sep: Result<(bool, PState), CompileError> = if acc.len() == 0 {
                Ok((false, st1))
            } else {
                match p_expect(src, file, st1, TokenV::Comma) {
                    Err(e) => Err(e),
                    Ok(st2) => p_is_next(src, file, st2, TokenV::RParen),
                }
            };
            match sep {
                Err(e) => Err(e),
                Ok((done, st3)) => if done {
                    Ok((acc, st3))
                } else {
                    match s_decl(src, file, st3) {
                        Err(e) => Err(e),
                        Ok((d, st4)) => if ahead(src, st0, st4) {
                            s_params(src, file, st4, acc.push(d))
                        } else {
                            arbitrary()
                        },
                    }
                },
            }
        },
    }
}

/// The name of the type of functions that return nothing.
pub open spec fn void_name() -> Seq<char> {
    seq!['v', 'o', 'i', 'd']
}

/// The return type of a function: `: type`, or, right before the body, `void`, spanned by the
/// body's opening brace.
pub open spec fn s_returns(src: Seq<u8>, file: &'static str, st0: PState) -> PR<TyV> {
    match p_peek(src, file, st0) {
        Err(e) => Err(e),
        Ok((t, sp, st1)) => if t == TokenV::Colon {
            match p_expect(src, file, st1, TokenV::Colon) {
                Err(e) => Err(e),
                Ok(st2) => s_type(src, file, st2),
            }
        } else if t == TokenV::LCurly {
            match p_mark(src, file, st1) {
                Err(e) => Err(e),
                Ok((_, start, st2)) => s_spanned(RawTypeV::Base(void_name()), st2, start),
            }
        } else {
            Err(CompileError::ExpectedReturnTypeOrBody { at: sp })
        },
    }
}

/// `fn name(params) [: type] { body }`.
pub open spec fn s_func(src: Seq<u8>, file: &'static str, st0: PState) -> PR<SpannedV<HirObjV>> {
    match p_mark(src, file, st0) {
        Err(e) => Err(e),
        Ok((_, start, st1)) => match p_expect(src, file, st1, TokenV::Fn) {
            Err(e) => Err(e),
            Ok(st2) => match p_expect_ident(src, file, st2) {
                Err(e) => Err(e),
                Ok((name, st3)) => match p_expect(src, file, st3, TokenV::LParen) {
                    Err(e) => Err(e),
                    Ok(st4) => match s_params(src, file, st4, Seq::empty()) {
                        Err(e) => Err(e),
                        Ok((args, st5)) => match p_expect(src, file, st5, TokenV::RParen) {
                            Err(e) => Err(e),
                            Ok(st6) => match s_returns(src, file, st6) {
                                Err(e) => Err(e),
                                Ok((return_type, st7)) => match s_block(src, file, st7) {
                                    Err(e) => Err(e),
                                    Ok((body, st8)) => s_spanned(
                                        HirObjV::Fn { name, return_type, args, body },
                                        st8,
                                        start,
                                    ),
                                },
                            },
                        },
                    },
                },
            },
        },
    }
}

/// A top-level item, told apart by its first token.
#[verifier::opaque]
pub open spec fn s_obj(src: Seq<u8>, file: &'static str, st0: PState) -> PR<SpannedV<HirObjV>> {
    match p_peek(src, file, st0) {
        Err(e) => Err(e),
        Ok((t, sp, st1)) => match t {
            TokenV::Fn => s_func(src, file, st1),
            TokenV::Global => s_global(src, file, st1),
            TokenV::Struct => s_struct(src, file, st1),
            _ => Err(CompileError::ExpectedItem { at: sp }),
        },
    }
}

/// The items from `st0` to the end of input, appended to `acc`.
pub open spec fn s_items(
    src: Seq<u8>,
    file: &'static str,
    st0: PState,
    acc: Seq<SpannedV<HirObjV>>,
) -> PR<Seq<SpannedV<HirObjV>>>
    decreases src.len() - st0.pos.cursor,
{
    match p_peek(src, file, st0) {
        Err(e) => Err(e),
        Ok((t, _, st1)) => if t == TokenV::Eof {
            Ok((acc, st1))
        } else {
            match s_obj(src, file, st1) {
                Err(e) => Err(e),
                Ok((o, st2)) => if ahead(src, st0, st2) {
                    s_items(src, file, st2, acc.push(o))
                } else {
                    arbitrary()
                },
            }
        },
    }
}

/// The state of a lexer at the start of the file `file`.
pub open spec fn start_state(file: &'static str) -> PState {
    PState {
        pos: LexPos { cursor: 0, row: 0, col: 0 },
        last: Span { file, lo: 0, hi: 0, row: 0, col: 0 },
    }
}

/// What parsing the whole of `src`, the content of `file`, gives.
pub open spec fn parse_result(src: Seq<u8>, file: &'static str) -> Result<Seq<SpannedV<HirObjV>>, CompileError> {
    match s_items(src, file, start_state(file), Seq::empty()) {
        Err(e) => Err(e),
        Ok((items, _)) => Ok(items),
    }
}

/// The values of a sequence of items.
pub open spec fn objs_v(s: Seq<Spanned<HirObj>>) -> Seq<SpannedV<HirObjV>> {
    s.map_values(|o: Spanned<HirObj>| o@)
}

/// The binding power of a prefix operator token.
pub fn prefix_power(kind: &Token) -> (r: Option<u32>)
    ensures
        match prefix_power_of(kind@) {
            Some(p) => r == Some(p as u32),
            None => r is None,
        },
{
    match kind {
        Token::Sizeof | Token::Bang | Token::Minus | Token::Star | Token::And | Token::At => Some(90),
        _ => None,
    }
}

/// Left and right binding powers of an infix operator token.
pub fn infix_power(t: &Token) -> (r: Option<(u32, u32)>)
    ensures
        match infix_power_v(t@) {
            Some((l, rp)) => r == Some((l as u32, rp as u32)),
            None => r is None,
        },
{
    match t {
        Token::Eq => Some((21, 20)),
        Token::AndAnd | Token::OrOr => Some((41, 40)),
        Token::EqEq | Token::BangEq => Some((50, 51)),
        Token::Lt | Token::Gt | Token::LtEq | Token::GtEq => Some((60, 61)),
        Token::Plus | Token::Minus => Some((70, 71)),
        Token::Star | Token::Slash => Some((80, 81)),
        Token::LParen | Token::LBrack | Token::Dot => Some((100, 101)),
        _ => None,
    }
}

fn bin_op_of_token(t: &Token) -> (r: Option<BinOp>)
    ensures
        r == bin_op_of(t@),
{
    match t {
        Token::Plus => Some(BinOp::Add),
        Token::Minus => Some(BinOp::Sub),
        Token::Star => Some(BinOp::Mul),
        Token::Slash => Some(BinOp::Div),
        Token::BangEq => Some(BinOp::Ne),
        Token::EqEq => Some(BinOp::Eq),
        Token::LtEq => Some(BinOp::Le),
        Token::Lt => Some(BinOp::Lt),
        Token::GtEq => Some(BinOp::Ge),
        Token::Gt => Some(BinOp::Gt),
        _ => None,
    }
}

/// The parser over one source file.
pub struct Parser {
    lexer: Lexer,
    raw_types: Pool<RawType>,
}

impl Parser {
    pub closed spec fn src(&self) -> Seq<u8> {
        self.lexer.src()
    }

    pub closed spec fn file(&self) -> &'static str {
        self.lexer.file()
    }

    pub closed spec fn state(&self) -> PState {
        self.lexer.state()
    }

    pub closed spec fn wf(&self) -> bool {
        self.lexer.wf()
    }

    /// A parser at the start of `source`, the content of the file named `filename`.
    pub fn new(filename: &'static str, source: Vec<u8>) -> (r: Parser)
        ensures
            r.wf(),
            r.src() == source@,
            r.file() == filename,
            r.state() == start_state(filename),
    {
        Parser { lexer: Lexer::new(filename, source), raw_types: Pool::new() }
    }

    /// The span of the next token, which is looked at but not consumed.
    fn mark(&mut self) -> (r: Result<Span, CompileError>)
        requires
            old(self).wf(),
        ensures
            final(self).wf(),
            final(self).src() == old(self).src(),
            final(self).file() == old(self).file(),
            final(self).state() == old(self).state(),
            match p_mark(old(self).src(), old(self).file(), old(self).state()) {
                Ok((_, sp, _)) => r == Ok::<Span, CompileError>(sp),
                Err(e) => r == Err::<Span, CompileError>(e),
            },
    {
        match self.lexer.peek_span() {
            Ok(sp) => Ok(sp),
            Err(e) => Err(CompileError::Lex(e)),
        }
    }

    /// Spans `inner` from `start` to the last token read.
    fn commit<T>(&self, inner: T, start: Span) -> (r: Result<Spanned<T>, CompileError>)
        ensures
            match p_commit(self.state(), start) {
                Ok(sp) => r matches Ok(x) && x.inner == inner && x.span == sp,
                Err(e) => r matches Err(e2) && e2 == e,
            },
    {
        let last = self.lexer.last_span();
        if crate::span::str_eq(start.file, last.file) {
            Ok(Spanned::new(inner, start.merge(last)))
        } else {
            Err(CompileError::SpanFileMismatch { at: last })
        }
    }

    /// Looks at the next token.
    fn peek(&mut self) -> (r: Result<Spanned<Token>, CompileError>)
        requires
            old(self).wf(),
        ensures
            final(self).wf(),
            final(self).src() == old(self).src(),
            final(self).file() == old(self).file(),
            match p_peek(old(self).src(), old(self).file(), old(self).state()) {
                Ok((t, sp, st)) => r matches Ok(x) && x@ == (SpannedV { inner: t, span: sp })
                    && final(self).state() == st,
                Err(e) => r matches Err(e2) && e2 == e,
            },
    {
        match self.lexer.peek() {
            Ok(t) => Ok(t),
            Err(e) => Err(CompileError::Lex(e)),
        }
    }

    /// Consumes the next token.
    fn eat(&mut self) -> (r: Result<Spanned<Token>, CompileError>)
        requires
            old(self).wf(),
        ensures
            final(self).wf(),
            final(self).src() == old(self).src(),
            final(self).file() == old(self).file(),
            match p_eat(old(self).src(), old(self).file(), old(self).state()) {
                Ok((t, sp, st)) => r matches Ok(x) && x@ == (SpannedV { inner: t, span: sp })
                    && final(self).state() == st,
                Err(e) => r matches Err(e2) && e2 == e,
            },
            match r {
                Ok(x) => old(self).state().pos.cursor <= final(self).state().pos.cursor && (x@.inner
                    != TokenV::Eof ==> old(self).state().pos.cursor < final(self).state().pos.cursor),
                Err(_) => true,
            },
    {
        match self.lexer.eat() {
            Ok(t) => Ok(t),
            Err(e) => Err(CompileError::Lex(e)),
        }
    }

    fn expect(&mut self, t: Token) -> (r: Result<(), CompileError>)
        requires
            old(self).wf(),
        ensures
            final(self).wf(),
            final(self).src() == old(self).src(),
            final(self).file() == old(self).file(),
            match p_expect(old(self).src(), old(self).file(), old(self).state(), t@) {
                Ok(st) => r is Ok && final(self).state() == st,
                Err(e) => r matches Err(e2) && e2 == e,
            },
            r is Ok && t@ != TokenV::Eof ==> old(self).state().pos.cursor < final(self).state().pos.cursor,
            r is Ok ==> old(self).state().pos.cursor <= final(self).state().pos.cursor,
    {
        self.lexer.expect(t)
    }

    fn is_next(&mut self, t: Token) -> (r: Result<bool, CompileError>)
        requires
            old(self).wf(),
        ensures
            final(self).wf(),
            final(self).src() == old(self).src(),
            final(self).file() == old(self).file(),
            match p_is_next(old(self).src(), old(self).file(), old(self).state(), t@) {
                Ok((b, st)) => r == Ok::<bool, CompileError>(b) && final(self).state() == st,
                Err(e) => r matches Err(e2) && e2 == e,
            },
    {
        self.lexer.is_next(t)
    }

    fn expect_ident(&mut self) -> (r: Result<Spanned<RcString>, CompileError>)
        requires
            old(self).wf(),
        ensures
            final(self).wf(),
            final(self).src() == old(self).src(),
            final(self).file() == old(self).file(),
            match p_expect_ident(old(self).src(), old(self).file(), old(self).state()) {
                Ok((name, st)) => r matches Ok(n) && n@ == name && final(self).state() == st,
                Err(e) => r matches Err(e2) && e2 == e,
            },
            r is Ok ==> old(self).state().pos.cursor < final(self).state().pos.cursor,
    {
        self.lexer.expect_ident()
    }

    /// The well-formed lexer's position lies within the source.
    proof fn lemma_bounded(&self)
        requires
            self.wf(),
        ensures
            self.state().pos.cursor <= self.src().len(),
    {
        self.lexer.lemma_wf_pos();
    }

    /// Parses a type: `*T` or a type name.
    fn parse_type(&mut self) -> (r: Result<Spanned<Rc<RawType>>, CompileError>)
        requires
            old(self).wf(),
        ensures
            final(self).wf(),
            final(self).src() == old(self).src(),
            final(self).file() == old(self).file(),
            match s_type(old(self).src(), old(self).file(), old(self).state()) {
                Ok((t, st)) => r matches Ok(x) && x@ == t && final(self).state() == st,
                Err(e) => r matches Err(e2) && e2 == e,
            },
            r is Ok ==> old(self).state().pos.cursor < final(self).state().pos.cursor,
        decreases old(self).src().len() - old(self).state().pos.cursor,
    {
        let span_start = self.mark()?;
        let tok = self.peek()?;
        let ty = match tok.inner {
            Token::Star => {
                self.expect(Token::Star)?;
                proof {
                    self.lemma_bounded();
                }
                let inner = self.parse_type()?;
                RawType::Pointer(inner.inner)
            },
            _ => RawType::Base(self.expect_ident()?.inner),
        };
        let id = self.raw_types.get(&ty);
        self.commit(id, span_start)
    }


    /// Parses the rest of `sizeof @(type)` or `sizeof(expr)` (see `s_sizeof`).
    fn parse_sizeof(&mut self, Ghost(st0): Ghost<PState>) -> (r: Result<HirExpr, CompileError>)
        requires
            old(self).wf(),
            ahead(old(self).src(), st0, old(self).state()),
        ensures
            final(self).wf(),
            final(self).src() == old(self).src(),
            final(self).file() == old(self).file(),
            match s_sizeof(old(self).src(), old(self).file(), st0, old(self).state()) {
                Ok((e, st)) => r matches Ok(x) && x@ == e && final(self).state() == st,
                Err(e) => r matches Err(e2) && e2 == e,
            },
            r is Ok ==> st0.pos.cursor < final(self).state().pos.cursor,
        decreases old(self).src().len() - st0.pos.cursor, 1int,
    {
        if self.is_next(Token::At)? {
            self.expect(Token::At)?;
            self.expect(Token::LParen)?;
            let ty = self.parse_type()?;
            self.expect(Token::RParen)?;
            Ok(HirExpr::SizeOfTy { ty })
        } else {
            self.expect(Token::LParen)?;
            proof {
                self.lemma_bounded();
            }
            let expr = self.parse_expr_bp(0)?;
            self.expect(Token::RParen)?;
            Ok(HirExpr::SizeOfExpr { expr: Box::new(expr) })
        }
    }

    /// Parses the rest of `@(type) expr` (see `s_cast`).
    fn parse_cast(&mut self, Ghost(st0): Ghost<PState>) -> (r: Result<HirExpr, CompileError>)
        requires
            old(self).wf(),
            ahead(old(self).src(), st0, old(self).state()),
        ensures
            final(self).wf(),
            final(self).src() == old(self).src(),
            final(self).file() == old(self).file(),
            match s_cast(old(self).src(), old(self).file(), st0, old(self).state()) {
                Ok((e, st)) => r matches Ok(x) && x@ == e && final(self).state() == st,
                Err(e) => r matches Err(e2) && e2 == e,
            },
            r is Ok ==> st0.pos.cursor < final(self).state().pos.cursor,
        decreases old(self).src().len() - st0.pos.cursor, 1int,
    {
        self.expect(Token::LParen)?;
        let target_ty = self.parse_type()?;
        self.expect(Token::RParen)?;
        proof {
            self.lemma_bounded();
        }
        let rhs = Box::new(self.parse_expr_bp(prefix_power(&Token::At).unwrap())?);
        Ok(HirExpr::Cast { target_ty, rhs })
    }

    /// Parses a prefix form (see `s_prefix`).
    #[verifier::rlimit(50)]
    fn parse_prefix(&mut self) -> (r: Result<Spanned<HirExpr>, CompileError>)
        requires
            old(self).wf(),
        ensures
            final(self).wf(),
            final(self).src() == old(self).src(),
            final(self).file() == old(self).file(),
            match s_prefix(old(self).src(), old(self).file(), old(self).state()) {
                Ok((e, st)) => r matches Ok(x) && sexpr_v(x) == e && final(self).state() == st,
                Err(e) => r matches Err(e2) && e2 == e,
            },
            r is Ok ==> old(self).state().pos.cursor < final(self).state().pos.cursor,
        decreases old(self).src().len() - old(self).state().pos.cursor, 3int,
    {
        let span_start = self.mark()?;
        let tok = self.eat()?;
        proof {
            self.lemma_bounded();
        }
        let typed_expr = match tok.inner {
            Token::Sizeof => self.parse_sizeof(Ghost(old(self).state()))?,
            Token::Bang => {
                let rhs = Box::new(self.parse_expr_bp(0)?);
                HirExpr::Un { op: UnOp::Not, rhs }
            },
            Token::Ident(x) => HirExpr::Ident(x),
            Token::Minus => {
                let rhs = Box::new(self.parse_expr_bp(0)?);
                HirExpr::Un { op: UnOp::Neg, rhs }
            },
            Token::Bool(x) => HirExpr::Bool(x),
            Token::Int(x) => HirExpr::Num(x),
            Token::LParen => {
                let inner_expr = self.parse_expr_bp(0)?;
                self.expect(Token::RParen)?;
                inner_expr.inner
            },
            Token::Star => {
                let rhs = Box::new(self.parse_expr_bp(prefix_power(&Token::Star).unwrap())?);
                HirExpr::Deref { inner: rhs }
            },
            Token::And => {
                let rhs = Box::new(self.parse_expr_bp(prefix_power(&Token::Star).unwrap())?);
                HirExpr::AddrOf { inner: rhs }
            },
            Token::At => self.parse_cast(Ghost(old(self).state()))?,
            _ => {
                return Err(CompileError::ExpectedExpression { at: tok.span });
            },
        };
        let first = self.commit((), span_start)?;
        self.commit(typed_expr, first.span)
    }

    /// Parses an expression whose operators bind at least as tightly as `min_power`.
    fn parse_expr_bp(&mut self, min_power: u32) -> (r: Result<Spanned<HirExpr>, CompileError>)
        requires
            old(self).wf(),
        ensures
            final(self).wf(),
            final(self).src() == old(self).src(),
            final(self).file() == old(self).file(),
            match s_expr_bp(old(self).src(), old(self).file(), old(self).state(), min_power as int) {
                Ok((e, st)) => r matches Ok(x) && sexpr_v(x) == e && final(self).state() == st,
                Err(e) => r matches Err(e2) && e2 == e,
            },
            r is Ok ==> old(self).state().pos.cursor < final(self).state().pos.cursor,
        decreases old(self).src().len() - old(self).state().pos.cursor, 4int,
    {
        let ghost st0 = self.state();
        let mut lhs = self.parse_prefix()?;
        proof {
            self.lemma_bounded();
        }
        loop
            invariant
                self.wf(),
                self.src() == old(self).src(),
                self.file() == old(self).file(),
                st0 == old(self).state(),
                ahead(self.src(), st0, self.state()),
                s_expr_bp(self.src(), self.file(), st0, min_power as int) == s_infix_loop(
                    self.src(),
                    self.file(),
                    self.state(),
                    sexpr_v(lhs),
                    min_power as int,
                ),
            decreases self.src().len() - self.state().pos.cursor,
        {
            let ghost stp = self.state();
            proof {
                lemma_peek_eat(self.src(), self.file(), stp);
            }
            let op = self.peek()?;
            let power = match infix_power(&op.inner) {
                Some(p) => p,
                None => {
                    return Ok(lhs);
                },
            };
            if power.0 < min_power {
                return Ok(lhs);
            }
            self.eat()?;
            proof {
                self.lemma_bounded();
            }
            let ghost st2 = self.state();
            lhs = self.parse_infix(lhs, op, power.1)?;
            proof {
                self.lemma_bounded();
            }
        }
    }


    /// Parses call arguments up to the closing parenthesis (see `s_call_args`).
    fn parse_call_args(&mut self) -> (r: Result<Vec<Spanned<HirExpr>>, CompileError>)
        requires
            old(self).wf(),
        ensures
            final(self).wf(),
            final(self).src() == old(self).src(),
            final(self).file() == old(self).file(),
            match s_call_args(old(self).src(), old(self).file(), old(self).state(), Seq::empty()) {
                Ok((args, st)) => r matches Ok(x) && sexprs_v(x@) == args && final(self).state()
                    == st,
                Err(e) => r matches Err(e2) && e2 == e,
            },
            r is Ok ==> old(self).state().pos.cursor <= final(self).state().pos.cursor,
        decreases old(self).src().len() - old(self).state().pos.cursor, 5int,
    {
        let ghost st_a = self.state();
        let mut args: Vec<Spanned<HirExpr>> = Vec::new();
        proof {
            self.lemma_bounded();
            assert(sexprs_v(args@) =~= Seq::<ExV>::empty());
        }
        loop
            invariant_except_break
                s_call_args(self.src(), self.file(), st_a, Seq::empty()) == s_call_args(
                    self.src(),
                    self.file(),
                    self.state(),
                    sexprs_v(args@),
                ),
            invariant
                self.wf(),
                self.src() == old(self).src(),
                self.file() == old(self).file(),
                st_a == old(self).state(),
                not_behind(self.src(), st_a, self.state()),
            ensures
                s_call_args(self.src(), self.file(), st_a, Seq::empty()) == Ok::<
                    (Seq<ExV>, PState),
                    CompileError,
                >((sexprs_v(args@), self.state())),
            decreases self.src().len() - self.state().pos.cursor,
        {
            if self.is_next(Token::RParen)? {
                break ;
            }
            if args.len() > 0 {
                proof {
                    lemma_sexprs_v(args@);
                }
                self.expect(Token::Comma)?;
            }
            proof {
                lemma_sexprs_v(args@);
                self.lemma_bounded();
            }
            let e = self.parse_expr_bp(0)?;
            proof {
                self.lemma_bounded();
                lemma_sexprs_v_push(args@, e);
            }
            args.push(e);
        }
        Ok(args)
    }

    /// Parses the rest of an infix form whose operator `op` was just consumed.
    fn parse_infix(&mut self, lhs: Spanned<HirExpr>, op: Spanned<Token>, op_power: u32) -> (r:
        Result<Spanned<HirExpr>, CompileError>)
        requires
            old(self).wf(),
        ensures
            final(self).wf(),
            final(self).src() == old(self).src(),
            final(self).file() == old(self).file(),
            match s_infix(
                old(self).src(),
                old(self).file(),
                old(self).state(),
                sexpr_v(lhs),
                op@.inner,
                op.span,
                op_power as int,
            ) {
                Ok((e, st)) => r matches Ok(x) && sexpr_v(x) == e && final(self).state() == st,
                Err(e) => r matches Err(e2) && e2 == e,
            },
            r is Ok ==> old(self).state().pos.cursor <= final(self).state().pos.cursor,
        decreases old(self).src().len() - old(self).state().pos.cursor, 6int,
    {
        let span_start = lhs.span;
        let output = match op.inner {
            Token::LBrack => {
                let idx = self.parse_expr_bp(0)?;
                self.expect(Token::RBrack)?;
                HirExpr::Index { base: Box::new(lhs), index: Box::new(idx) }
            },
            Token::Dot => {
                let field_name = self.expect_ident()?;
                HirExpr::Field { base: Box::new(lhs), field: field_name.inner }
            },
            Token::LParen => {
                let args = self.parse_call_args()?;
                self.expect(Token::RParen)?;
                HirExpr::Call { callee: Box::new(lhs), args }
            },
            Token::Eq => {
                let rhs = self.parse_expr_bp(op_power)?;
                HirExpr::Assign { lhs: Box::new(lhs), rhs: Box::new(rhs) }
            },
            _ => match bin_op_of_token(&op.inner) {
                Some(bop) => {
                    let rhs = self.parse_expr_bp(op_power)?;
                    HirExpr::Bin { op: bop, lhs: Box::new(lhs), rhs: Box::new(rhs) }
                },
                None => {
                    return Err(CompileError::ExpectedInfixOperator { at: op.span });
                },
            },
        };
        self.commit(output, span_start)
    }

    /// Parses the rest of a `let` statement (see `s_let`).
    fn parse_let(&mut self) -> (r: Result<HirStmt, CompileError>)
        requires
            old(self).wf(),
        ensures
            final(self).wf(),
            final(self).src() == old(self).src(),
            final(self).file() == old(self).file(),
            match s_let(old(self).src(), old(self).file(), old(self).state()) {
                Ok((x, st)) => r matches Ok(y) && y@ == x && final(self).state() == st,
                Err(e) => r matches Err(e2) && e2 == e,
            },
            r is Ok ==> old(self).state().pos.cursor < final(self).state().pos.cursor,
    {
        let lhs = self.expect_ident()?;
        let ty = if self.is_next(Token::Colon)? {
            self.expect(Token::Colon)?;
            Some(self.parse_type()?)
        } else {
            None
        };
        self.expect(Token::Eq)?;
        let rhs = self.parse_expr()?;
        self.expect(Token::Semi)?;
        Ok(HirStmt::LetAssign { name: lhs, ty, value: rhs })
    }

    /// Parses the rest of a `return` statement (see `s_return`).
    fn parse_return(&mut self) -> (r: Result<HirStmt, CompileError>)
        requires
            old(self).wf(),
        ensures
            final(self).wf(),
            final(self).src() == old(self).src(),
            final(self).file() == old(self).file(),
            match s_return(old(self).src(), old(self).file(), old(self).state()) {
                Ok((x, st)) => r matches Ok(y) && y@ == x && final(self).state() == st,
                Err(e) => r matches Err(e2) && e2 == e,
            },
            r is Ok ==> old(self).state().pos.cursor < final(self).state().pos.cursor,
    {
        let ret_val = if self.is_next(Token::Semi)? {
            None
        } else {
            Some(self.parse_expr()?)
        };
        let stmt = HirStmt::Return(ret_val);
        self.expect(Token::Semi)?;
        Ok(stmt)
    }

    /// Parses the `else` part of an `if` statement (see `s_else`).
    fn parse_else(&mut self, Ghost(st0): Ghost<PState>) -> (r: Result<Spanned<HirStmt>, CompileError>)
        requires
            old(self).wf(),
            ahead(old(self).src(), st0, old(self).state()),
        ensures
            final(self).wf(),
            final(self).src() == old(self).src(),
            final(self).file() == old(self).file(),
            match s_else(old(self).src(), old(self).file(), st0, old(self).state()) {
                Ok((x, st)) => r matches Ok(y) && sstmt_v(y) == x && final(self).state() == st,
                Err(e) => r matches Err(e2) && e2 == e,
            },
            r is Ok ==> st0.pos.cursor < final(self).state().pos.cursor,
        decreases old(self).src().len() - st0.pos.cursor, 0int,
    {
        if self.is_next(Token::Else)? {
            self.eat()?;
            let is_if = self.is_next(Token::If)?;
            proof {
                self.lemma_bounded();
            }
            if is_if {
                self.parse_stmt()
            } else {
                self.parse_block()
            }
        } else {
            let empty: Vec<Spanned<HirStmt>> = Vec::new();
            proof {
                assert(sstmts_v(empty@) =~= Seq::<StV>::empty());
            }
            Ok(Spanned::new(HirStmt::Block(empty), Span::default_span()))
        }
    }

    /// Parses the rest of an `if` statement (see `s_if`).
    fn parse_if(&mut self, Ghost(st0): Ghost<PState>) -> (r: Result<HirStmt, CompileError>)
        requires
            old(self).wf(),
            ahead(old(self).src(), st0, old(self).state()),
        ensures
            final(self).wf(),
            final(self).src() == old(self).src(),
            final(self).file() == old(self).file(),
            match s_if(old(self).src(), old(self).file(), st0, old(self).state()) {
                Ok((x, st)) => r matches Ok(y) && y@ == x && final(self).state() == st,
                Err(e) => r matches Err(e2) && e2 == e,
            },
            r is Ok ==> st0.pos.cursor < final(self).state().pos.cursor,
        decreases old(self).src().len() - st0.pos.cursor, 1int,
    {
        let cond = self.parse_expr()?;
        proof {
            self.lemma_bounded();
        }
        let then_ = self.parse_block()?;
        proof {
            self.lemma_bounded();
        }
        let else_ = self.parse_else(Ghost(st0))?;
        Ok(HirStmt::If { cond, then_: Box::new(then_), else_: Box::new(else_) })
    }

    /// Parses the rest of a `while` statement (see `s_while`).
    fn parse_while(&mut self, Ghost(st0): Ghost<PState>) -> (r: Result<HirStmt, CompileError>)
        requires
            old(self).wf(),
            ahead(old(self).src(), st0, old(self).state()),
        ensures
            final(self).wf(),
            final(self).src() == old(self).src(),
            final(self).file() == old(self).file(),
            match s_while(old(self).src(), old(self).file(), st0, old(self).state()) {
                Ok((x, st)) => r matches Ok(y) && y@ == x && final(self).state() == st,
                Err(e) => r matches Err(e2) && e2 == e,
            },
            r is Ok ==> st0.pos.cursor < final(self).state().pos.cursor,
        decreases old(self).src().len() - st0.pos.cursor, 1int,
    {
        let cond = self.parse_expr()?;
        proof {
            self.lemma_bounded();
        }
        let body = self.parse_block()?;
        Ok(HirStmt::While { cond, body: Box::new(body) })
    }

    /// Parses a statement (see `s_stmt`).
    #[verifier::rlimit(50)]
    pub fn parse_stmt(&mut self) -> (r: Result<Spanned<HirStmt>, CompileError>)
        requires
            old(self).wf(),
        ensures
            final(self).wf(),
            final(self).src() == old(self).src(),
            final(self).file() == old(self).file(),
            match s_stmt(old(self).src(), old(self).file(), old(self).state()) {
                Ok((x, st)) => r matches Ok(y) && sstmt_v(y) == x && final(self).state() == st,
                Err(e) => r matches Err(e2) && e2 == e,
            },
            r is Ok ==> old(self).state().pos.cursor < final(self).state().pos.cursor,
        decreases old(self).src().len() - old(self).state().pos.cursor, 3int,
    {
        let ghost st0 = self.state();
        let span_start = self.mark()?;
        proof {
            lemma_peek_eat(self.src(), self.file(), self.state());
        }
        let tok = self.peek()?;
        let stmt = match tok.inner {
            Token::Let => {
                self.eat()?;
                self.parse_let()?
            },
            Token::If => {
                self.eat()?;
                proof {
                    self.lemma_bounded();
                }
                self.parse_if(Ghost(st0))?
            },
            Token::Break => {
                self.eat()?;
                self.expect(Token::Semi)?;
                HirStmt::Break
            },
            Token::Continue => {
                self.eat()?;
                self.expect(Token::Semi)?;
                HirStmt::Continue
            },
            Token::Return => {
                self.eat()?;
                self.parse_return()?
            },
            Token::While => {
                self.eat()?;
                proof {
                    self.lemma_bounded();
                }
                self.parse_while(Ghost(st0))?
            },
            _ => {
                let expr = self.parse_expr()?;
                self.expect(Token::Semi)?;
                HirStmt::Expr(expr)
            },
        };
        self.commit(stmt, span_start)
    }

    /// Parses a block (see `s_block`).
    #[verifier::rlimit(60)]
    pub fn parse_block(&mut self) -> (r: Result<Spanned<HirStmt>, CompileError>)
        requires
            old(self).wf(),
        ensures
            final(self).wf(),
            final(self).src() == old(self).src(),
            final(self).file() == old(self).file(),
            match s_block(old(self).src(), old(self).file(), old(self).state()) {
                Ok((x, st)) => r matches Ok(y) && sstmt_v(y) == x && final(self).state() == st,
                Err(e) => r matches Err(e2) && e2 == e,
            },
            r is Ok ==> old(self).state().pos.cursor < final(self).state().pos.cursor,
        decreases old(self).src().len() - old(self).state().pos.cursor, 5int,
    {
        let ghost st0 = self.state();
        let span_start = self.mark()?;
        self.expect(Token::LCurly)?;
        proof {
            self.lemma_bounded();
        }
        let ghost st2 = self.state();
        let mut stmts: Vec<Spanned<HirStmt>> = Vec::new();
        proof {
            assert(sstmts_v(stmts@) =~= Seq::<StV>::empty());
        }
        loop
            invariant_except_break
                s_block_stmts(self.src(), self.file(), st2, Seq::empty()) == s_block_stmts(
                    self.src(),
                    self.file(),
                    self.state(),
                    sstmts_v(stmts@),
                ),
            invariant
                self.wf(),
                self.src() == old(self).src(),
                self.file() == old(self).file(),
                st0 == old(self).state(),
                ahead(self.src(), st0, st2),
                s_block(self.src(), self.file(), st0) == s_block_close(
                    self.src(),
                    self.file(),
                    span_start,
                    s_block_stmts(self.src(), self.file(), st2, Seq::empty()),
                ),
                not_behind(self.src(), st2, self.state()),
            ensures
                s_block_stmts(self.src(), self.file(), st2, Seq::empty()) == Ok::<
                    (Seq<StV>, PState),
                    CompileError,
                >((sstmts_v(stmts@), self.state())),
            decreases self.src().len() - self.state().pos.cursor,
        {
            if self.is_next(Token::RCurly)? {
                break ;
            }
            proof {
                self.lemma_bounded();
            }
            let stmt = self.parse_stmt()?;
            proof {
                self.lemma_bounded();
            }
            let skip = match &stmt.inner {
                HirStmt::Block(inner) => {
                    proof {
                        lemma_sstmts_v(inner@);
                    }
                    inner.len() == 0
                },
                _ => false,
            };
            assert(skip == is_empty_block(sstmt_v(stmt)));
            if !skip {
                proof {
                    lemma_sstmts_v_push(stmts@, stmt);
                }
                stmts.push(stmt);
            }
        }
        self.expect(Token::RCurly)?;
        self.commit(HirStmt::Block(stmts), span_start)
    }

    /// Parses a declaration `name: type` (see `s_decl`).
    fn parse_decl(&mut self) -> (r: Result<(Spanned<RcString>, Spanned<Rc<RawType>>), CompileError>)
        requires
            old(self).wf(),
        ensures
            final(self).wf(),
            final(self).src() == old(self).src(),
            final(self).file() == old(self).file(),
            match s_decl(old(self).src(), old(self).file(), old(self).state()) {
                Ok((d, st)) => r matches Ok(x) && (x.0@, x.1@) == d && final(self).state() == st,
                Err(e) => r matches Err(e2) && e2 == e,
            },
            r is Ok ==> old(self).state().pos.cursor < final(self).state().pos.cursor,
    {
        let name = self.expect_ident()?;
        self.expect(Token::Colon)?;
        proof {
            self.lemma_bounded();
        }
        let ty = self.parse_type()?;
        Ok((name, ty))
    }

    /// Parses struct fields up to the closing brace (see `s_fields`).
    fn parse_fields(&mut self) -> (r: Result<Vec<(Spanned<RcString>, Spanned<Rc<RawType>>)>, CompileError>)
        requires
            old(self).wf(),
        ensures
            final(self).wf(),
            final(self).src() == old(self).src(),
            final(self).file() == old(self).file(),
            match s_fields(old(self).src(), old(self).file(), old(self).state(), Seq::empty()) {
                Ok((d, st)) => r matches Ok(x) && decls_v(x@) == d && final(self).state() == st,
                Err(e) => r matches Err(e2) && e2 == e,
            },
            r is Ok ==> old(self).state().pos.cursor <= final(self).state().pos.cursor,
    {
        let ghost st0 = self.state();
        let mut fields: Vec<(Spanned<RcString>, Spanned<Rc<RawType>>)> = Vec::new();
        proof {
            assert(decls_v(fields@) =~= Seq::empty());
            self.lemma_bounded();
        }
        loop
            invariant_except_break
                s_fields(self.src(), self.file(), st0, Seq::empty()) == s_fields(
                    self.src(),
                    self.file(),
                    self.state(),
                    decls_v(fields@),
                ),
            invariant
                self.wf(),
                self.src() == old(self).src(),
                self.file() == old(self).file(),
                st0 == old(self).state(),
                not_behind(self.src(), st0, self.state()),
            ensures
                s_fields(self.src(), self.file(), st0, Seq::empty()) == Ok::<
                    (DeclsV, PState),
                    CompileError,
                >((decls_v(fields@), self.state())),
            decreases self.src().len() - self.state().pos.cursor,
        {
            if self.is_next(Token::RCurly)? {
                break ;
            }
            let d = self.parse_decl()?;
            self.expect(Token::Semi)?;
            proof {
                self.lemma_bounded();
                assert(decls_v(fields@.push(d)) =~= decls_v(fields@).push((d.0@, d.1@)));
            }
            fields.push(d);
        }
        Ok(fields)
    }

    /// Parses a struct definition (see `s_struct`).
    fn parse_struct(&mut self) -> (r: Result<Spanned<HirObj>, CompileError>)
        requires
            old(self).wf(),
        ensures
            final(self).wf(),
            final(self).src() == old(self).src(),
            final(self).file() == old(self).file(),
            match s_struct(old(self).src(), old(self).file(), old(self).state()) {
                Ok((o, st)) => r matches Ok(x) && x@ == o && final(self).state() == st,
                Err(e) => r matches Err(e2) && e2 == e,
            },
            r is Ok ==> old(self).state().pos.cursor < final(self).state().pos.cursor,
    {
        let span_start = self.mark()?;
        self.expect(Token::Struct)?;
        let name = self.expect_ident()?;
        self.expect(Token::LCurly)?;
        proof {
            self.lemma_bounded();
        }
        let fields = self.parse_fields()?;
        self.expect(Token::RCurly)?;
        self.commit(HirObj::Struct(HirStruct { name, fields }), span_start)
    }

    /// Parses a global variable definition (see `s_global`).
    fn parse_global(&mut self) -> (r: Result<Spanned<HirObj>, CompileError>)
        requires
            old(self).wf(),
        ensures
            final(self).wf(),
            final(self).src() == old(self).src(),
            final(self).file() == old(self).file(),
            match s_global(old(self).src(), old(self).file(), old(self).state()) {
                Ok((o, st)) => r matches Ok(x) && x@ == o && final(self).state() == st,
                Err(e) => r matches Err(e2) && e2 == e,
            },
            r is Ok ==> old(self).state().pos.cursor < final(self).state().pos.cursor,
    {
        let span_start = self.mark()?;
        self.expect(Token::Global)?;
        proof {
            self.lemma_bounded();
        }
        let (name, ty) = self.parse_decl()?;
        self.expect(Token::Eq)?;
        proof {
            self.lemma_bounded();
        }
        let rhs = self.parse_expr()?;
        self.expect(Token::Semi)?;
        self.commit(HirObj::Global(HirGlobal { name, ty, rhs: Box::new(rhs) }), span_start)
    }

    /// Parses function parameters up to the closing parenthesis (see `s_params`).
    fn parse_params(&mut self) -> (r: Result<Vec<(Spanned<RcString>, Spanned<Rc<RawType>>)>, CompileError>)
        requires
            old(self).wf(),
        ensures
            final(self).wf(),
            final(self).src() == old(self).src(),
            final(self).file() == old(self).file(),
            match s_params(old(self).src(), old(self).file(), old(self).state(), Seq::empty()) {
                Ok((d, st)) => r matches Ok(x) && decls_v(x@) == d && final(self).state() == st,
                Err(e) => r matches Err(e2) && e2 == e,
            },
            r is Ok ==> old(self).state().pos.cursor <= final(self).state().pos.cursor,
    {
        let ghost st0 = self.state();
        let mut args: Vec<(Spanned<RcString>, Spanned<Rc<RawType>>)> = Vec::new();
        proof {
            assert(decls_v(args@) =~= Seq::empty());
            self.lemma_bounded();
        }
        loop
            invariant_except_break
                s_params(self.src(), self.file(), st0, Seq::empty()) == s_params(
                    self.src(),
                    self.file(),
                    self.state(),
                    decls_v(args@),
                ),
            invariant
                self.wf(),
                self.src() == old(self).src(),
                self.file() == old(self).file(),
                st0 == old(self).state(),
                not_behind(self.src(), st0, self.state()),
            ensures
                s_params(self.src(), self.file(), st0, Seq::empty()) == Ok::<
                    (DeclsV, PState),
                    CompileError,
                >((decls_v(args@), self.state())),
            decreases self.src().len() - self.state().pos.cursor,
        {
            let t = self.peek()?;
            if matches!(t.inner, Token::RParen) {
                break ;
            }
            if args.len() > 0 {
                self.expect(Token::Comma)?;
                proof {
                    self.lemma_bounded();
                }
                if self.is_next(Token::RParen)? {
                    break ;
                }
            }
            proof {
                self.lemma_bounded();
            }
            let d = self.parse_decl()?;
            proof {
                self.lemma_bounded();
                assert(decls_v(args@.push(d)) =~= decls_v(args@).push((d.0@, d.1@)));
            }
            args.push(d);
        }
        Ok(args)
    }

    /// Parses a function's return type, or makes `void` before its body (see `s_returns`).
    fn parse_returns(&mut self) -> (r: Result<Spanned<Rc<RawType>>, CompileError>)
        requires
            old(self).wf(),
        ensures
            final(self).wf(),
            final(self).src() == old(self).src(),
            final(self).file() == old(self).file(),
            match s_returns(old(self).src(), old(self).file(), old(self).state()) {
                Ok((t, st)) => r matches Ok(x) && x@ == t && final(self).state() == st,
                Err(e) => r matches Err(e2) && e2 == e,
            },
            r is Ok ==> old(self).state().pos.cursor <= final(self).state().pos.cursor,
    {
        let peeked = self.peek()?;
        match peeked.inner {
            Token::Colon => {
                self.expect(Token::Colon)?;
                proof {
                    self.lemma_bounded();
                }
                self.parse_type()
            },
            Token::LCurly => {
                let span_start = self.mark()?;
                let name = "void".to_owned();
                proof {
                    reveal_strlit("void");
                    assert(name@ =~= void_name());
                }
                let id = self.raw_types.get(&RawType::Base(Rc::new(name)));
                self.commit(id, span_start)
            },
            _ => Err(CompileError::ExpectedReturnTypeOrBody { at: peeked.span }),
        }
    }

    /// Parses a function definition (see `s_func`).
    fn parse_func(&mut self) -> (r: Result<Spanned<HirObj>, CompileError>)
        requires
            old(self).wf(),
        ensures
            final(self).wf(),
            final(self).src() == old(self).src(),
            final(self).file() == old(self).file(),
            match s_func(old(self).src(), old(self).file(), old(self).state()) {
                Ok((o, st)) => r matches Ok(x) && x@ == o && final(self).state() == st,
                Err(e) => r matches Err(e2) && e2 == e,
            },
            r is Ok ==> old(self).state().pos.cursor < final(self).state().pos.cursor,
    {
        let span_start = self.mark()?;
        self.expect(Token::Fn)?;
        let name = self.expect_ident()?;
        self.expect(Token::LParen)?;
        proof {
            self.lemma_bounded();
        }
        let args = self.parse_params()?;
        self.expect(Token::RParen)?;
        proof {
            self.lemma_bounded();
        }
        let return_type = self.parse_returns()?;
        proof {
            self.lemma_bounded();
        }
        let body = self.parse_block()?;
        self.commit(HirObj::Fn(HirFunction { name, return_type, args, body }), span_start)
    }

    /// Parses a top-level item (see `s_obj`).
    pub fn parse_obj(&mut self) -> (r: Result<Spanned<HirObj>, CompileError>)
        requires
            old(self).wf(),
        ensures
            final(self).wf(),
            final(self).src() == old(self).src(),
            final(self).file() == old(self).file(),
            match s_obj(old(self).src(), old(self).file(), old(self).state()) {
                Ok((o, st)) => r matches Ok(x) && x@ == o && final(self).state() == st,
                Err(e) => r matches Err(e2) && e2 == e,
            },
            r is Ok ==> old(self).state().pos.cursor < final(self).state().pos.cursor,
    {
        proof {
            reveal(s_obj);
        }
        let tok = self.peek()?;
        proof {
            self.lemma_bounded();
        }
        match tok.inner {
            Token::Fn => self.parse_func(),
            Token::Global => self.parse_global(),
            Token::Struct => self.parse_struct(),
            _ => Err(CompileError::ExpectedItem { at: tok.span }),
        }
    }

    /// Parses an expression.
    pub fn parse_expr(&mut self) -> (r: Result<Spanned<HirExpr>, CompileError>)
        requires
            old(self).wf(),
        ensures
            final(self).wf(),
            final(self).src() == old(self).src(),
            final(self).file() == old(self).file(),
            match s_expr_bp(old(self).src(), old(self).file(), old(self).state(), 0) {
                Ok((e, st)) => r matches Ok(x) && sexpr_v(x) == e && final(self).state() == st,
                Err(e) => r matches Err(e2) && e2 == e,
            },
            r is Ok ==> old(self).state().pos.cursor < final(self).state().pos.cursor,
    {
        self.parse_expr_bp(0)
    
    }
}

/// Parses the whole of `source`, the content of the file named `filename`, into its items.
pub fn parse_file(filename: &'static str, source: Vec<u8>) -> (r: Result<Vec<Spanned<HirObj>>, CompileError>)
    ensures
        match parse_result(source@, filename) {
            Ok(items) => r matches Ok(x) && objs_v(x@) == items,
            Err(e) => r matches Err(e2) && e2 == e,
        },
{
    let mut p = Parser::new(filename, source);
    let ghost src = p.src();
    let mut objects: Vec<Spanned<HirObj>> = Vec::new();
    proof {
        assert(objs_v(objects@) =~= Seq::empty());
        p.lemma_bounded();
    }
    loop
        invariant_except_break
            s_items(src, filename, start_state(filename), Seq::empty()) == s_items(
                src,
                filename,
                p.state(),
                objs_v(objects@),
            ),
        invariant
            p.wf(),
            p.src() == src,
            src == source@,
            p.file() == filename,
            p.state().pos.cursor <= src.len(),
        ensures
            s_items(src, filename, start_state(filename), Seq::empty()) matches Ok((items, _))
                && items == objs_v(objects@),
        decreases src.len() - p.state().pos.cursor,
    {
        let tok = p.peek()?;
        if matches!(tok.inner, Token::Eof) {
            break ;
        }
        proof {
            p.lemma_bounded();
        }
        let o = p.parse_obj()?;
        proof {
            p.lemma_bounded();
            assert(objs_v(objects@.push(o)) =~= objs_v(objects@).push(o@));
        }
        objects.push(o);
    }
    Ok(objects)
}

/// The items of a program, by kind, each list in the order of the source.
pub struct ParsedProgram {
    pub structs: Vec<Spanned<HirStruct>>,
    pub globals: Vec<Spanned<HirGlobal>>,
    pub functions: Vec<Spanned<HirFunction>>,
}

/// Which kind of item an item is: 0 for functions, 1 for globals, 2 for structs.
pub open spec fn obj_kind(o: HirObjV) -> int {
    match o {
        HirObjV::Fn { .. } => 0,
        HirObjV::Global { .. } => 1,
        HirObjV::Struct { .. } => 2,
    }
}

/// The items of kind `k`, in order.
pub open spec fn of_kind(objs: Seq<SpannedV<HirObjV>>, k: int) -> Seq<SpannedV<HirObjV>>
    decreases objs.len(),
{
    if objs.len() == 0 {
        Seq::empty()
    } else {
        let rest = of_kind(objs.drop_last(), k);
        if obj_kind(objs.last().inner) == k {
            rest.push(objs.last())
        } else {
            rest
        }
    }
}

/// Spanned struct definitions, as items.
pub open spec fn structs_as_objs(v: Seq<Spanned<HirStruct>>) -> Seq<SpannedV<HirObjV>> {
    v.map_values(|s: Spanned<HirStruct>| SpannedV {
        inner: HirObjV::Struct { name: s.inner.name@, fields: decls_v(s.inner.fields@) },
        span: s.span,
    })
}

/// Spanned global definitions, as items.
pub open spec fn globals_as_objs(v: Seq<Spanned<HirGlobal>>) -> Seq<SpannedV<HirObjV>> {
    v.map_values(|g: Spanned<HirGlobal>| SpannedV {
        inner: HirObjV::Global { name: g.inner.name@, ty: g.inner.ty@, rhs: sexpr_v(*g.inner.rhs) },
        span: g.span,
    })
}

/// Spanned function definitions, as items.
pub open spec fn functions_as_objs(v: Seq<Spanned<HirFunction>>) -> Seq<SpannedV<HirObjV>> {
    v.map_values(|f: Spanned<HirFunction>| SpannedV {
        inner: HirObjV::Fn {
            name: f.inner.name@,
            return_type: f.inner.return_type@,
            args: decls_v(f.inner.args@),
            body: sstmt_v(f.inner.body),
        },
        span: f.span,
    })
}

impl ParsedProgram {
    /// Sorts the items of a file by kind, keeping their order.
    pub fn from_items(items: Vec<Spanned<HirObj>>) -> (r: Self)
        ensures
            structs_as_objs(r.structs@) == of_kind(objs_v(items@), 2),
            globals_as_objs(r.globals@) == of_kind(objs_v(items@), 1),
            functions_as_objs(r.functions@) == of_kind(objs_v(items@), 0),
    {
        let ghost all = objs_v(items@);
        let mut items = items;
        let mut structs: Vec<Spanned<HirStruct>> = Vec::new();
        let mut globals: Vec<Spanned<HirGlobal>> = Vec::new();
        let mut functions: Vec<Spanned<HirFunction>> = Vec::new();
        proof {
            assert(all.subrange(0, 0) =~= Seq::<SpannedV<HirObjV>>::empty());
            assert(structs_as_objs(structs@) =~= Seq::<SpannedV<HirObjV>>::empty());
            assert(globals_as_objs(globals@) =~= Seq::<SpannedV<HirObjV>>::empty());
            assert(functions_as_objs(functions@) =~= Seq::<SpannedV<HirObjV>>::empty());
            assert(objs_v(items@).subrange(0, items@.len() as int) =~= objs_v(items@));
        }
        while items.len() > 0
            invariant
                all.len() >= items@.len(),
                objs_v(items@) == all.subrange(all.len() - items@.len(), all.len() as int),
                structs_as_objs(structs@) == of_kind(all.subrange(0, all.len() - items@.len()), 2),
                globals_as_objs(globals@) == of_kind(all.subrange(0, all.len() - items@.len()), 1),
                functions_as_objs(functions@) == of_kind(all.subrange(0, all.len() - items@.len()), 0),
            decreases items@.len(),
        {
            let ghost done = all.len() - items@.len();
            let ghost before = items@;
            let item = items.remove(0);
            proof {
                assert(objs_v(before)[0] == item@);
                assert(all[done] == item@);
                assert(objs_v(items@) =~= all.subrange(all.len() - items@.len(), all.len() as int)) by {
                    assert(items@ =~= before.subrange(1, before.len() as int));
                    assert forall|j: int| 0 <= j < items@.len() implies objs_v(items@)[j] == all[all.len() - items@.len() + j] by {
                        assert(objs_v(items@)[j] == items@[j]@);
                        assert(items@[j] == before[j + 1]);
                        assert(objs_v(before)[j + 1] == before[j + 1]@);
                        assert(objs_v(before)[j + 1] == all.subrange(all.len() - before.len(), all.len() as int)[j + 1]);
                    }
                }
                let p = all.subrange(0, done + 1);
                assert(p.drop_last() =~= all.subrange(0, done));
                assert(p.last() == item@);
            }
            let span = item.span;
            match item.inner {
                HirObj::Struct(s) => {
                    let x = Spanned::new(s, span);
                    proof {
                        assert(structs_as_objs(structs@.push(x)) =~= structs_as_objs(structs@).push(item@));
                    }
                    structs.push(x);
                },
                HirObj::Global(g) => {
                    let x = Spanned::new(g, span);
                    proof {
                        assert(globals_as_objs(globals@.push(x)) =~= globals_as_objs(globals@).push(item@));
                    }
                    globals.push(x);
                },
                HirObj::Fn(f) => {
                    let x = Spanned::new(f, span);
                    proof {
                        assert(functions_as_objs(functions@.push(x)) =~= functions_as_objs(functions@).push(item@));
                    }
                    functions.push(x);
                },
            }
        }
        proof {
            assert(all.subrange(0, all.len() as int) =~= all);
        }
        ParsedProgram { structs, globals, functions }
    }
}

} // verus!
