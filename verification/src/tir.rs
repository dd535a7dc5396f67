//! The typed IR that type checking produces: every expression carries its qualified type and
//! every name is resolved to its symbol.
use crate::ops::{BinOp, UnOp};
use crate::qual_type::{QualType, QualTypeV, RcString};
use crate::span::{Spanned, SpannedV};
use crate::translation_unit::{Symbol, SymbolV};
use std::rc::Rc;
use vstd::prelude::*;

verus! {

/// A typed expression.
#[derive(Debug)]
pub struct TirExpr {
    pub kind: TirExprKind,
    pub ty: Rc<QualType>,
}

#[derive(Debug)]
pub enum TirExprKind {
    Num(i128),
    Bool(bool),
    Store { ptr: Box<TirExpr>, val: Box<TirExpr> },
    Load { inner: Box<TirExpr> },
    ValueOf(Symbol),
    AddrOf(Symbol),
    Un { op: UnOp, rhs: Box<TirExpr> },
    Bin { op: BinOp, lhs: Box<TirExpr>, rhs: Box<TirExpr> },
    Cast { target_ty: Rc<QualType>, expr: Box<TirExpr> },
    Call { callee: Box<TirExpr>, args: Vec<TirExpr> },
}

/// The value of a typed expression.
pub struct TirExprV {
    pub kind: TirKindV,
    pub ty: QualTypeV,
}

pub enum TirKindV {
    Num(int),
    Bool(bool),
    Store { ptr: Box<TirExprV>, val: Box<TirExprV> },
    Load { inner: Box<TirExprV> },
    ValueOf(SymbolV),
    AddrOf(SymbolV),
    Un { op: UnOp, rhs: Box<TirExprV> },
    Bin { op: BinOp, lhs: Box<TirExprV>, rhs: Box<TirExprV> },
    Cast { target_ty: QualTypeV, expr: Box<TirExprV> },
    Call { callee: Box<TirExprV>, args: Seq<TirExprV> },
}

pub open spec fn tir_v(e: TirExpr) -> TirExprV
    decreases e,
{
    TirExprV { kind: tir_kind_v(e.kind), ty: (*e.ty)@ }
}

pub open spec fn tirs_v(s: Seq<TirExpr>) -> Seq<TirExprV>
    decreases s,
{
    if s.len() == 0 {
        Seq::empty()
    } else {
        tirs_v(s.subrange(0, s.len() - 1)).push(tir_v(s[s.len() - 1]))
    }
}

pub open spec fn tir_kind_v(k: TirExprKind) -> TirKindV
    decreases k,
{
    match k {
        TirExprKind::Num(n) => TirKindV::Num(n as int),
        TirExprKind::Bool(b) => TirKindV::Bool(b),
        TirExprKind::Store { ptr, val } => TirKindV::Store {
            ptr: Box::new(tir_v(*ptr)),
            val: Box::new(tir_v(*val)),
        },
        TirExprKind::Load { inner } => TirKindV::Load { inner: Box::new(tir_v(*inner)) },
        TirExprKind::ValueOf(s) => TirKindV::ValueOf(s@),
        TirExprKind::AddrOf(s) => TirKindV::AddrOf(s@),
        TirExprKind::Un { op, rhs } => TirKindV::Un { op, rhs: Box::new(tir_v(*rhs)) },
        TirExprKind::Bin { op, lhs, rhs } => TirKindV::Bin {
            op,
            lhs: Box::new(tir_v(*lhs)),
            rhs: Box::new(tir_v(*rhs)),
        },
        TirExprKind::Cast { target_ty, expr } => TirKindV::Cast {
            target_ty: (*target_ty)@,
            expr: Box::new(tir_v(*expr)),
        },
        TirExprKind::Call { callee, args } => TirKindV::Call {
            callee: Box::new(tir_v(*callee)),
            args: tirs_v(args@),
        },
    }
}

impl View for TirExpr {
    type V = TirExprV;

    open spec fn view(&self) -> TirExprV {
        tir_v(*self)
    }
}

/// The view of a list of typed expressions, element by element.
pub proof fn lemma_tirs_v(s: Seq<TirExpr>)
    ensures
        tirs_v(s).len() == s.len(),
        forall|i: int| 0 <= i < s.len() ==> #[trigger] tirs_v(s)[i] == tir_v(s[i]),
    decreases s.len(),
{
    if s.len() > 0 {
        lemma_tirs_v(s.subrange(0, s.len() - 1));
        assert forall|i: int| 0 <= i < s.len() implies #[trigger] tirs_v(s)[i] == tir_v(s[i]) by {
            if i < s.len() - 1 {
                assert(s.subrange(0, s.len() - 1)[i] == s[i]);
            }
        }
    }
}

/// Pushing onto a list extends its view by the view of the new element.
pub proof fn lemma_tirs_v_push(s: Seq<TirExpr>, x: TirExpr)
    ensures
        tirs_v(s.push(x)) == tirs_v(s).push(tir_v(x)),
{
    assert(s.push(x).subrange(0, s.len() as int) =~= s);
}

impl TirExpr {
    pub fn new(kind: TirExprKind, ty: Rc<QualType>) -> (r: Self)
        ensures
            r.kind == kind,
            r.ty == ty,
    {
        TirExpr { kind, ty }
    }
}

/// A typed statement.
#[derive(Debug)]
pub enum TirStmt {
    While { cond: TirExpr, body: Box<TirStmt> },
    Continue,
    Break,
    If { cond: TirExpr, then_: Box<TirStmt>, else_: Box<TirStmt> },
    Return(Option<TirExpr>),
    Block(Vec<TirStmt>),
    Expr(TirExpr),
}

pub enum TirStmtV {
    While { cond: TirExprV, body: Box<TirStmtV> },
    Continue,
    Break,
    If { cond: TirExprV, then_: Box<TirStmtV>, else_: Box<TirStmtV> },
    Return(Option<TirExprV>),
    Block(Seq<TirStmtV>),
    Expr(TirExprV),
}

pub open spec fn tstmt_v(s: TirStmt) -> TirStmtV
    decreases s,
{
    match s {
        TirStmt::While { cond, body } => TirStmtV::While {
            cond: tir_v(cond),
            body: Box::new(tstmt_v(*body)),
        },
        TirStmt::Continue => TirStmtV::Continue,
        TirStmt::Break => TirStmtV::Break,
        TirStmt::If { cond, then_, else_ } => TirStmtV::If {
            cond: tir_v(cond),
            then_: Box::new(tstmt_v(*then_)),
            else_: Box::new(tstmt_v(*else_)),
        },
        TirStmt::Return(e) => TirStmtV::Return(
            match e {
                Some(x) => Some(tir_v(x)),
                None => None,
            },
        ),
        TirStmt::Block(v) => TirStmtV::Block(tstmts_v(v@)),
        TirStmt::Expr(e) => TirStmtV::Expr(tir_v(e)),
    }
}

pub open spec fn tstmts_v(s: Seq<TirStmt>) -> Seq<TirStmtV>
    decreases s,
{
    if s.len() == 0 {
        Seq::empty()
    } else {
        tstmts_v(s.subrange(0, s.len() - 1)).push(tstmt_v(s[s.len() - 1]))
    }
}

impl View for TirStmt {
    type V = TirStmtV;

    open spec fn view(&self) -> TirStmtV {
        tstmt_v(*self)
    }
}

/// Pushing onto a list of statements extends its view by the view of the new statement.
pub proof fn lemma_tstmts_v_push(s: Seq<TirStmt>, x: TirStmt)
    ensures
        tstmts_v(s.push(x)) == tstmts_v(s).push(tstmt_v(x)),
{
    assert(s.push(x).subrange(0, s.len() as int) =~= s);
}

/// A typed top-level item.
#[derive(Debug)]
pub enum TirObj {
    Fn {
        symbol: Symbol,
        returns: Rc<QualType>,
        args: Vec<(Symbol, Rc<QualType>)>,
        body: Box<TirStmt>,
    },
    Global { lhs: Symbol, rhs: Box<TirExprKind> },
    Struct { name: Symbol, fields: Vec<(Symbol, Rc<QualType>)> },
}

/// A type-checked function, with the symbols of its parameters and locals.
#[derive(Debug)]
pub struct TirFunction {
    pub name: Spanned<RcString>,
    pub symbol: Symbol,
    pub return_type: Rc<QualType>,
    pub local_symbols: Vec<Symbol>,
    pub body: Option<TirStmt>,
}

/// The value of a type-checked function.
pub struct TirFunctionV {
    pub name: SpannedV<Seq<char>>,
    pub symbol: SymbolV,
    pub return_type: QualTypeV,
    pub local_symbols: Seq<SymbolV>,
    pub body: Option<TirStmtV>,
}

/// The values of a list of symbols.
pub open spec fn syms_v(s: Seq<Symbol>) -> Seq<SymbolV> {
    s.map_values(|x: Symbol| x@)
}

impl View for TirFunction {
    type V = TirFunctionV;

    open spec fn view(&self) -> TirFunctionV {
        TirFunctionV {
            name: self.name@,
            symbol: self.symbol@,
            return_type: (*self.return_type)@,
            local_symbols: syms_v(self.local_symbols@),
            body: match self.body {
                Some(b) => Some(tstmt_v(b)),
                None => None,
            },
        }
    }
}

} // verus!
