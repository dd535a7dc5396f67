//! The high-level IR that the parser produces: the syntax tree, with spans.
use crate::ops::{BinOp, UnOp};
use crate::qual_type::RcString;
use crate::raw_type::{RawType, RawTypeV};
use crate::span::{Spanned, SpannedV};
use std::rc::Rc;
use vstd::prelude::*;

verus! {

#[derive(Debug)]
pub enum HirExpr {
    Void,
    Num(RcString),
    Bool(bool),
    Ident(RcString),
    Assign { lhs: Box<Spanned<HirExpr>>, rhs: Box<Spanned<HirExpr>> },
    AddrOf { inner: Box<Spanned<HirExpr>> },
    SizeOfTy { ty: Spanned<Rc<RawType>> },
    SizeOfExpr { expr: Box<Spanned<HirExpr>> },
    Deref { inner: Box<Spanned<HirExpr>> },
    Index { base: Box<Spanned<HirExpr>>, index: Box<Spanned<HirExpr>> },
    Field { base: Box<Spanned<HirExpr>>, field: RcString },
    Un { op: UnOp, rhs: Box<Spanned<HirExpr>> },
    Bin { op: BinOp, lhs: Box<Spanned<HirExpr>>, rhs: Box<Spanned<HirExpr>> },
    Cast { target_ty: Spanned<Rc<RawType>>, rhs: Box<Spanned<HirExpr>> },
    Call { callee: Box<Spanned<HirExpr>>, args: Vec<Spanned<HirExpr>> },
}

pub enum HirExprV {
    Void,
    Num(Seq<char>),
    Bool(bool),
    Ident(Seq<char>),
    Assign { lhs: Box<SpannedV<HirExprV>>, rhs: Box<SpannedV<HirExprV>> },
    AddrOf { inner: Box<SpannedV<HirExprV>> },
    SizeOfTy { ty: SpannedV<RawTypeV> },
    SizeOfExpr { expr: Box<SpannedV<HirExprV>> },
    Deref { inner: Box<SpannedV<HirExprV>> },
    Index { base: Box<SpannedV<HirExprV>>, index: Box<SpannedV<HirExprV>> },
    Field { base: Box<SpannedV<HirExprV>>, field: Seq<char> },
    Un { op: UnOp, rhs: Box<SpannedV<HirExprV>> },
    Bin { op: BinOp, lhs: Box<SpannedV<HirExprV>>, rhs: Box<SpannedV<HirExprV>> },
    Cast { target_ty: SpannedV<RawTypeV>, rhs: Box<SpannedV<HirExprV>> },
    Call { callee: Box<SpannedV<HirExprV>>, args: Seq<SpannedV<HirExprV>> },
}

pub open spec fn sexpr_v(e: Spanned<HirExpr>) -> SpannedV<HirExprV>
    decreases e,
{
    SpannedV { inner: expr_v(e.inner), span: e.span }
}

pub open spec fn sexprs_v(s: Seq<Spanned<HirExpr>>) -> Seq<SpannedV<HirExprV>>
    decreases s,
{
    if s.len() == 0 {
        Seq::empty()
    } else {
        sexprs_v(s.subrange(0, s.len() - 1)).push(sexpr_v(s[s.len() - 1]))
    }
}

pub open spec fn expr_v(e: HirExpr) -> HirExprV
    decreases e,
{
    match e {
        HirExpr::Void => HirExprV::Void,
        HirExpr::Num(s) => HirExprV::Num((*s)@),
        HirExpr::Bool(b) => HirExprV::Bool(b),
        HirExpr::Ident(s) => HirExprV::Ident((*s)@),
        HirExpr::Assign { lhs, rhs } => HirExprV::Assign {
            lhs: Box::new(sexpr_v(*lhs)),
            rhs: Box::new(sexpr_v(*rhs)),
        },
        HirExpr::AddrOf { inner } => HirExprV::AddrOf { inner: Box::new(sexpr_v(*inner)) },
        HirExpr::SizeOfTy { ty } => HirExprV::SizeOfTy { ty: ty@ },
        HirExpr::SizeOfExpr { expr } => HirExprV::SizeOfExpr { expr: Box::new(sexpr_v(*expr)) },
        HirExpr::Deref { inner } => HirExprV::Deref { inner: Box::new(sexpr_v(*inner)) },
        HirExpr::Index { base, index } => HirExprV::Index {
            base: Box::new(sexpr_v(*base)),
            index: Box::new(sexpr_v(*index)),
        },
        HirExpr::Field { base, field } => HirExprV::Field {
            base: Box::new(sexpr_v(*base)),
            field: (*field)@,
        },
        HirExpr::Un { op, rhs } => HirExprV::Un { op, rhs: Box::new(sexpr_v(*rhs)) },
        HirExpr::Bin { op, lhs, rhs } => HirExprV::Bin {
            op,
            lhs: Box::new(sexpr_v(*lhs)),
            rhs: Box::new(sexpr_v(*rhs)),
        },
        HirExpr::Cast { target_ty, rhs } => HirExprV::Cast {
            target_ty: target_ty@,
            rhs: Box::new(sexpr_v(*rhs)),
        },
        HirExpr::Call { callee, args } => HirExprV::Call {
            callee: Box::new(sexpr_v(*callee)),
            args: sexprs_v(args@),
        },
    }
}

impl View for HirExpr {
    type V = HirExprV;

    open spec fn view(&self) -> HirExprV {
        expr_v(*self)
    }
}

/// The view of a list of spanned expressions, element by element.
pub proof fn lemma_sexprs_v(s: Seq<Spanned<HirExpr>>)
    ensures
        sexprs_v(s).len() == s.len(),
        forall|i: int| 0 <= i < s.len() ==> #[trigger] sexprs_v(s)[i] == sexpr_v(s[i]),
    decreases s.len(),
{
    if s.len() > 0 {
        lemma_sexprs_v(s.subrange(0, s.len() - 1));
        assert forall|i: int| 0 <= i < s.len() implies #[trigger] sexprs_v(s)[i] == sexpr_v(s[i]) by {
            if i < s.len() - 1 {
                assert(s.subrange(0, s.len() - 1)[i] == s[i]);
            }
        }
    }
}

/// Pushing onto a list extends its view by the view of the new element.
pub proof fn lemma_sexprs_v_push(s: Seq<Spanned<HirExpr>>, x: Spanned<HirExpr>)
    ensures
        sexprs_v(s.push(x)) == sexprs_v(s).push(sexpr_v(x)),
{
    assert(s.push(x).subrange(0, s.len() as int) =~= s);
}

#[derive(Debug)]
pub enum HirStmt {
    LetDecl { name: Spanned<RcString>, ty: Option<Spanned<Rc<RawType>>> },
    LetAssign { name: Spanned<RcString>, ty: Option<Spanned<Rc<RawType>>>, value: Spanned<HirExpr> },
    While { cond: Spanned<HirExpr>, body: Box<Spanned<HirStmt>> },
    Continue,
    Break,
    If { cond: Spanned<HirExpr>, then_: Box<Spanned<HirStmt>>, else_: Box<Spanned<HirStmt>> },
    Return(Option<Spanned<HirExpr>>),
    Block(Vec<Spanned<HirStmt>>),
    Expr(Spanned<HirExpr>),
}

pub enum HirStmtV {
    LetDecl { name: SpannedV<Seq<char>>, ty: Option<SpannedV<RawTypeV>> },
    LetAssign {
        name: SpannedV<Seq<char>>,
        ty: Option<SpannedV<RawTypeV>>,
        value: SpannedV<HirExprV>,
    },
    While { cond: SpannedV<HirExprV>, body: Box<SpannedV<HirStmtV>> },
    Continue,
    Break,
    If {
        cond: SpannedV<HirExprV>,
        then_: Box<SpannedV<HirStmtV>>,
        else_: Box<SpannedV<HirStmtV>>,
    },
    Return(Option<SpannedV<HirExprV>>),
    Block(Seq<SpannedV<HirStmtV>>),
    Expr(SpannedV<HirExprV>),
}

pub open spec fn opt_ty_v(t: Option<Spanned<Rc<RawType>>>) -> Option<SpannedV<RawTypeV>> {
    match t {
        Some(x) => Some(x@),
        None => None,
    }
}

pub open spec fn opt_expr_v(e: Option<Spanned<HirExpr>>) -> Option<SpannedV<HirExprV>> {
    match e {
        Some(x) => Some(sexpr_v(x)),
        None => None,
    }
}

pub open spec fn sstmt_v(s: Spanned<HirStmt>) -> SpannedV<HirStmtV>
    decreases s,
{
    SpannedV { inner: stmt_v(s.inner), span: s.span }
}

pub open spec fn sstmts_v(s: Seq<Spanned<HirStmt>>) -> Seq<SpannedV<HirStmtV>>
    decreases s,
{
    if s.len() == 0 {
        Seq::empty()
    } else {
        sstmts_v(s.subrange(0, s.len() - 1)).push(sstmt_v(s[s.len() - 1]))
    }
}

pub open spec fn stmt_v(s: HirStmt) -> HirStmtV
    decreases s,
{
    match s {
        HirStmt::LetDecl { name, ty } => HirStmtV::LetDecl { name: name@, ty: opt_ty_v(ty) },
        HirStmt::LetAssign { name, ty, value } => HirStmtV::LetAssign {
            name: name@,
            ty: opt_ty_v(ty),
            value: sexpr_v(value),
        },
        HirStmt::While { cond, body } => HirStmtV::While {
            cond: sexpr_v(cond),
            body: Box::new(sstmt_v(*body)),
        },
        HirStmt::Continue => HirStmtV::Continue,
        HirStmt::Break => HirStmtV::Break,
        HirStmt::If { cond, then_, else_ } => HirStmtV::If {
            cond: sexpr_v(cond),
            then_: Box::new(sstmt_v(*then_)),
            else_: Box::new(sstmt_v(*else_)),
        },
        HirStmt::Return(e) => HirStmtV::Return(opt_expr_v(e)),
        HirStmt::Block(v) => HirStmtV::Block(sstmts_v(v@)),
        HirStmt::Expr(e) => HirStmtV::Expr(sexpr_v(e)),
    }
}

impl View for HirStmt {
    type V = HirStmtV;

    open spec fn view(&self) -> HirStmtV {
        stmt_v(*self)
    }
}

pub proof fn lemma_sstmts_v(s: Seq<Spanned<HirStmt>>)
    ensures
        sstmts_v(s).len() == s.len(),
        forall|i: int| 0 <= i < s.len() ==> #[trigger] sstmts_v(s)[i] == sstmt_v(s[i]),
    decreases s.len(),
{
    if s.len() > 0 {
        lemma_sstmts_v(s.subrange(0, s.len() - 1));
        assert forall|i: int| 0 <= i < s.len() implies #[trigger] sstmts_v(s)[i] == sstmt_v(s[i]) by {
            if i < s.len() - 1 {
                assert(s.subrange(0, s.len() - 1)[i] == s[i]);
            }
        }
    }
}

pub proof fn lemma_sstmts_v_push(s: Seq<Spanned<HirStmt>>, x: Spanned<HirStmt>)
    ensures
        sstmts_v(s.push(x)) == sstmts_v(s).push(sstmt_v(x)),
{
    assert(s.push(x).subrange(0, s.len() as int) =~= s);
}

/// A global variable definition.
#[derive(Debug)]
pub struct HirGlobal {
    pub name: Spanned<RcString>,
    pub ty: Spanned<Rc<RawType>>,
    pub rhs: Box<Spanned<HirExpr>>,
}

/// A struct definition.
#[derive(Debug)]
pub struct HirStruct {
    pub name: Spanned<RcString>,
    pub fields: Vec<(Spanned<RcString>, Spanned<Rc<RawType>>)>,
}

/// A function definition.
#[derive(Debug)]
pub struct HirFunction {
    pub name: Spanned<RcString>,
    pub return_type: Spanned<Rc<RawType>>,
    pub args: Vec<(Spanned<RcString>, Spanned<Rc<RawType>>)>,
    pub body: Spanned<HirStmt>,
}

/// A top-level item.
#[derive(Debug)]
pub enum HirObj {
    Fn(HirFunction),
    Global(HirGlobal),
    Struct(HirStruct),
}

/// A list of (name, type) pairs as values.
pub type DeclsV = Seq<(SpannedV<Seq<char>>, SpannedV<RawTypeV>)>;

pub enum HirObjV {
    Fn {
        name: SpannedV<Seq<char>>,
        return_type: SpannedV<RawTypeV>,
        args: DeclsV,
        body: SpannedV<HirStmtV>,
    },
    Global { name: SpannedV<Seq<char>>, ty: SpannedV<RawTypeV>, rhs: SpannedV<HirExprV> },
    Struct { name: SpannedV<Seq<char>>, fields: DeclsV },
}

pub open spec fn decls_v(v: Seq<(Spanned<RcString>, Spanned<Rc<RawType>>)>) -> DeclsV {
    Seq::new(v.len(), |i: int| (v[i].0@, v[i].1@))
}

impl View for HirObj {
    type V = HirObjV;

    open spec fn view(&self) -> HirObjV {
        match self {
            HirObj::Fn(f) => HirObjV::Fn {
                name: f.name@,
                return_type: f.return_type@,
                args: decls_v(f.args@),
                body: sstmt_v(f.body),
            },
            HirObj::Global(g) => HirObjV::Global { name: g.name@, ty: g.ty@, rhs: sexpr_v(*g.rhs) },
            HirObj::Struct(s) => HirObjV::Struct { name: s.name@, fields: decls_v(s.fields@) },
        }
    }
}

} // verus!
