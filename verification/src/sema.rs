//! Type checking: from the high-level IR to the typed IR. Names are resolved to symbols through
//! lexical scopes, and every expression gets its qualified type.
use crate::env::{assoc_get, assoc_index, assoc_insert, assoc_v, scopes_get, Scopes};
use crate::error::CompileError;
use crate::hir::{decls_v, DeclsV, HirFunction, sexpr_v, sexprs_v, lemma_sexprs_v, sstmt_v, sstmts_v, lemma_sstmts_v, HirExpr, HirExprV, HirStmt, HirStmtV};
use crate::interner::{rc_share, Internable};
use crate::raw_type::RawType;
use std::rc::Rc;
use crate::ir_types::IRValue;
use crate::module::ModuleBuilder;
use crate::ops::{is_arithmetic_v, is_ordered_v, BinOp, UnOp};
use crate::qual_type::{bits_v, share_all, is_integral_v, is_pointer_v, is_signed_v, bytes_v, pointer_to_v, QualType, QualTypeV, RcString};
use crate::raw_type::RawTypeV;
use crate::span::{Span, Spanned, SpannedV};
use crate::tir::{TirFunctionV, syms_v, tstmts_v, TirFunction, TirStmt, lemma_tirs_v, lemma_tirs_v_push, tir_v, tirs_v, TirExpr, TirExprKind, TirExprV, TirKindV, TirStmtV};
use crate::translation_unit::{q_type, qtype, qualify_raw_type, rcs_v, GlobalState, LoopLabels, SymbolInfo, SymbolInfoV, SymbolKind, SymbolV, Symbol};
use crate::literal::{all_digits, digits_value, parse_int_v};
use vstd::arithmetic::power2::{lemma2_to64, lemma2_to64_rest, pow2};
use vstd::prelude::*;

verus! {

/// The state of type checking.
pub struct CompilerContext {
    pub symbol_table: Vec<(Symbol, SymbolInfo)>,
    pub scopes: Scopes<RcString, Symbol>,
    pub top_level_scope: Vec<(RcString, Symbol)>,
    pub loop_labels: Vec<LoopLabels>,
    pub loop_depth: usize,
    pub module: ModuleBuilder,
    pub state: GlobalState,
}

/// The value of the state of type checking, as far as type checking reads and changes it.
pub struct TcCtx {
    pub scopes: Seq<Map<Seq<char>, SymbolV>>,
    pub top: Map<Seq<char>, SymbolV>,
    pub table: Map<SymbolV, SymbolInfoV>,
    pub types: Map<Seq<char>, QualTypeV>,
    pub counter: nat,
    pub loop_depth: nat,
}

impl CompilerContext {
    pub open spec fn tc(&self) -> TcCtx {
        TcCtx {
            scopes: self.scopes@,
            top: assoc_v(self.top_level_scope@),
            table: assoc_v(self.symbol_table@),
            types: self.state.types_v(),
            counter: self.state.symbol_counter as nat,
            loop_depth: self.loop_depth as nat,
        }
    }
}

/// Every name in scope resolves to a symbol that the table knows, and some scope is open.
pub open spec fn ctx_wf(c: TcCtx) -> bool {
    &&& c.scopes.len() > 0
    &&& forall|i: int, k: Seq<char>|
        0 <= i < c.scopes.len() && #[trigger] c.scopes[i].contains_key(k) ==> c.table.contains_key(
            c.scopes[i][k],
        )
    &&& forall|k: Seq<char>| #[trigger] c.top.contains_key(k) ==> c.table.contains_key(c.top[k])
    &&& forall|s: SymbolV| #[trigger] c.table.contains_key(s) ==> s.1 < c.counter
}

/// The symbol that `name` resolves to: the innermost binding in scope, else the top level.
pub open spec fn resolve_v(c: TcCtx, name: Seq<char>) -> Option<SymbolV> {
    match scopes_get(c.scopes, name) {
        Some(s) => Some(s),
        None => if c.top.contains_key(name) {
            Some(c.top[name])
        } else {
            None
        },
    }
}

proof fn lemma_scopes_get_in<K, V>(ss: Seq<Map<K, V>>, k: K)
    ensures
        scopes_get(ss, k) matches Some(v) ==> exists|i: int|
            0 <= i < ss.len() && #[trigger] ss[i].contains_key(k) && ss[i][k] == v,
    decreases ss.len(),
{
    if ss.len() > 0 && !ss.last().contains_key(k) {
        lemma_scopes_get_in(ss.drop_last(), k);
        if scopes_get(ss, k) is Some {
            let i = choose|i: int|
                0 <= i < ss.drop_last().len() && #[trigger] ss.drop_last()[i].contains_key(k)
                    && ss.drop_last()[i][k] == scopes_get(ss, k)->0;
            assert(ss[i] == ss.drop_last()[i]);
        }
    } else if ss.len() > 0 {
        assert(ss[ss.len() - 1].contains_key(k));
    }
}

/// In a well-formed state, a name that resolves resolves to a symbol of the table.
pub proof fn lemma_resolve_in_table(c: TcCtx, name: Seq<char>)
    requires
        ctx_wf(c),
    ensures
        resolve_v(c, name) matches Some(s) ==> c.table.contains_key(s),
{
    lemma_scopes_get_in(c.scopes, name);
}

/// A typed expression of kind `kind` and type `ty`.
pub open spec fn mk(kind: TirKindV, ty: QualTypeV) -> TirExprV {
    TirExprV { kind, ty }
}

/// A value of function type is used as a pointer to the function.
pub open spec fn decay_v(t: QualTypeV) -> QualTypeV {
    if t is Function {
        QualTypeV::Pointer(Box::new(t))
    } else {
        t
    }
}

/// The range of values of an integer type.
pub open spec fn int_range(t: QualTypeV) -> Option<(int, int)> {
    match t {
        QualTypeV::I8 => Some((-0x80, 0x7f)),
        QualTypeV::U8 => Some((0, 0xff)),
        QualTypeV::I16 => Some((-0x8000, 0x7fff)),
        QualTypeV::U16 => Some((0, 0xffff)),
        QualTypeV::I32 => Some((-0x8000_0000, 0x7fff_ffff)),
        QualTypeV::U32 => Some((0, 0xffff_ffff)),
        QualTypeV::I64 => Some((-0x8000_0000_0000_0000, 0x7fff_ffff_ffff_ffff)),
        QualTypeV::U64 => Some((0, 0xffff_ffff_ffff_ffff)),
        _ => None,
    }
}

/// Each integer type holds the numbers of its width and signedness: a signed type of `b` bits
/// holds -2^(b-1) through 2^(b-1) - 1, an unsigned one 0 through 2^b - 1.
pub proof fn law_int_range(t: QualTypeV)
    requires
        is_integral_v(t),
    ensures
        (int_range(t) matches Some((lo, hi)) && (is_signed_v(t) ==> lo == -pow2((bits_v(t) - 1) as nat) && hi
            == pow2((bits_v(t) - 1) as nat) - 1) && (!is_signed_v(t) ==> lo == 0 && hi == pow2(bits_v(t)) - 1)),
{
    lemma2_to64();
    lemma2_to64_rest();
}

/// A literal of decimal digits is accepted at an integer type exactly when its value fits the
/// type, and then it has that value.
pub proof fn law_digits_literal(d: Seq<char>, t: QualTypeV)
    requires
        is_integral_v(t),
        d.len() > 0,
        all_digits(d),
    ensures
        (int_range(t) matches Some((lo, hi)) && (literal_value(d, t) == if digits_value(d) <= hi {
            Some(digits_value(d))
        } else {
            None::<int>
        })),
{
    crate::literal::lemma_digits_value_nonneg(d);
    assert(!(d[0] == '+' || d[0] == '-')) by {
        assert(crate::literal::is_dec_digit(d[0]));
    }
}

/// The type of a numeric literal: the expected type if it is an integer or pointer type, else
/// `i32`.
pub open spec fn num_type(hint: Option<QualTypeV>) -> QualTypeV {
    match hint {
        Some(h) => if is_integral_v(h) || is_pointer_v(h) {
            h
        } else {
            QualTypeV::I32
        },
        None => QualTypeV::I32,
    }
}

/// The value of the literal `s` at type `ty`: an integer in the type's range, or zero for a
/// pointer (the null pointer, written as an `i32` zero).
pub open spec fn literal_value(s: Seq<char>, ty: QualTypeV) -> Option<int> {
    match int_range(ty) {
        Some((lo, hi)) => parse_int_v(s, lo, hi),
        None => if ty is Pointer && parse_int_v(s, -0x8000_0000, 0x7fff_ffff) == Some(0int) {
            Some(0)
        } else {
            None
        },
    }
}

/// How binary operators see an operand type.
pub enum OperandClass {
    Integral,
    Pointer,
    Other,
}

pub open spec fn class_v(t: QualTypeV) -> OperandClass {
    if is_pointer_v(t) {
        OperandClass::Pointer
    } else if is_integral_v(t) {
        OperandClass::Integral
    } else {
        OperandClass::Other
    }
}

/// The typing rule of binary operators: the operator to use (pointer arithmetic gets its own)
/// and the result type, or `None` where the operand types are not accepted. The rules are
/// tried in order: `ptr - ptr` of one type, `ptr + int`, `ptr - int`, `int + ptr`, arithmetic
/// on one integer type, ordering of one integer or pointer type, and (in)equality of one type.
pub open spec fn bin_rule(op: BinOp, l: QualTypeV, r: QualTypeV) -> Option<(BinOp, QualTypeV)> {
    let lc = class_v(l);
    let rc = class_v(r);
    if lc is Pointer && op == BinOp::Sub && rc is Pointer && l == r {
        Some((BinOp::Sub, l))
    } else if lc is Pointer && op == BinOp::Add && rc is Integral {
        Some((BinOp::PtrAdd, l))
    } else if lc is Pointer && op == BinOp::Sub && rc is Integral {
        Some((BinOp::PtrSub, l))
    } else if lc is Integral && op == BinOp::Add && rc is Pointer {
        Some((BinOp::PtrAdd, r))
    } else if lc is Integral && rc is Integral && l == r && is_arithmetic_v(op) {
        Some((op, l))
    } else if !(lc is Other) && !(rc is Other) && l == r && is_ordered_v(op) {
        Some((op, QualTypeV::Bool))
    } else if (op == BinOp::Eq || op == BinOp::Ne) && l == r {
        Some((op, QualTypeV::Bool))
    } else {
        None
    }
}

/// Two integer operands: an operator is accepted exactly when both have one type; arithmetic
/// then gives a value of that type and a comparison gives a `bool`.
pub proof fn law_integer_operands(op: BinOp, l: QualTypeV, r: QualTypeV)
    requires
        is_integral_v(l),
        is_integral_v(r),
        op != BinOp::PtrAdd,
        op != BinOp::PtrSub,
    ensures
        bin_rule(op, l, r) is Some <==> l == r,
        l == r && is_arithmetic_v(op) ==> bin_rule(op, l, r) == Some((op, l)),
        l == r && !is_arithmetic_v(op) ==> bin_rule(op, l, r) == Some((op, QualTypeV::Bool)),
{
}

/// What an accepted operator gives: arithmetic gives a value of one of its operands' types and
/// keeps its operator, except that `+` and `-` with a pointer become pointer arithmetic with the
/// pointer's type; a comparison keeps its operator, needs operands of one type and gives a
/// `bool`.
pub proof fn law_operator_result(op: BinOp, l: QualTypeV, r: QualTypeV)
    requires
        op != BinOp::PtrAdd,
        op != BinOp::PtrSub,
    ensures
        bin_rule(op, l, r) matches Some((o, t)) ==> {
            &&& is_arithmetic_v(op) ==> (t == l || t == r) && !(t is Bool)
            &&& is_arithmetic_v(op) && o != op ==> (o == BinOp::PtrAdd && op == BinOp::Add
                || o == BinOp::PtrSub && op == BinOp::Sub) && is_pointer_v(t)
            &&& !is_arithmetic_v(op) ==> o == op && t == QualTypeV::Bool && l == r
        },
{
}

/// The parameter types and return type of what a callee of type `t` calls: a function, or a
/// pointer to one.
pub open spec fn callee_sig(t: QualTypeV) -> Option<(Seq<QualTypeV>, QualTypeV)> {
    match t {
        QualTypeV::Function { arg_types, return_type } => Some((arg_types, *return_type)),
        QualTypeV::Pointer(f) => match *f {
            QualTypeV::Function { arg_types, return_type } => Some((arg_types, *return_type)),
            _ => None,
        },
        _ => None,
    }
}

pub type ExV = SpannedV<HirExprV>;

/// Type checking of an expression whose value is used. `hint` is the type that the context
/// expects, which guides the type of literals.
pub open spec fn tc_rvalue(c: TcCtx, e: ExV, hint: Option<QualTypeV>) -> Result<TirExprV, CompileError>
    decreases e,
{
    let at = e.span;
    match e.inner {
        HirExprV::Void => Err(CompileError::Unsupported { at }),
        HirExprV::Num(s) => {
            let ty = num_type(hint);
            match literal_value(s, ty) {
                Some(v) => Ok(mk(TirKindV::Num(v), ty)),
                None => Err(CompileError::BadLiteral { at }),
            }
        },
        HirExprV::Bool(b) => Ok(mk(TirKindV::Bool(b), QualTypeV::Bool)),
        HirExprV::Ident(i) => match resolve_v(c, i) {
            None => Err(CompileError::UndefinedVariable { at }),
            Some(sym) => {
                let info = c.table[sym];
                if info.ty is Function {
                    Ok(mk(TirKindV::AddrOf(info.symbol), info.ty))
                } else {
                    Ok(mk(TirKindV::ValueOf(info.symbol), info.ty))
                }
            },
        },
        HirExprV::Assign { lhs, rhs } => match tc_lvalue(c, *lhs, None) {
            Err(err) => Err(err),
            Ok(l) => match l.ty {
                QualTypeV::Pointer(p) => match tc_rvalue(c, *rhs, Some(*p)) {
                    Err(err) => Err(err),
                    Ok(r) => if *p != decay_v(r.ty) {
                        Err(CompileError::TypeMismatch { at })
                    } else {
                        Ok(mk(TirKindV::Store { ptr: Box::new(l), val: Box::new(r) }, r.ty))
                    },
                },
                _ => Err(CompileError::NotAPointer { at }),
            },
        },
        HirExprV::AddrOf { inner } => tc_lvalue(c, *inner, None),
        HirExprV::SizeOfTy { ty } => match q_type(c.types, ty.inner) {
            None => Err(CompileError::UnknownType { at: ty.span }),
            Some(q) => if q is Struct {
                Err(CompileError::Unsupported { at })
            } else {
                Ok(mk(TirKindV::Num(bytes_v(q) as int), QualTypeV::U64))
            },
        },
        HirExprV::SizeOfExpr { expr } => match tc_rvalue(c, *expr, None) {
            Err(err) => Err(err),
            Ok(x) => if x.ty is Struct {
                Err(CompileError::Unsupported { at })
            } else {
                Ok(mk(TirKindV::Num(bytes_v(x.ty) as int), QualTypeV::U64))
            },
        },
        HirExprV::Deref { inner } => match tc_rvalue(c, *inner, None) {
            Err(err) => Err(err),
            Ok(p) => match p.ty {
                QualTypeV::Function { .. } => Ok(p),
                QualTypeV::Pointer(t) => Ok(mk(TirKindV::Load { inner: Box::new(p) }, *t)),
                _ => Err(CompileError::NotAPointer { at }),
            },
        },
        HirExprV::Index { base, index } => match tc_rvalue(c, *base, None) {
            Err(err) => Err(err),
            Ok(b) => if !is_pointer_v(b.ty) {
                Err(CompileError::NotAPointer { at })
            } else {
                match tc_rvalue(c, *index, Some(QualTypeV::U64)) {
                    Err(err) => Err(err),
                    Ok(ix) => match b.ty {
                        QualTypeV::Pointer(t) => Ok(
                            mk(
                                TirKindV::Load {
                                    inner: Box::new(
                                        mk(
                                            TirKindV::Bin {
                                                op: BinOp::PtrAdd,
                                                lhs: Box::new(b),
                                                rhs: Box::new(ix),
                                            },
                                            b.ty,
                                        ),
                                    ),
                                },
                                *t,
                            ),
                        ),
                        _ => Err(CompileError::NotAPointer { at }),
                    },
                }
            },
        },
        HirExprV::Field { .. } => Err(CompileError::Unsupported { at }),
        HirExprV::Un { op, rhs } => match tc_rvalue(c, *rhs, hint) {
            Err(err) => Err(err),
            Ok(r) => {
                let ok = match op {
                    UnOp::Not => r.ty is Bool,
                    UnOp::Neg => is_signed_v(r.ty),
                };
                if ok {
                    Ok(mk(TirKindV::Un { op, rhs: Box::new(r) }, r.ty))
                } else {
                    Err(CompileError::BadUnaryOperand { at })
                }
            },
        },
        HirExprV::Bin { op, lhs, rhs } => match tc_rvalue(c, *lhs, hint) {
            Err(err) => Err(err),
            Ok(l) => match tc_rvalue(c, *rhs, Some(l.ty)) {
                Err(err) => Err(err),
                Ok(r) => match bin_rule(op, l.ty, r.ty) {
                    None => Err(CompileError::UnsupportedOperation { at }),
                    Some((op2, ty)) => Ok(
                        mk(TirKindV::Bin { op: op2, lhs: Box::new(l), rhs: Box::new(r) }, ty),
                    ),
                },
            },
        },
        HirExprV::Cast { target_ty, rhs } => match q_type(c.types, target_ty.inner) {
            None => Err(CompileError::UnknownType { at: target_ty.span }),
            Some(t) => match tc_rvalue(c, *rhs, None) {
                Err(err) => Err(err),
                Ok(r) => Ok(mk(TirKindV::Cast { target_ty: t, expr: Box::new(r) }, t)),
            },
        },
        HirExprV::Call { callee, args } => match tc_rvalue(c, *callee, None) {
            Err(err) => Err(err),
            Ok(f) => match callee_sig(f.ty) {
                None => Err(CompileError::NotCallable { at }),
                Some((params, ret)) => match tc_args(c, args, params) {
                    Err(err) => Err(err),
                    Ok(xs) => Ok(mk(TirKindV::Call { callee: Box::new(f), args: xs }, ret)),
                },
            },
        },
    }
}

/// Checking a binary operation checks the left operand, then the right one with the left's
/// type as its expected type, keeps them in that order, and gives the operator and type that the
/// typing rule gives for the operand types.
pub proof fn law_binary_checking(c: TcCtx, op: BinOp, lhs: ExV, rhs: ExV, hint: Option<QualTypeV>, at: Span)
    ensures
        (tc_rvalue(c, (SpannedV { inner: HirExprV::Bin { op, lhs: Box::new(lhs), rhs: Box::new(rhs) }, span: at }), hint)
            matches Ok(v) ==> tc_rvalue(c, lhs, hint) matches Ok(l) && tc_rvalue(c, rhs, Some(l.ty)) matches Ok(r)
            && bin_rule(op, l.ty, r.ty) matches Some((o, t)) && t == v.ty
            && v.kind == (TirKindV::Bin { op: o, lhs: Box::new(l), rhs: Box::new(r) })),
{
}

/// A unary operation keeps its operand's type: `!` takes a truth value and `-` a signed
/// integer.
pub proof fn law_unary_checking(c: TcCtx, op: UnOp, rhs: ExV, hint: Option<QualTypeV>, at: Span)
    ensures
        (tc_rvalue(c, (SpannedV { inner: HirExprV::Un { op, rhs: Box::new(rhs) }, span: at }), hint) matches Ok(v)
            ==> tc_rvalue(c, rhs, hint) matches Ok(r) && v.ty == r.ty && (op == UnOp::Not ==> v.ty == QualTypeV::Bool)
            && (op == UnOp::Neg ==> is_signed_v(v.ty))),
{
}

/// Reading through a pointer gives a value of the type pointed to.
pub proof fn law_deref_checking(c: TcCtx, inner: ExV, at: Span)
    ensures
        (tc_rvalue(c, (SpannedV { inner: HirExprV::Deref { inner: Box::new(inner) }, span: at }), None) matches Ok(v)
            ==> tc_rvalue(c, inner, None) matches Ok(p) && (p.ty == QualTypeV::Pointer(Box::new(v.ty))
            || p.ty is Function && v == p)),
{
}

/// An assignment stores through the address of its left side a value whose type is the one
/// that address points to, and has the stored value's type.
pub proof fn law_assign_checking(c: TcCtx, lhs: ExV, rhs: ExV, hint: Option<QualTypeV>, at: Span)
    ensures
        (tc_rvalue(c, (SpannedV { inner: HirExprV::Assign { lhs: Box::new(lhs), rhs: Box::new(rhs) }, span: at }), hint)
            matches Ok(v) ==> v.kind matches TirKindV::Store { ptr, val } && tc_lvalue(c, lhs, None) == Ok::<TirExprV, CompileError>(*ptr)
            && ptr.ty == QualTypeV::Pointer(Box::new(decay_v(val.ty))) && v.ty == val.ty),
{
}

/// Type checking of call arguments against parameter types, pair by pair as far as both lists
/// go; each argument must have its parameter's type.
pub open spec fn tc_args(c: TcCtx, args: Seq<ExV>, params: Seq<QualTypeV>) -> Result<
    Seq<TirExprV>,
    CompileError,
>
    decreases args,
{
    if args.len() == 0 || params.len() == 0 {
        Ok(Seq::empty())
    } else {
        match tc_rvalue(c, args[0], Some(params[0])) {
            Err(err) => Err(err),
            Ok(x) => if x.ty != params[0] {
                Err(CompileError::ArgumentMismatch { at: args[0].span })
            } else {
                match tc_args(c, args.subrange(1, args.len() as int), params.subrange(1, params.len() as int)) {
                    Err(err) => Err(err),
                    Ok(xs) => Ok(seq![x] + xs),
                }
            },
        }
    }
}

/// Type checking of an expression that denotes a storage location: the result is its address.
pub open spec fn tc_lvalue(c: TcCtx, e: ExV, hint: Option<QualTypeV>) -> Result<TirExprV, CompileError>
    decreases e,
{
    let at = e.span;
    match e.inner {
        HirExprV::Ident(i) => match resolve_v(c, i) {
            None => Err(CompileError::UndefinedVariable { at }),
            Some(sym) => Ok(mk(TirKindV::AddrOf(sym), pointer_to_v(c.table[sym].ty))),
        },
        HirExprV::Index { base, index } => match tc_rvalue(c, *base, hint) {
            Err(err) => Err(err),
            Ok(b) => match tc_rvalue(c, *index, Some(QualTypeV::U64)) {
                Err(err) => Err(err),
                Ok(ix) => if !is_pointer_v(b.ty) {
                    Err(CompileError::NotAPointer { at: base.span })
                } else if !is_integral_v(ix.ty) {
                    Err(CompileError::NonIntegerIndex { at: index.span })
                } else {
                    Ok(
                        mk(
                            TirKindV::Bin { op: BinOp::PtrAdd, lhs: Box::new(b), rhs: Box::new(ix) },
                            b.ty,
                        ),
                    )
                },
            },
        },
        HirExprV::Deref { inner } => match tc_rvalue(c, *inner, hint) {
            Err(err) => Err(err),
            Ok(p) => if !is_pointer_v(p.ty) {
                Err(CompileError::NotAPointer { at })
            } else {
                Ok(p)
            },
        },
        HirExprV::Field { .. } => Err(CompileError::Unsupported { at }),
        _ => Err(CompileError::InvalidLvalue { at }),
    }
}

/// The value of an expected type.
pub open spec fn opt_q(h: Option<Rc<QualType>>) -> Option<QualTypeV> {
    match h {
        Some(t) => Some((*t)@),
        None => None,
    }
}

/// What the table records of a fresh symbol.
pub open spec fn new_info(sym: SymbolV, raw_name: SpannedV<Seq<char>>, ty: QualTypeV, kind: SymbolKind) -> SymbolInfoV {
    SymbolInfoV { symbol: sym, raw_name, ty, kind, address_taken: false, value: None }
}

/// Creating a symbol for `raw_name`: it is numbered by the counter, bound in the innermost
/// scope and recorded in the table.
pub open spec fn create_v(c: TcCtx, raw_name: SpannedV<Seq<char>>, ty: QualTypeV, kind: SymbolKind) -> (
    SymbolV,
    TcCtx,
) {
    let sym = (raw_name.inner, c.counter as usize);
    (
        sym,
        TcCtx {
            scopes: c.scopes.update(c.scopes.len() - 1, c.scopes.last().insert(raw_name.inner, sym)),
            top: c.top,
            table: c.table.insert(sym, new_info(sym, raw_name, ty, kind)),
            types: c.types,
            counter: c.counter + 1,
            loop_depth: c.loop_depth,
        },
    )
}

/// Creating a symbol keeps a state well-formed.
pub proof fn lemma_create_wf(c: TcCtx, raw_name: SpannedV<Seq<char>>, ty: QualTypeV, kind: SymbolKind)
    requires
        ctx_wf(c),
    ensures
        ctx_wf(create_v(c, raw_name, ty, kind).1),
{
    let c2 = create_v(c, raw_name, ty, kind).1;
    assert forall|i: int, k: Seq<char>|
        0 <= i < c2.scopes.len() && #[trigger] c2.scopes[i].contains_key(k) implies c2.table.contains_key(
        c2.scopes[i][k],
    ) by {
        if i == c.scopes.len() - 1 && k == raw_name.inner {
        } else if i == c.scopes.len() - 1 {
            assert(c.scopes[i].contains_key(k));
        } else {
            assert(c.scopes[i].contains_key(k));
        }
    }
}

impl CompilerContext {
    /// Creates a symbol for `raw_name` of type `qual_ty`, binds the name to it in the innermost
    /// scope, and records it in the table.
    pub fn create_symbol(&mut self, raw_name: Spanned<RcString>, qual_ty: Rc<QualType>, kind: SymbolKind) -> (r: Symbol)
        requires
            old(self).state.symbol_counter < usize::MAX,
        ensures
            (r@, final(self).tc()) == create_v(old(self).tc(), raw_name@, qual_ty@, kind),
            ctx_wf(old(self).tc()) ==> !old(self).tc().table.contains_key(r@),
            ctx_wf(old(self).tc()) ==> ctx_wf(final(self).tc()),
    {
        let ghost c = self.tc();
        let symbol = crate::translation_unit::next_symbol(&mut self.state, (*raw_name.inner).as_str());
        let ghost n = self.scopes@.len();
        let d = self.scopes.depth();
        self.scopes.insert(rc_share(&raw_name.inner), symbol.clone());
        let info = SymbolInfo {
            symbol: symbol.clone(),
            raw_name,
            value: None,
            ty: qual_ty,
            kind,
            address_taken: false,
        };
        assoc_insert(&mut self.symbol_table, symbol.clone(), info);
        proof {
            assert(self.tc().scopes =~= create_v(c, raw_name@, qual_ty@, kind).1.scopes);
        }
        symbol
    }

    /// The symbol that `name` stands for: the innermost binding in scope, else the top-level one.
    pub fn resolve_ident(&self, name: &RcString) -> (r: Option<Symbol>)
        ensures
            match resolve_v(self.tc(), name@) {
                Some(s) => r matches Some(x) && x@ == s,
                None => r is None,
            },
    {
        match self.scopes.get(name) {
            Some(s) => Some(s),
            None => assoc_get(&self.top_level_scope, name),
        }
    }

    /// What the table records of `symbol`, which it must hold.
    pub fn lookup_symbol(&self, symbol: &Symbol) -> (r: &SymbolInfo)
        requires
            self.tc().table.contains_key(symbol@),
        ensures
            r@ == self.tc().table[symbol@],
    {
        let i = assoc_index(&self.symbol_table, symbol).unwrap();
        &self.symbol_table[i].1
    }

    /// What the table records of `symbol`, which it must hold, for changing it in place.
    pub fn lookup_symbol_mut(&mut self, symbol: &Symbol) -> (r: &mut SymbolInfo)
        requires
            old(self).tc().table.contains_key(symbol@),
        ensures
            (*r)@ == old(self).tc().table[symbol@],
            final(self).tc() == (TcCtx { table: old(self).tc().table.insert(symbol@, (*final(r))@), ..old(self).tc() }),
    {
        let i = assoc_index(&self.symbol_table, symbol).unwrap();
        proof {
            crate::env::lemma_assoc_update(self.symbol_table@, i as int);
        }
        &mut self.symbol_table[i].1
    }

    /// Forgets the loops of the function checked last.
    pub fn reset(&mut self)
        ensures
            final(self).tc() == (TcCtx { loop_depth: 0, ..old(self).tc() }),
            final(self).loop_labels@.len() == 0,
            final(self).module == old(self).module,
            final(self).state == old(self).state,
    {
        self.loop_labels = Vec::new();
        self.loop_depth = 0;
    }

    /// The qualified type that `ty` stands for; `None` if a name in it names no type.
    pub fn qualify_type(&mut self, ty: &RawType) -> (r: Option<Rc<QualType>>)
        ensures
            match q_type(old(self).tc().types, ty@) {
                Some(q) => r matches Some(x) && x@ == q,
                None => r is None,
            },
            final(self).tc() == old(self).tc(),
    {
        qualify_raw_type(&mut self.state, ty)
    }
}

/// The type used for a value of type `t`: a function is used through a pointer to it.
fn decay(state: &mut GlobalState, t: &Rc<QualType>) -> (r: Rc<QualType>)
    ensures
        r@ == decay_v(t@),
        final(state).type_names == old(state).type_names,
        final(state).symbol_counter == old(state).symbol_counter,
{
    match &**t {
        QualType::Function { .. } => qtype(state, &QualType::Pointer(rc_share(t))),
        _ => rc_share(t),
    }
}

/// The value of a numeric literal at type `ty` (see `literal_value`).
fn literal(s: &str, ty: &QualType) -> (r: Option<i128>)
    ensures
        match literal_value(s@, ty@) {
            Some(v) => r == Some(v as i128),
            None => r is None,
        },
{
    match ty {
        QualType::I8 => crate::literal::parse_int(s, -0x80, 0x7f),
        QualType::U8 => crate::literal::parse_int(s, 0, 0xff),
        QualType::I16 => crate::literal::parse_int(s, -0x8000, 0x7fff),
        QualType::U16 => crate::literal::parse_int(s, 0, 0xffff),
        QualType::I32 => crate::literal::parse_int(s, -0x8000_0000, 0x7fff_ffff),
        QualType::U32 => crate::literal::parse_int(s, 0, 0xffff_ffff),
        QualType::I64 => crate::literal::parse_int(s, -0x8000_0000_0000_0000, 0x7fff_ffff_ffff_ffff),
        QualType::U64 => crate::literal::parse_int(s, 0, 0xffff_ffff_ffff_ffff),
        QualType::Pointer(..) => match crate::literal::parse_int(s, -0x8000_0000, 0x7fff_ffff) {
            Some(v) => if v == 0 {
                Some(0)
            } else {
                None
            },
            None => None,
        },
        _ => None,
    }
}

fn class_of(t: &QualType) -> (r: OperandClass)
    ensures
        r == class_v(t@),
{
    if t.is_pointer() {
        OperandClass::Pointer
    } else if t.is_integral() {
        OperandClass::Integral
    } else {
        OperandClass::Other
    }
}

/// The typing rule of binary operators (see `bin_rule`), with the result type interned.
pub fn binary_rule(state: &mut GlobalState, op: BinOp, l: &Rc<QualType>, r: &Rc<QualType>) -> (res: Option<(BinOp, Rc<QualType>)>)
    ensures
        match bin_rule(op, l@, r@) {
            Some((o, t)) => res matches Some(x) && x.0 == o && x.1@ == t,
            None => res is None,
        },
        final(state).type_names == old(state).type_names,
        final(state).symbol_counter == old(state).symbol_counter,
{
    let lc = class_of(l);
    let rc = class_of(r);
    let same = (**l).same(&**r);
    let l_ptr = matches!(lc, OperandClass::Pointer);
    let l_int = matches!(lc, OperandClass::Integral);
    let r_ptr = matches!(rc, OperandClass::Pointer);
    let r_int = matches!(rc, OperandClass::Integral);
    if l_ptr && op == BinOp::Sub && r_ptr && same {
        Some((BinOp::Sub, rc_share(l)))
    } else if l_ptr && op == BinOp::Add && r_int {
        Some((BinOp::PtrAdd, rc_share(l)))
    } else if l_ptr && op == BinOp::Sub && r_int {
        Some((BinOp::PtrSub, rc_share(l)))
    } else if l_int && op == BinOp::Add && r_ptr {
        Some((BinOp::PtrAdd, rc_share(r)))
    } else if l_int && r_int && same && op.is_arithmetic() {
        Some((op, rc_share(l)))
    } else if (l_int || l_ptr) && (r_int || r_ptr) && same && op.is_ordered() {
        Some((op, qtype(state, &QualType::Bool)))
    } else if (op == BinOp::Eq || op == BinOp::Ne) && same {
        Some((op, qtype(state, &QualType::Bool)))
    } else {
        None
    }
}

impl Spanned<HirExpr> {
    /// Type checks an expression that denotes a storage location (see `tc_lvalue`); the result
    /// is its address.
    pub fn type_check_lvalue(&self, ctx: &mut CompilerContext, hint: Option<Rc<QualType>>) -> (r: Result<TirExpr, CompileError>)
        requires
            ctx_wf(old(ctx).tc()),
        ensures
            final(ctx).tc() == old(ctx).tc(),
            match tc_lvalue(old(ctx).tc(), sexpr_v(*self), opt_q(hint)) {
                Ok(x) => r matches Ok(y) && y@ == x,
                Err(e) => r matches Err(e2) && e2 == e,
            },
        decreases *self, 0int,
    {
        let span = self.span;
        match &self.inner {
            HirExpr::Ident(i) => {
                let symbol = match ctx.resolve_ident(i) {
                    Some(s) => s,
                    None => {
                        return Err(CompileError::UndefinedVariable { at: span });
                    },
                };
                proof {
                    lemma_resolve_in_table(ctx.tc(), (**i)@);
                }
                let inner_ty = rc_share(&ctx.lookup_symbol(&symbol).ty);
                let ty = inner_ty.create_pointer(&mut ctx.state.qualified_types);
                Ok(TirExpr::new(TirExprKind::AddrOf(symbol), ty))
            },
            HirExpr::Index { base, index } => {
                let checked_base = base.type_check_rvalue(ctx, hint)?;
                let u64_ty = qtype(&mut ctx.state, &QualType::U64);
                let checked_index = index.type_check_rvalue(ctx, Some(u64_ty))?;
                if !checked_base.ty.is_pointer() {
                    return Err(CompileError::NotAPointer { at: base.span });
                }
                if !checked_index.ty.is_integral() {
                    return Err(CompileError::NonIntegerIndex { at: index.span });
                }
                let ty = rc_share(&checked_base.ty);
                let kind = TirExprKind::Bin {
                    op: BinOp::PtrAdd,
                    lhs: Box::new(checked_base),
                    rhs: Box::new(checked_index),
                };
                Ok(TirExpr::new(kind, ty))
            },
            HirExpr::Deref { inner } => {
                let ptr = inner.type_check_rvalue(ctx, hint)?;
                if !ptr.ty.is_pointer() {
                    return Err(CompileError::NotAPointer { at: span });
                }
                Ok(ptr)
            },
            HirExpr::Field { .. } => Err(CompileError::Unsupported { at: span }),
            _ => Err(CompileError::InvalidLvalue { at: span }),
        }
    }

    /// Type checks an expression whose value is used (see `tc_rvalue`). `hint` is the type the
    /// context expects.
    pub fn type_check_rvalue(&self, ctx: &mut CompilerContext, hint: Option<Rc<QualType>>) -> (r: Result<TirExpr, CompileError>)
        requires
            ctx_wf(old(ctx).tc()),
        ensures
            final(ctx).tc() == old(ctx).tc(),
            match tc_rvalue(old(ctx).tc(), sexpr_v(*self), opt_q(hint)) {
                Ok(x) => r matches Ok(y) && y@ == x,
                Err(e) => r matches Err(e2) && e2 == e,
            },
        decreases *self, 1int,
    {
        let span = self.span;
        match &self.inner {
            HirExpr::Void => Err(CompileError::Unsupported { at: span }),
            HirExpr::Num(..) => self.check_num(ctx, hint),
            HirExpr::Bool(b) => {
                let ty = qtype(&mut ctx.state, &QualType::Bool);
                Ok(TirExpr::new(TirExprKind::Bool(*b), ty))
            },
            HirExpr::Ident(..) => self.check_ident(ctx, hint),
            HirExpr::Assign { .. } => self.check_assign(ctx, hint),
            HirExpr::AddrOf { inner } => inner.type_check_lvalue(ctx, None),
            HirExpr::SizeOfTy { .. } => self.check_size_of_ty(ctx, hint),
            HirExpr::SizeOfExpr { .. } => self.check_size_of_expr(ctx, hint),
            HirExpr::Deref { .. } => self.check_deref(ctx, hint),
            HirExpr::Index { .. } => self.check_index(ctx, hint),
            HirExpr::Field { .. } => Err(CompileError::Unsupported { at: span }),
            HirExpr::Un { .. } => self.check_un(ctx, hint),
            HirExpr::Bin { .. } => self.check_bin(ctx, hint),
            HirExpr::Cast { .. } => self.check_cast(ctx, hint),
            HirExpr::Call { .. } => self.check_call(ctx, hint),
        }
    }

    fn check_num(&self, ctx: &mut CompilerContext, hint: Option<Rc<QualType>>) -> (r: Result<TirExpr, CompileError>)
        requires
            ctx_wf(old(ctx).tc()),
            self.inner is Num,
        ensures
            final(ctx).tc() == old(ctx).tc(),
            match tc_rvalue(old(ctx).tc(), sexpr_v(*self), opt_q(hint)) {
                Ok(x) => r matches Ok(y) && y@ == x,
                Err(e) => r matches Err(e2) && e2 == e,
            },
        decreases *self, 0int,
    {
        let span = self.span;
        match &self.inner {
            HirExpr::Num(int_str) => {
                    let ty = match hint {
                        Some(h) => if h.is_integral() || h.is_pointer() {
                            h
                        } else {
                            qtype(&mut ctx.state, &QualType::I32)
                        },
                        None => qtype(&mut ctx.state, &QualType::I32),
                    };
                    match literal((**int_str).as_str(), &ty) {
                        Some(num) => Ok(TirExpr::new(TirExprKind::Num(num), ty)),
                        None => Err(CompileError::BadLiteral { at: span }),
                    }
            },
            _ => Err(CompileError::Unsupported { at: span }),
        }
    }

    fn check_ident(&self, ctx: &mut CompilerContext, hint: Option<Rc<QualType>>) -> (r: Result<TirExpr, CompileError>)
        requires
            ctx_wf(old(ctx).tc()),
            self.inner is Ident,
        ensures
            final(ctx).tc() == old(ctx).tc(),
            match tc_rvalue(old(ctx).tc(), sexpr_v(*self), opt_q(hint)) {
                Ok(x) => r matches Ok(y) && y@ == x,
                Err(e) => r matches Err(e2) && e2 == e,
            },
        decreases *self, 0int,
    {
        let span = self.span;
        match &self.inner {
            HirExpr::Ident(i) => {
                    let symbol = match ctx.resolve_ident(i) {
                        Some(s) => s,
                        None => {
                            return Err(CompileError::UndefinedVariable { at: span });
                        },
                    };
                    proof {
                        lemma_resolve_in_table(ctx.tc(), (**i)@);
                    }
                    let info = ctx.lookup_symbol(&symbol);
                    match &*info.ty {
                        QualType::Function { .. } => Ok(info.create_addr_of()),
                        _ => Ok(TirExpr::new(TirExprKind::ValueOf(info.symbol.clone()), rc_share(&info.ty))),
                    }
            },
            _ => Err(CompileError::Unsupported { at: span }),
        }
    }

    fn check_assign(&self, ctx: &mut CompilerContext, hint: Option<Rc<QualType>>) -> (r: Result<TirExpr, CompileError>)
        requires
            ctx_wf(old(ctx).tc()),
            self.inner is Assign,
        ensures
            final(ctx).tc() == old(ctx).tc(),
            match tc_rvalue(old(ctx).tc(), sexpr_v(*self), opt_q(hint)) {
                Ok(x) => r matches Ok(y) && y@ == x,
                Err(e) => r matches Err(e2) && e2 == e,
            },
        decreases *self, 0int,
    {
        let span = self.span;
        match &self.inner {
            HirExpr::Assign { lhs, rhs } => {
                    let checked_lhs = lhs.type_check_lvalue(ctx, None)?;
                    let lhs_ty = match checked_lhs.ty.get_pointee() {
                        Some(t) => t,
                        None => {
                            return Err(CompileError::NotAPointer { at: span });
                        },
                    };
                    let checked_rhs = rhs.type_check_rvalue(ctx, Some(rc_share(&lhs_ty)))?;
                    let rhs_ty = decay(&mut ctx.state, &checked_rhs.ty);
                    if !(*lhs_ty).same(&*rhs_ty) {
                        return Err(CompileError::TypeMismatch { at: span });
                    }
                    let ty = rc_share(&checked_rhs.ty);
                    let kind = TirExprKind::Store { ptr: Box::new(checked_lhs), val: Box::new(checked_rhs) };
                    Ok(TirExpr::new(kind, ty))
            },
            _ => Err(CompileError::Unsupported { at: span }),
        }
    }

    fn check_size_of_ty(&self, ctx: &mut CompilerContext, hint: Option<Rc<QualType>>) -> (r: Result<TirExpr, CompileError>)
        requires
            ctx_wf(old(ctx).tc()),
            self.inner is SizeOfTy,
        ensures
            final(ctx).tc() == old(ctx).tc(),
            match tc_rvalue(old(ctx).tc(), sexpr_v(*self), opt_q(hint)) {
                Ok(x) => r matches Ok(y) && y@ == x,
                Err(e) => r matches Err(e2) && e2 == e,
            },
        decreases *self, 0int,
    {
        let span = self.span;
        match &self.inner {
            HirExpr::SizeOfTy { ty } => {
                    let qt = match ctx.qualify_type(&ty.inner) {
                        Some(q) => q,
                        None => {
                            return Err(CompileError::UnknownType { at: ty.span });
                        },
                    };
                    if matches!(&*qt, QualType::Struct { .. }) {
                        return Err(CompileError::Unsupported { at: span });
                    }
                    let n = qt.bytes();
                    let ty = qtype(&mut ctx.state, &QualType::U64);
                    Ok(TirExpr::new(TirExprKind::Num(n as i128), ty))
            },
            _ => Err(CompileError::Unsupported { at: span }),
        }
    }

    fn check_size_of_expr(&self, ctx: &mut CompilerContext, hint: Option<Rc<QualType>>) -> (r: Result<TirExpr, CompileError>)
        requires
            ctx_wf(old(ctx).tc()),
            self.inner is SizeOfExpr,
        ensures
            final(ctx).tc() == old(ctx).tc(),
            match tc_rvalue(old(ctx).tc(), sexpr_v(*self), opt_q(hint)) {
                Ok(x) => r matches Ok(y) && y@ == x,
                Err(e) => r matches Err(e2) && e2 == e,
            },
        decreases *self, 0int,
    {
        let span = self.span;
        match &self.inner {
            HirExpr::SizeOfExpr { expr } => {
                    let checked = expr.type_check_rvalue(ctx, None)?;
                    if matches!(&*checked.ty, QualType::Struct { .. }) {
                        return Err(CompileError::Unsupported { at: span });
                    }
                    let n = checked.ty.bytes();
                    let ty = qtype(&mut ctx.state, &QualType::U64);
                    Ok(TirExpr::new(TirExprKind::Num(n as i128), ty))
            },
            _ => Err(CompileError::Unsupported { at: span }),
        }
    }

    fn check_deref(&self, ctx: &mut CompilerContext, hint: Option<Rc<QualType>>) -> (r: Result<TirExpr, CompileError>)
        requires
            ctx_wf(old(ctx).tc()),
            self.inner is Deref,
        ensures
            final(ctx).tc() == old(ctx).tc(),
            match tc_rvalue(old(ctx).tc(), sexpr_v(*self), opt_q(hint)) {
                Ok(x) => r matches Ok(y) && y@ == x,
                Err(e) => r matches Err(e2) && e2 == e,
            },
        decreases *self, 0int,
    {
        let span = self.span;
        match &self.inner {
            HirExpr::Deref { inner } => {
                    let ptr = inner.type_check_rvalue(ctx, None)?;
                    if matches!(&*ptr.ty, QualType::Function { .. }) {
                        return Ok(ptr);
                    }
                    match ptr.ty.get_pointee() {
                        Some(ty) => Ok(TirExpr::new(TirExprKind::Load { inner: Box::new(ptr) }, ty)),
                        None => Err(CompileError::NotAPointer { at: span }),
                    }
            },
            _ => Err(CompileError::Unsupported { at: span }),
        }
    }

    fn check_index(&self, ctx: &mut CompilerContext, hint: Option<Rc<QualType>>) -> (r: Result<TirExpr, CompileError>)
        requires
            ctx_wf(old(ctx).tc()),
            self.inner is Index,
        ensures
            final(ctx).tc() == old(ctx).tc(),
            match tc_rvalue(old(ctx).tc(), sexpr_v(*self), opt_q(hint)) {
                Ok(x) => r matches Ok(y) && y@ == x,
                Err(e) => r matches Err(e2) && e2 == e,
            },
        decreases *self, 0int,
    {
        let span = self.span;
        match &self.inner {
            HirExpr::Index { base, index } => {
                    let base = base.type_check_rvalue(ctx, None)?;
                    if !base.ty.is_pointer() {
                        return Err(CompileError::NotAPointer { at: span });
                    }
                    let hint = qtype(&mut ctx.state, &QualType::U64);
                    let index = index.type_check_rvalue(ctx, Some(hint))?;
                    let ty = match base.ty.get_pointee() {
                        Some(t) => t,
                        None => {
                            return Err(CompileError::NotAPointer { at: span });
                        },
                    };
                    let base_ty = rc_share(&base.ty);
                    let ghost bv = base@;
                    let ghost iv = index@;
                    let inner = TirExpr::new(
                        TirExprKind::Bin { op: BinOp::PtrAdd, lhs: Box::new(base), rhs: Box::new(index) },
                        base_ty,
                    );
                    proof {
                        assert(inner@ == mk(
                            TirKindV::Bin { op: BinOp::PtrAdd, lhs: Box::new(bv), rhs: Box::new(iv) },
                            bv.ty,
                        ));
                    }
                    Ok(TirExpr::new(TirExprKind::Load { inner: Box::new(inner) }, ty))
            },
            _ => Err(CompileError::Unsupported { at: span }),
        }
    }

    fn check_un(&self, ctx: &mut CompilerContext, hint: Option<Rc<QualType>>) -> (r: Result<TirExpr, CompileError>)
        requires
            ctx_wf(old(ctx).tc()),
            self.inner is Un,
        ensures
            final(ctx).tc() == old(ctx).tc(),
            match tc_rvalue(old(ctx).tc(), sexpr_v(*self), opt_q(hint)) {
                Ok(x) => r matches Ok(y) && y@ == x,
                Err(e) => r matches Err(e2) && e2 == e,
            },
        decreases *self, 0int,
    {
        let span = self.span;
        match &self.inner {
            HirExpr::Un { op, rhs } => {
                    let checked_rhs = rhs.type_check_rvalue(ctx, hint)?;
                    let ok = match op {
                        UnOp::Not => matches!(&*checked_rhs.ty, QualType::Bool),
                        UnOp::Neg => checked_rhs.ty.is_signed(),
                    };
                    if !ok {
                        return Err(CompileError::BadUnaryOperand { at: span });
                    }
                    let ty = rc_share(&checked_rhs.ty);
                    Ok(TirExpr::new(TirExprKind::Un { op: *op, rhs: Box::new(checked_rhs) }, ty))
            },
            _ => Err(CompileError::Unsupported { at: span }),
        }
    }

    fn check_bin(&self, ctx: &mut CompilerContext, hint: Option<Rc<QualType>>) -> (r: Result<TirExpr, CompileError>)
        requires
            ctx_wf(old(ctx).tc()),
            self.inner is Bin,
        ensures
            final(ctx).tc() == old(ctx).tc(),
            match tc_rvalue(old(ctx).tc(), sexpr_v(*self), opt_q(hint)) {
                Ok(x) => r matches Ok(y) && y@ == x,
                Err(e) => r matches Err(e2) && e2 == e,
            },
        decreases *self, 0int,
    {
        let span = self.span;
        match &self.inner {
            HirExpr::Bin { op, lhs, rhs } => {
                    let lhs = lhs.type_check_rvalue(ctx, hint)?;
                    let rhs = rhs.type_check_rvalue(ctx, Some(rc_share(&lhs.ty)))?;
                    match binary_rule(&mut ctx.state, *op, &lhs.ty, &rhs.ty) {
                        Some((op2, ty)) => Ok(
                            TirExpr::new(TirExprKind::Bin { op: op2, lhs: Box::new(lhs), rhs: Box::new(rhs) }, ty),
                        ),
                        None => Err(CompileError::UnsupportedOperation { at: span }),
                    }
            },
            _ => Err(CompileError::Unsupported { at: span }),
        }
    }

    fn check_cast(&self, ctx: &mut CompilerContext, hint: Option<Rc<QualType>>) -> (r: Result<TirExpr, CompileError>)
        requires
            ctx_wf(old(ctx).tc()),
            self.inner is Cast,
        ensures
            final(ctx).tc() == old(ctx).tc(),
            match tc_rvalue(old(ctx).tc(), sexpr_v(*self), opt_q(hint)) {
                Ok(x) => r matches Ok(y) && y@ == x,
                Err(e) => r matches Err(e2) && e2 == e,
            },
        decreases *self, 0int,
    {
        let span = self.span;
        match &self.inner {
            HirExpr::Cast { target_ty, rhs } => {
                    let checked_ty = match ctx.qualify_type(&target_ty.inner) {
                        Some(t) => t,
                        None => {
                            return Err(CompileError::UnknownType { at: target_ty.span });
                        },
                    };
                    let checked_rhs = rhs.type_check_rvalue(ctx, None)?;
                    let kind = TirExprKind::Cast { target_ty: rc_share(&checked_ty), expr: Box::new(checked_rhs) };
                    Ok(TirExpr::new(kind, checked_ty))
            },
            _ => Err(CompileError::Unsupported { at: span }),
        }
    }

    fn check_call(&self, ctx: &mut CompilerContext, hint: Option<Rc<QualType>>) -> (r: Result<TirExpr, CompileError>)
        requires
            ctx_wf(old(ctx).tc()),
            self.inner is Call,
        ensures
            final(ctx).tc() == old(ctx).tc(),
            match tc_rvalue(old(ctx).tc(), sexpr_v(*self), opt_q(hint)) {
                Ok(x) => r matches Ok(y) && y@ == x,
                Err(e) => r matches Err(e2) && e2 == e,
            },
        decreases *self, 0int,
    {
        let span = self.span;
        match &self.inner {
            HirExpr::Call { callee, args } => {
                    let checked_callee = callee.type_check_rvalue(ctx, None)?;
                    let (params, return_type) = match callee_parts(&checked_callee.ty) {
                        Some(p) => p,
                        None => {
                            return Err(CompileError::NotCallable { at: span });
                        },
                    };
                    let checked_args = check_args(ctx, args, &params)?;
                    let kind = TirExprKind::Call { callee: Box::new(checked_callee), args: checked_args };
                    Ok(TirExpr::new(kind, return_type))
            },
            _ => Err(CompileError::Unsupported { at: span }),
        }
    }

}

/// The parameter types and return type of a callee of type `t` (see `callee_sig`).
fn callee_parts(t: &Rc<QualType>) -> (r: Option<(Vec<Rc<QualType>>, Rc<QualType>)>)
    ensures
        match callee_sig(t@) {
            Some((ps, ret)) => r matches Some(x) && rcs_v(x.0@) == ps && x.1@ == ret,
            None => r is None,
        },
{
    match &**t {
        QualType::Function { arg_types, return_type } => {
            let ps = share_all(arg_types);
            proof {
                assert(rcs_v(ps@) =~= t@->Function_arg_types);
            }
            Some((ps, rc_share(return_type)))
        },
        QualType::Pointer(f) => match &**f {
            QualType::Function { arg_types, return_type } => {
                let ps = share_all(arg_types);
                proof {
                    assert(rcs_v(ps@) =~= (**f)@->Function_arg_types);
                }
                Some((ps, rc_share(return_type)))
            },
            _ => None,
        },
        _ => None,
    }
}

/// Type checks call arguments against parameter types (see `tc_args`).
fn check_args(ctx: &mut CompilerContext, args: &Vec<Spanned<HirExpr>>, params: &Vec<Rc<QualType>>) -> (r: Result<Vec<TirExpr>, CompileError>)
    requires
        ctx_wf(old(ctx).tc()),
    ensures
        final(ctx).tc() == old(ctx).tc(),
        match tc_args(old(ctx).tc(), sexprs_v(args@), rcs_v(params@)) {
            Ok(xs) => r matches Ok(ys) && tirs_v(ys@) == xs,
            Err(e) => r matches Err(e2) && e2 == e,
        },
    decreases args@, 0int,
{
    let ghost c = ctx.tc();
    let ghost a = sexprs_v(args@);
    let ghost p = rcs_v(params@);
    proof {
        lemma_sexprs_v(args@);
    }
    let n = if args.len() < params.len() {
        args.len()
    } else {
        params.len()
    };
    let mut out: Vec<TirExpr> = Vec::new();
    let mut i: usize = 0;
    proof {
        assert(a.subrange(0, a.len() as int) =~= a);
        assert(p.subrange(0, p.len() as int) =~= p);
        assert(tirs_v(out@) =~= Seq::<TirExprV>::empty());
    }
    #[verifier::loop_isolation(false)]
    while i < n
        invariant
            i <= n,
            ctx.tc() == c,
            a == sexprs_v(args@),
            a.len() == args@.len(),
            p == rcs_v(params@),
            match tc_args(c, a.subrange(i as int, a.len() as int), p.subrange(i as int, p.len() as int)) {
                Ok(xs) => tc_args(c, a, p) == Ok::<Seq<TirExprV>, CompileError>(tirs_v(out@) + xs),
                Err(e) => tc_args(c, a, p) == Err::<Seq<TirExprV>, CompileError>(e),
            },
        decreases n - i,
    {
        let ghost ai = a.subrange(i as int, a.len() as int);
        let ghost pi = p.subrange(i as int, p.len() as int);
        proof {
            assert(ai[0] == a[i as int]);
            assert(pi[0] == p[i as int]);
            assert(ai.subrange(1, ai.len() as int) =~= a.subrange(i + 1, a.len() as int));
            assert(pi.subrange(1, pi.len() as int) =~= p.subrange(i + 1, p.len() as int));
            broadcast use vstd::std_specs::vec::axiom_vec_index_decreases;
            assert(decreases_to!(args => args@[i as int]));
        }
        let expected = rc_share(&params[i]);
        let checked_arg = args[i].type_check_rvalue(ctx, Some(expected))?;
        if !(*checked_arg.ty).same(&*params[i]) {
            return Err(CompileError::ArgumentMismatch { at: args[i].span });
        }
        proof {
            lemma_tirs_v_push(out@, checked_arg);
            assert(tirs_v(out@).push(tir_v(checked_arg)) + (match tc_args(c, a.subrange(i + 1, a.len() as int), p.subrange(i + 1, p.len() as int)) {
                Ok(xs) => xs,
                Err(_) => Seq::empty(),
            }) =~= tirs_v(out@) + (seq![tir_v(checked_arg)] + (match tc_args(c, a.subrange(i + 1, a.len() as int), p.subrange(i + 1, p.len() as int)) {
                Ok(xs) => xs,
                Err(_) => Seq::empty(),
            })));
        }
        out.push(checked_arg);
        i += 1;
    }
    proof {
        assert(tirs_v(out@) + Seq::<TirExprV>::empty() =~= tirs_v(out@));
    }
    Ok(out)
}

pub type StV = SpannedV<HirStmtV>;

/// The scopes after the innermost one is closed; the outermost scope is never closed.
pub open spec fn pop_v<A>(ss: Seq<A>) -> Seq<A> {
    if ss.len() > 1 {
        ss.drop_last()
    } else {
        ss
    }
}

/// The number of declarations (`let`) in a statement: the most symbols checking it creates.
pub open spec fn decl_count(s: StV) -> nat
    decreases s,
{
    match s.inner {
        HirStmtV::LetDecl { .. } | HirStmtV::LetAssign { .. } => 1,
        HirStmtV::While { body, .. } => decl_count(*body),
        HirStmtV::If { then_, else_, .. } => decl_count(*then_) + decl_count(*else_),
        HirStmtV::Block(stmts) => decl_counts(stmts),
        _ => 0,
    }
}

pub open spec fn decl_counts(ss: Seq<StV>) -> nat
    decreases ss,
{
    if ss.len() == 0 {
        0
    } else {
        decl_count(ss[0]) + decl_counts(ss.subrange(1, ss.len() as int))
    }
}

/// How deeply `while` loops nest in a statement.
pub open spec fn loop_nesting(s: StV) -> nat
    decreases s,
{
    match s.inner {
        HirStmtV::While { body, .. } => 1 + loop_nesting(*body),
        HirStmtV::If { then_, else_, .. } => {
            let a = loop_nesting(*then_);
            let b = loop_nesting(*else_);
            if a >= b {
                a
            } else {
                b
            }
        },
        HirStmtV::Block(stmts) => loop_nestings(stmts),
        _ => 0,
    }
}

pub open spec fn loop_nestings(ss: Seq<StV>) -> nat
    decreases ss,
{
    if ss.len() == 0 {
        0
    } else {
        let a = loop_nesting(ss[0]);
        let b = loop_nestings(ss.subrange(1, ss.len() as int));
        if a >= b {
            a
        } else {
            b
        }
    }
}

/// The result of checking a statement: the typed statement, the state after it, and the
/// function's local symbols after it.
pub type StmtResult = Result<(TirStmtV, TcCtx, Seq<SymbolV>), CompileError>;

/// Type checking of a statement of a function whose return type is `ret`; `locals` are the
/// function's local symbols so far.
pub open spec fn tc_stmt(c: TcCtx, locals: Seq<SymbolV>, ret: QualTypeV, s: StV) -> StmtResult
    decreases s,
{
    let at = s.span;
    match s.inner {
        HirStmtV::LetDecl { name, ty } => match ty {
            None => Err(CompileError::UntypedDeclaration { at }),
            Some(t) => match q_type(c.types, t.inner) {
                None => Err(CompileError::UnknownType { at: t.span }),
                Some(q) => {
                    let (sym, c2) = create_v(c, name, q, SymbolKind::Local);
                    Ok((TirStmtV::Block(Seq::empty()), c2, locals.push(sym)))
                },
            },
        },
        HirStmtV::LetAssign { name, ty, value } => {
            let desired: Result<Option<QualTypeV>, CompileError> = match ty {
                None => Ok(None),
                Some(t) => match q_type(c.types, t.inner) {
                    None => Err(CompileError::UnknownType { at: t.span }),
                    Some(q) => Ok(Some(q)),
                },
            };
            match desired {
                Err(e) => Err(e),
                Ok(d) => match tc_rvalue(c, value, d) {
                    Err(e) => Err(e),
                    Ok(v) => if d is Some && d->0 != v.ty {
                        Err(CompileError::TypeMismatch { at })
                    } else {
                        let rty = decay_v(v.ty);
                        let (sym, c2) = create_v(c, name, rty, SymbolKind::Local);
                        let store = mk(
                            TirKindV::Store {
                                ptr: Box::new(mk(TirKindV::AddrOf(sym), rty)),
                                val: Box::new(v),
                            },
                            rty,
                        );
                        Ok((TirStmtV::Expr(store), c2, locals.push(sym)))
                    },
                },
            }
        },
        HirStmtV::While { cond, body } => match tc_rvalue(c, cond, Some(QualTypeV::Bool)) {
            Err(e) => Err(e),
            Ok(cv) => if !(cv.ty is Bool) {
                Err(CompileError::TypeMismatch { at })
            } else {
                let inside = TcCtx { loop_depth: c.loop_depth + 1, ..c };
                match tc_stmt(inside, locals, ret, *body) {
                    Err(e) => Err(e),
                    Ok((b, c2, l2)) => Ok(
                        (
                            TirStmtV::While { cond: cv, body: Box::new(b) },
                            TcCtx { loop_depth: (c2.loop_depth - 1) as nat, ..c2 },
                            l2,
                        ),
                    ),
                }
            },
        },
        HirStmtV::Continue => if c.loop_depth == 0 {
            Err(CompileError::NotInLoop { at })
        } else {
            Ok((TirStmtV::Continue, c, locals))
        },
        HirStmtV::Break => if c.loop_depth == 0 {
            Err(CompileError::NotInLoop { at })
        } else {
            Ok((TirStmtV::Break, c, locals))
        },
        HirStmtV::If { cond, then_, else_ } => match tc_rvalue(c, cond, Some(QualTypeV::Bool)) {
            Err(e) => Err(e),
            Ok(cv) => if !(cv.ty is Bool) {
                Err(CompileError::TypeMismatch { at })
            } else {
                match tc_stmt(c, locals, ret, *then_) {
                    Err(e) => Err(e),
                    Ok((t, c1, l1)) => match tc_stmt(c1, l1, ret, *else_) {
                        Err(e) => Err(e),
                        Ok((e2, c2, l2)) => Ok(
                            (
                                TirStmtV::If { cond: cv, then_: Box::new(t), else_: Box::new(e2) },
                                c2,
                                l2,
                            ),
                        ),
                    },
                }
            },
        },
        HirStmtV::Return(v) => match v {
            Some(x) => match tc_rvalue(c, x, Some(ret)) {
                Err(e) => Err(e),
                Ok(xv) => if xv.ty != ret {
                    Err(CompileError::ReturnTypeMismatch { at })
                } else {
                    Ok((TirStmtV::Return(Some(xv)), c, locals))
                },
            },
            None => if !(ret is Void) {
                Err(CompileError::ReturnTypeMismatch { at })
            } else {
                Ok((TirStmtV::Return(None), c, locals))
            },
        },
        HirStmtV::Block(stmts) => {
            let inner = TcCtx { scopes: c.scopes.push(Map::empty()), ..c };
            match tc_stmts(inner, locals, ret, stmts) {
                Err(e) => Err(e),
                Ok((ts, c2, l2)) => Ok((TirStmtV::Block(ts), TcCtx { scopes: pop_v(c2.scopes), ..c2 }, l2)),
            }
        },
        HirStmtV::Expr(x) => match tc_rvalue(c, x, None) {
            Err(e) => Err(e),
            Ok(xv) => Ok((TirStmtV::Expr(xv), c, locals)),
        },
    }
}

/// Type checking of a list of statements, one after the other.
pub open spec fn tc_stmts(c: TcCtx, locals: Seq<SymbolV>, ret: QualTypeV, ss: Seq<StV>) -> Result<
    (Seq<TirStmtV>, TcCtx, Seq<SymbolV>),
    CompileError,
>
    decreases ss,
{
    if ss.len() == 0 {
        Ok((Seq::empty(), c, locals))
    } else {
        match tc_stmt(c, locals, ret, ss[0]) {
            Err(e) => Err(e),
            Ok((t, c1, l1)) => match tc_stmts(c1, l1, ret, ss.subrange(1, ss.len() as int)) {
                Err(e) => Err(e),
                Ok((ts, c2, l2)) => Ok((seq![t] + ts, c2, l2)),
            },
        }
    }
}

/// Checking statement `s` from state `c0` with function `f0` gives `r`, state `c1` and
/// function `f1`, as `tc_stmt` says.
pub open spec fn stmt_checked(
    c0: TcCtx,
    f0: TirFunction,
    s: StV,
    r: Result<TirStmt, CompileError>,
    c1: TcCtx,
    f1: TirFunction,
) -> bool {
    match tc_stmt(c0, syms_v(f0.local_symbols@), (*f0.return_type)@, s) {
        Ok((t, c2, l2)) => r matches Ok(x) && x@ == t && c1 == c2 && syms_v(f1.local_symbols@) == l2,
        Err(e) => r matches Err(e2) && e2 == e,
    }
}

/// Checking a statement changes nothing of its function but the local symbols.
pub open spec fn same_function(f0: TirFunction, f1: TirFunction) -> bool {
    &&& f1.name == f0.name
    &&& f1.symbol == f0.symbol
    &&& f1.return_type == f0.return_type
    &&& f1.body == f0.body
}

/// Opening an empty scope keeps a state well-formed.
pub proof fn lemma_push_wf(c: TcCtx)
    requires
        ctx_wf(c),
    ensures
        ctx_wf(TcCtx { scopes: c.scopes.push(Map::empty()), ..c }),
{
    let c2 = TcCtx { scopes: c.scopes.push(Map::empty()), ..c };
    assert forall|i: int, k: Seq<char>|
        0 <= i < c2.scopes.len() && #[trigger] c2.scopes[i].contains_key(k) implies c2.table.contains_key(
        c2.scopes[i][k],
    ) by {
        if i < c.scopes.len() {
            assert(c.scopes[i].contains_key(k));
        }
    }
}

/// Closing the innermost scope keeps a state well-formed.
pub proof fn lemma_pop_wf(c: TcCtx)
    requires
        ctx_wf(c),
    ensures
        ctx_wf(TcCtx { scopes: pop_v(c.scopes), ..c }),
{
    let c2 = TcCtx { scopes: pop_v(c.scopes), ..c };
    assert forall|i: int, k: Seq<char>|
        0 <= i < c2.scopes.len() && #[trigger] c2.scopes[i].contains_key(k) implies c2.table.contains_key(
        c2.scopes[i][k],
    ) by {
        assert(c.scopes[i] == c2.scopes[i]);
        assert(c.scopes[i].contains_key(k));
    }
}

/// A copy of a spanned name that shares its string.
fn share_name(n: &Spanned<RcString>) -> (r: Spanned<RcString>)
    ensures
        r@ == n@,
{
    Spanned::new(rc_share(&n.inner), n.span)
}

impl Spanned<HirStmt> {
    /// Type checks a statement of `function` (see `tc_stmt`), recording the locals it declares.
    pub fn type_check(&self, ctx: &mut CompilerContext, function: &mut TirFunction) -> (r: Result<TirStmt, CompileError>)
        requires
            ctx_wf(old(ctx).tc()),
            old(ctx).tc().counter + decl_count(sstmt_v(*self)) <= usize::MAX,
            old(ctx).tc().loop_depth + loop_nesting(sstmt_v(*self)) <= usize::MAX,
        ensures
            stmt_checked(old(ctx).tc(), *old(function), sstmt_v(*self), r, final(ctx).tc(), *final(function)),
            same_function(*old(function), *final(function)),
            final(ctx).tc().top == old(ctx).tc().top,
            final(ctx).tc().types == old(ctx).tc().types,
            r is Ok ==> ctx_wf(final(ctx).tc()) && final(ctx).tc().loop_depth == old(ctx).tc().loop_depth
                && final(ctx).tc().counter <= old(ctx).tc().counter + decl_count(sstmt_v(*self)),
        decreases *self, 1int,
    {
        let span = self.span;
        match &self.inner {
            HirStmt::LetDecl { .. } => self.check_let_decl(ctx, function),
            HirStmt::LetAssign { .. } => self.check_let_assign(ctx, function),
            HirStmt::While { .. } => self.check_while(ctx, function),
            HirStmt::Continue => {
                if ctx.loop_depth == 0 {
                    return Err(CompileError::NotInLoop { at: span });
                }
                Ok(TirStmt::Continue)
            },
            HirStmt::Break => {
                if ctx.loop_depth == 0 {
                    return Err(CompileError::NotInLoop { at: span });
                }
                Ok(TirStmt::Break)
            },
            HirStmt::If { .. } => self.check_if(ctx, function),
            HirStmt::Return(..) => self.check_return(ctx, function),
            HirStmt::Block(..) => self.check_block(ctx, function),
            HirStmt::Expr(e) => {
                let checked = e.type_check_rvalue(ctx, None)?;
                Ok(TirStmt::Expr(checked))
            },
        }
    }

    fn check_let_decl(&self, ctx: &mut CompilerContext, function: &mut TirFunction) -> (r: Result<TirStmt, CompileError>)
        requires
            ctx_wf(old(ctx).tc()),
            old(ctx).tc().counter + decl_count(sstmt_v(*self)) <= usize::MAX,
            old(ctx).tc().loop_depth + loop_nesting(sstmt_v(*self)) <= usize::MAX,
            self.inner is LetDecl,
        ensures
            stmt_checked(old(ctx).tc(), *old(function), sstmt_v(*self), r, final(ctx).tc(), *final(function)),
            same_function(*old(function), *final(function)),
            final(ctx).tc().top == old(ctx).tc().top,
            final(ctx).tc().types == old(ctx).tc().types,
            r is Ok ==> ctx_wf(final(ctx).tc()) && final(ctx).tc().loop_depth == old(ctx).tc().loop_depth
                && final(ctx).tc().counter <= old(ctx).tc().counter + decl_count(sstmt_v(*self)),
        decreases *self, 0int,
    {
        let span = self.span;
        match &self.inner {
            HirStmt::LetDecl { name, ty } => {
                let user_ty = match ty {
                    Some(t) => t,
                    None => {
                        return Err(CompileError::UntypedDeclaration { at: span });
                    },
                };
                let qty = match ctx.qualify_type(&user_ty.inner) {
                    Some(q) => q,
                    None => {
                        return Err(CompileError::UnknownType { at: user_ty.span });
                    },
                };
                proof {
                    lemma_create_wf(ctx.tc(), name@, qty@, SymbolKind::Local);
                }
                let symbol = ctx.create_symbol(share_name(name), qty, SymbolKind::Local);
                let ghost before = function.local_symbols@;
                function.local_symbols.push(symbol);
                proof {
                    assert(syms_v(function.local_symbols@) =~= syms_v(before).push(symbol@));
                }
                let empty: Vec<TirStmt> = Vec::new();
                proof {
                    assert(crate::tir::tstmts_v(empty@) =~= Seq::<TirStmtV>::empty());
                }
                Ok(TirStmt::Block(empty))
            },
            _ => Err(CompileError::Unsupported { at: span }),
        }
    }

    fn check_let_assign(&self, ctx: &mut CompilerContext, function: &mut TirFunction) -> (r: Result<TirStmt, CompileError>)
        requires
            ctx_wf(old(ctx).tc()),
            old(ctx).tc().counter + decl_count(sstmt_v(*self)) <= usize::MAX,
            old(ctx).tc().loop_depth + loop_nesting(sstmt_v(*self)) <= usize::MAX,
            self.inner is LetAssign,
        ensures
            stmt_checked(old(ctx).tc(), *old(function), sstmt_v(*self), r, final(ctx).tc(), *final(function)),
            same_function(*old(function), *final(function)),
            final(ctx).tc().top == old(ctx).tc().top,
            final(ctx).tc().types == old(ctx).tc().types,
            r is Ok ==> ctx_wf(final(ctx).tc()) && final(ctx).tc().loop_depth == old(ctx).tc().loop_depth
                && final(ctx).tc().counter <= old(ctx).tc().counter + decl_count(sstmt_v(*self)),
        decreases *self, 0int,
    {
        let span = self.span;
        match &self.inner {
            HirStmt::LetAssign { name, ty, value } => {
                let desired_type: Option<Rc<QualType>> = match ty {
                    None => None,
                    Some(t) => match ctx.qualify_type(&t.inner) {
                        Some(q) => Some(q),
                        None => {
                            return Err(CompileError::UnknownType { at: t.span });
                        },
                    },
                };
                let hint = match &desired_type {
                    Some(d) => Some(rc_share(d)),
                    None => None,
                };
                let checked_val = value.type_check_rvalue(ctx, hint)?;
                match &desired_type {
                    Some(lhs_ty) => {
                        if !(**lhs_ty).same(&*checked_val.ty) {
                            return Err(CompileError::TypeMismatch { at: span });
                        }
                    },
                    None => {},
                }
                let rhs_ty = decay(&mut ctx.state, &checked_val.ty);
                proof {
                    lemma_create_wf(ctx.tc(), name@, rhs_ty@, SymbolKind::Local);
                }
                let symbol = ctx.create_symbol(share_name(name), rc_share(&rhs_ty), SymbolKind::Local);
                let ghost before = function.local_symbols@;
                function.local_symbols.push(symbol.clone());
                proof {
                    assert(syms_v(function.local_symbols@) =~= syms_v(before).push(symbol@));
                }
                let addr = ctx.lookup_symbol(&symbol).create_addr_of();
                let ghost av = addr@;
                let ghost vv = checked_val@;
                let expr = TirExpr::new(
                    TirExprKind::Store { ptr: Box::new(addr), val: Box::new(checked_val) },
                    rhs_ty,
                );
                proof {
                    assert(expr@ == mk(TirKindV::Store { ptr: Box::new(av), val: Box::new(vv) }, rhs_ty@));
                }
                Ok(TirStmt::Expr(expr))
            },
            _ => Err(CompileError::Unsupported { at: span }),
        }
    }

    fn check_while(&self, ctx: &mut CompilerContext, function: &mut TirFunction) -> (r: Result<TirStmt, CompileError>)
        requires
            ctx_wf(old(ctx).tc()),
            old(ctx).tc().counter + decl_count(sstmt_v(*self)) <= usize::MAX,
            old(ctx).tc().loop_depth + loop_nesting(sstmt_v(*self)) <= usize::MAX,
            self.inner is While,
        ensures
            stmt_checked(old(ctx).tc(), *old(function), sstmt_v(*self), r, final(ctx).tc(), *final(function)),
            same_function(*old(function), *final(function)),
            final(ctx).tc().top == old(ctx).tc().top,
            final(ctx).tc().types == old(ctx).tc().types,
            r is Ok ==> ctx_wf(final(ctx).tc()) && final(ctx).tc().loop_depth == old(ctx).tc().loop_depth
                && final(ctx).tc().counter <= old(ctx).tc().counter + decl_count(sstmt_v(*self)),
        decreases *self, 0int,
    {
        let span = self.span;
        match &self.inner {
            HirStmt::While { cond, body } => {
                let hint = qtype(&mut ctx.state, &QualType::Bool);
                let checked_cond = cond.type_check_rvalue(ctx, Some(hint))?;
                if !matches!(&*checked_cond.ty, QualType::Bool) {
                    return Err(CompileError::TypeMismatch { at: span });
                }
                ctx.loop_depth += 1;
                let checked_body = body.type_check(ctx, function)?;
                ctx.loop_depth -= 1;
                Ok(TirStmt::While { cond: checked_cond, body: Box::new(checked_body) })
            },
            _ => Err(CompileError::Unsupported { at: span }),
        }
    }

    fn check_if(&self, ctx: &mut CompilerContext, function: &mut TirFunction) -> (r: Result<TirStmt, CompileError>)
        requires
            ctx_wf(old(ctx).tc()),
            old(ctx).tc().counter + decl_count(sstmt_v(*self)) <= usize::MAX,
            old(ctx).tc().loop_depth + loop_nesting(sstmt_v(*self)) <= usize::MAX,
            self.inner is If,
        ensures
            stmt_checked(old(ctx).tc(), *old(function), sstmt_v(*self), r, final(ctx).tc(), *final(function)),
            same_function(*old(function), *final(function)),
            final(ctx).tc().top == old(ctx).tc().top,
            final(ctx).tc().types == old(ctx).tc().types,
            r is Ok ==> ctx_wf(final(ctx).tc()) && final(ctx).tc().loop_depth == old(ctx).tc().loop_depth
                && final(ctx).tc().counter <= old(ctx).tc().counter + decl_count(sstmt_v(*self)),
        decreases *self, 0int,
    {
        let span = self.span;
        match &self.inner {
            HirStmt::If { cond, then_, else_ } => {
                let hint = qtype(&mut ctx.state, &QualType::Bool);
                let checked_cond = cond.type_check_rvalue(ctx, Some(hint))?;
                if !matches!(&*checked_cond.ty, QualType::Bool) {
                    return Err(CompileError::TypeMismatch { at: span });
                }
                let checked_then = then_.type_check(ctx, function)?;
                let checked_else = else_.type_check(ctx, function)?;
                Ok(TirStmt::If { cond: checked_cond, then_: Box::new(checked_then), else_: Box::new(checked_else) })
            },
            _ => Err(CompileError::Unsupported { at: span }),
        }
    }

    fn check_return(&self, ctx: &mut CompilerContext, function: &mut TirFunction) -> (r: Result<TirStmt, CompileError>)
        requires
            ctx_wf(old(ctx).tc()),
            old(ctx).tc().counter + decl_count(sstmt_v(*self)) <= usize::MAX,
            old(ctx).tc().loop_depth + loop_nesting(sstmt_v(*self)) <= usize::MAX,
            self.inner is Return,
        ensures
            stmt_checked(old(ctx).tc(), *old(function), sstmt_v(*self), r, final(ctx).tc(), *final(function)),
            same_function(*old(function), *final(function)),
            final(ctx).tc().top == old(ctx).tc().top,
            final(ctx).tc().types == old(ctx).tc().types,
            r is Ok ==> ctx_wf(final(ctx).tc()) && final(ctx).tc().loop_depth == old(ctx).tc().loop_depth
                && final(ctx).tc().counter <= old(ctx).tc().counter + decl_count(sstmt_v(*self)),
        decreases *self, 0int,
    {
        let span = self.span;
        match &self.inner {
            HirStmt::Return(expr) => {
                let ret_val = match expr {
                    Some(e) => {
                        let checked = e.type_check_rvalue(ctx, Some(rc_share(&function.return_type)))?;
                        if !(*checked.ty).same(&*function.return_type) {
                            return Err(CompileError::ReturnTypeMismatch { at: span });
                        }
                        Some(checked)
                    },
                    None => {
                        if !matches!(&*function.return_type, QualType::Void) {
                            return Err(CompileError::ReturnTypeMismatch { at: span });
                        }
                        None
                    },
                };
                Ok(TirStmt::Return(ret_val))
            },
            _ => Err(CompileError::Unsupported { at: span }),
        }
    }

    fn check_block(&self, ctx: &mut CompilerContext, function: &mut TirFunction) -> (r: Result<TirStmt, CompileError>)
        requires
            ctx_wf(old(ctx).tc()),
            old(ctx).tc().counter + decl_count(sstmt_v(*self)) <= usize::MAX,
            old(ctx).tc().loop_depth + loop_nesting(sstmt_v(*self)) <= usize::MAX,
            self.inner is Block,
        ensures
            stmt_checked(old(ctx).tc(), *old(function), sstmt_v(*self), r, final(ctx).tc(), *final(function)),
            same_function(*old(function), *final(function)),
            final(ctx).tc().top == old(ctx).tc().top,
            final(ctx).tc().types == old(ctx).tc().types,
            r is Ok ==> ctx_wf(final(ctx).tc()) && final(ctx).tc().loop_depth == old(ctx).tc().loop_depth
                && final(ctx).tc().counter <= old(ctx).tc().counter + decl_count(sstmt_v(*self)),
        decreases *self, 0int,
    {
        let span = self.span;
        match &self.inner {
            HirStmt::Block(stmts) => {
                proof {
                    lemma_push_wf(ctx.tc());
                }
                ctx.scopes.push_scope();
                let checked = check_stmts(stmts, ctx, function)?;
                proof {
                    lemma_pop_wf(ctx.tc());
                }
                ctx.scopes.pop_scope();
                Ok(TirStmt::Block(checked))
            },
            _ => Err(CompileError::Unsupported { at: span }),
        }
    }

}

/// Type checks statements one after the other (see `tc_stmts`).
fn check_stmts(stmts: &Vec<Spanned<HirStmt>>, ctx: &mut CompilerContext, function: &mut TirFunction) -> (r: Result<Vec<TirStmt>, CompileError>)
    requires
        ctx_wf(old(ctx).tc()),
        old(ctx).tc().counter + decl_counts(sstmts_v(stmts@)) <= usize::MAX,
        old(ctx).tc().loop_depth + loop_nestings(sstmts_v(stmts@)) <= usize::MAX,
    ensures
        match tc_stmts(old(ctx).tc(), syms_v(old(function).local_symbols@), (*old(function).return_type)@, sstmts_v(stmts@)) {
            Ok((ts, c2, l2)) => r matches Ok(x) && tstmts_v(x@) == ts && final(ctx).tc() == c2
                && syms_v(final(function).local_symbols@) == l2,
            Err(e) => r matches Err(e2) && e2 == e,
        },
        same_function(*old(function), *final(function)),
        final(ctx).tc().top == old(ctx).tc().top,
        final(ctx).tc().types == old(ctx).tc().types,
        r is Ok ==> ctx_wf(final(ctx).tc()) && final(ctx).tc().loop_depth == old(ctx).tc().loop_depth
            && final(ctx).tc().counter <= old(ctx).tc().counter + decl_counts(sstmts_v(stmts@)),
    decreases stmts@, 0int,
{
    let ghost c0 = ctx.tc();
    let ghost l0 = syms_v(function.local_symbols@);
    let ghost ret = (*function.return_type)@;
    let ghost ss = sstmts_v(stmts@);
    proof {
        lemma_sstmts_v(stmts@);
        assert(ss.subrange(0, ss.len() as int) =~= ss);
        assert(tstmts_v(Seq::<TirStmt>::empty()) =~= Seq::<TirStmtV>::empty());
    }
    let mut out: Vec<TirStmt> = Vec::new();
    let mut i: usize = 0;
    #[verifier::loop_isolation(false)]
    while i < stmts.len()
        invariant
            i <= stmts@.len(),
            ss == sstmts_v(stmts@),
            ss.len() == stmts@.len(),
            ret == (*function.return_type)@,
            same_function(*old(function), *function),
            ctx_wf(ctx.tc()),
            ctx.tc().loop_depth == c0.loop_depth,
            ctx.tc().top == c0.top,
            ctx.tc().types == c0.types,
            ctx.tc().counter + decl_counts(ss.subrange(i as int, ss.len() as int)) <= c0.counter + decl_counts(ss),
            c0.loop_depth + loop_nestings(ss.subrange(i as int, ss.len() as int)) <= usize::MAX,
            match tc_stmts(ctx.tc(), syms_v(function.local_symbols@), ret, ss.subrange(i as int, ss.len() as int)) {
                Ok((ts, c2, l2)) => tc_stmts(c0, l0, ret, ss) == Ok::<(Seq<TirStmtV>, TcCtx, Seq<SymbolV>), CompileError>(
                    (tstmts_v(out@) + ts, c2, l2),
                ),
                Err(e) => tc_stmts(c0, l0, ret, ss) == Err::<(Seq<TirStmtV>, TcCtx, Seq<SymbolV>), CompileError>(e),
            },
        decreases stmts@.len() - i,
    {
        let ghost si = ss.subrange(i as int, ss.len() as int);
        proof {
            assert(si[0] == ss[i as int]);
            assert(si.subrange(1, si.len() as int) =~= ss.subrange(i + 1, ss.len() as int));
            broadcast use vstd::std_specs::vec::axiom_vec_index_decreases;
            assert(decreases_to!(stmts => stmts@[i as int]));
        }
        let t = stmts[i].type_check(ctx, function)?;
        proof {
            crate::tir::lemma_tstmts_v_push(out@, t);
            let rest = tc_stmts(ctx.tc(), syms_v(function.local_symbols@), ret, ss.subrange(i + 1, ss.len() as int));
            match rest {
                Ok((ts, _, _)) => {
                    assert(tstmts_v(out@).push(t@) + ts =~= tstmts_v(out@) + (seq![t@] + ts));
                },
                Err(_) => {},
            }
        }
        out.push(t);
        i += 1;
    }
    proof {
        assert(tstmts_v(out@) + Seq::<TirStmtV>::empty() =~= tstmts_v(out@));
    }
    Ok(out)
}

/// Declaring the parameters of a function from the `i`-th on: each type is qualified and each
/// parameter gets a symbol of kind `Arg` with its position.
pub open spec fn tc_params(c: TcCtx, args: DeclsV, i: nat, locals: Seq<SymbolV>) -> Result<
    (TcCtx, Seq<SymbolV>),
    CompileError,
>
    decreases args.len() - i,
{
    if i >= args.len() {
        Ok((c, locals))
    } else {
        match q_type(c.types, args[i as int].1.inner) {
            None => Err(CompileError::UnknownType { at: args[i as int].1.span }),
            Some(q) => {
                let (sym, c2) = create_v(c, args[i as int].0, q, SymbolKind::Arg(i as usize));
                tc_params(c2, args, i + 1, locals.push(sym))
            },
        }
    }
}

/// Type checking of a function: its return type, its parameters, then its body.
pub open spec fn tc_function(c: TcCtx, name: SpannedV<Seq<char>>, ret: SpannedV<RawTypeV>, args: DeclsV, body: StV) -> Result<
    (TirFunctionV, TcCtx),
    CompileError,
> {
    match q_type(c.types, ret.inner) {
        None => Err(CompileError::UnknownType { at: ret.span }),
        Some(rt) => match tc_params(c, args, 0, Seq::empty()) {
            Err(e) => Err(e),
            Ok((c1, l1)) => match tc_stmt(c1, l1, rt, body) {
                Err(e) => Err(e),
                Ok((b, c2, l2)) => Ok(
                    (
                        TirFunctionV {
                            name,
                            symbol: resolve_v(c, name.inner)->0,
                            return_type: rt,
                            local_symbols: l2,
                            body: Some(b),
                        },
                        c2,
                    ),
                ),
            },
        },
    }
}

impl HirFunction {
    /// Type checks a function: the result holds what code generation needs of it.
    pub fn type_check(self, ctx: &mut CompilerContext) -> (r: Result<TirFunction, CompileError>)
        requires
            ctx_wf(old(ctx).tc()),
            resolve_v(old(ctx).tc(), self.name.inner@) is Some,
            old(ctx).tc().counter + self.args@.len() + decl_count(sstmt_v(self.body)) <= usize::MAX,
            old(ctx).tc().loop_depth + loop_nesting(sstmt_v(self.body)) <= usize::MAX,
        ensures
            match tc_function(old(ctx).tc(), self.name@, self.return_type@, decls_v(self.args@), sstmt_v(self.body)) {
                Ok((f, c2)) => r matches Ok(x) && x@ == f && final(ctx).tc() == c2,
                Err(e) => r matches Err(e2) && e2 == e,
            },
            r is Ok ==> ctx_wf(final(ctx).tc()),
            final(ctx).tc().top == old(ctx).tc().top,
            final(ctx).tc().types == old(ctx).tc().types,
    {
        let ghost c0 = ctx.tc();
        let ghost decls = decls_v(self.args@);
        let ghost name_v = self.name@;
        let return_type = match ctx.qualify_type(&self.return_type.inner) {
            Some(t) => t,
            None => {
                return Err(CompileError::UnknownType { at: self.return_type.span });
            },
        };
        let symbol = ctx.resolve_ident(&self.name.inner).unwrap();
        let mut tf = TirFunction {
            return_type,
            symbol,
            name: self.name,
            local_symbols: Vec::new(),
            body: None,
        };
        proof {
            assert(syms_v(tf.local_symbols@) =~= Seq::<SymbolV>::empty());
        }
        let mut i: usize = 0;
        while i < self.args.len()
            invariant
                i <= self.args@.len(),
                decls == decls_v(self.args@),
                c0 == old(ctx).tc(),
                ctx_wf(ctx.tc()),
                ctx.tc().counter == c0.counter + i,
                ctx.tc().loop_depth == c0.loop_depth,
                c0.counter + self.args@.len() + decl_count(sstmt_v(self.body)) <= usize::MAX,
                q_type(c0.types, self.return_type@.inner) is Some,
                tf.return_type@ == q_type(c0.types, self.return_type@.inner)->0,
                tf.name@ == name_v,
                tf.symbol@ == resolve_v(c0, name_v.inner)->0,
                ctx.tc().types == c0.types,
                ctx.tc().top == c0.top,
                tf.body is None,
                tc_params(c0, decls, 0, Seq::empty()) == tc_params(ctx.tc(), decls, i as nat, syms_v(tf.local_symbols@)),
            decreases self.args@.len() - i,
        {
            proof {
                assert(decls[i as int] == (self.args@[i as int].0@, self.args@[i as int].1@));
            }
            let ty = match ctx.qualify_type(&self.args[i].1.inner) {
                Some(t) => t,
                None => {
                    return Err(CompileError::UnknownType { at: self.args[i].1.span });
                },
            };
            proof {
                lemma_create_wf(ctx.tc(), self.args@[i as int].0@, ty@, SymbolKind::Arg(i));
            }
            let arg_symbol = ctx.create_symbol(share_name(&self.args[i].0), ty, SymbolKind::Arg(i));
            let ghost before = tf.local_symbols@;
            tf.local_symbols.push(arg_symbol);
            proof {
                assert(syms_v(tf.local_symbols@) =~= syms_v(before).push(arg_symbol@));
            }
            i += 1;
        }
        let body = self.body.type_check(ctx, &mut tf)?;
        tf.body = Some(body);
        Ok(tf)
    }
}

/// Checking a statement keeps the number of open scopes and every scope but the innermost.
pub proof fn lemma_stmt_scopes(c: TcCtx, locals: Seq<SymbolV>, ret: QualTypeV, s: StV)
    requires
        c.scopes.len() > 0,
    ensures
        tc_stmt(c, locals, ret, s) matches Ok((_, c2, _)) ==> c2.scopes.len() == c.scopes.len()
            && forall|i: int| 0 <= i < c.scopes.len() - 1 ==> #[trigger] c2.scopes[i] == c.scopes[i],
    decreases s,
{
    match s.inner {
        HirStmtV::While { cond, body } => {
            let inside = TcCtx { loop_depth: c.loop_depth + 1, ..c };
            lemma_stmt_scopes(inside, locals, ret, *body);
        },
        HirStmtV::If { cond, then_, else_ } => {
            lemma_stmt_scopes(c, locals, ret, *then_);
            match tc_stmt(c, locals, ret, *then_) {
                Ok((_, c1, l1)) => {
                    lemma_stmt_scopes(c1, l1, ret, *else_);
                },
                Err(_) => {},
            }
        },
        HirStmtV::Block(stmts) => {
            let inner = TcCtx { scopes: c.scopes.push(Map::empty()), ..c };
            lemma_stmts_scopes(inner, locals, ret, stmts);
            match tc_stmts(inner, locals, ret, stmts) {
                Ok((_, c3, _)) => {
                    assert(pop_v(c3.scopes) =~= c.scopes) by {
                        assert forall|i: int| 0 <= i < c.scopes.len() implies pop_v(c3.scopes)[i] == c.scopes[i] by {
                            assert(c3.scopes[i] == inner.scopes[i]);
                        }
                    }
                },
                Err(_) => {},
            }
        },
        _ => {},
    }
}

/// Checking statements one after the other keeps the number of open scopes and every scope but
/// the innermost.
pub proof fn lemma_stmts_scopes(c: TcCtx, locals: Seq<SymbolV>, ret: QualTypeV, ss: Seq<StV>)
    requires
        c.scopes.len() > 0,
    ensures
        tc_stmts(c, locals, ret, ss) matches Ok((_, c2, _)) ==> c2.scopes.len() == c.scopes.len()
            && forall|i: int| 0 <= i < c.scopes.len() - 1 ==> #[trigger] c2.scopes[i] == c.scopes[i],
    decreases ss,
{
    if ss.len() > 0 {
        lemma_stmt_scopes(c, locals, ret, ss[0]);
        match tc_stmt(c, locals, ret, ss[0]) {
            Ok((_, c1, l1)) => {
                lemma_stmts_scopes(c1, l1, ret, ss.subrange(1, ss.len() as int));
                match tc_stmts(c1, l1, ret, ss.subrange(1, ss.len() as int)) {
                    Ok((_, c2, _)) => {
                        assert forall|i: int| 0 <= i < c.scopes.len() - 1 implies #[trigger] c2.scopes[i] == c.scopes[i] by {
                            assert(c2.scopes[i] == c1.scopes[i]);
                        }
                    },
                    Err(_) => {},
                }
            },
            Err(_) => {},
        }
    }
}

/// Every symbol of the table is numbered below the counter.
pub open spec fn numbered_below(c: TcCtx) -> bool {
    forall|s: SymbolV| #[trigger] c.table.contains_key(s) ==> s.1 < c.counter
}

/// `c2`'s table holds every entry of `c`'s, unchanged, and its counter has not gone back.
pub open spec fn table_grows(c: TcCtx, c2: TcCtx) -> bool {
    &&& c.counter <= c2.counter
    &&& forall|s: SymbolV| #[trigger] c.table.contains_key(s) ==> c2.table.contains_key(s) && c2.table[s] == c.table[s]
}

/// Checking a statement only adds fresh entries to the table.
pub proof fn lemma_stmt_table(c: TcCtx, locals: Seq<SymbolV>, ret: QualTypeV, s: StV)
    requires
        numbered_below(c),
        c.counter + decl_count(s) <= usize::MAX,
    ensures
        tc_stmt(c, locals, ret, s) matches Ok((_, c2, _)) ==> numbered_below(c2) && table_grows(c, c2)
            && c2.counter <= c.counter + decl_count(s),
    decreases s,
{
    match s.inner {
        HirStmtV::While { cond, body } => {
            let inside = TcCtx { loop_depth: c.loop_depth + 1, ..c };
            lemma_stmt_table(inside, locals, ret, *body);
            match tc_stmt(inside, locals, ret, *body) {
                Ok((_, c2, _)) => {
                    let out = TcCtx { loop_depth: (c2.loop_depth - 1) as nat, ..c2 };
                    assert(out.table == c2.table && out.counter == c2.counter);
                    assert(table_grows(inside, c2));
                    assert(table_grows(c, out));
                    assert(numbered_below(out));
                },
                Err(_) => {},
            }
        },
        HirStmtV::If { cond, then_, else_ } => {
            lemma_stmt_table(c, locals, ret, *then_);
            match tc_stmt(c, locals, ret, *then_) {
                Ok((_, c1, l1)) => {
                    lemma_stmt_table(c1, l1, ret, *else_);
                    match tc_stmt(c1, l1, ret, *else_) {
                        Ok((_, c2, _)) => {
                            assert(table_grows(c, c2));
                        },
                        Err(_) => {},
                    }
                },
                Err(_) => {},
            }
        },
        HirStmtV::Block(stmts) => {
            let inner = TcCtx { scopes: c.scopes.push(Map::empty()), ..c };
            lemma_stmts_table(inner, locals, ret, stmts);
            match tc_stmts(inner, locals, ret, stmts) {
                Ok((_, c3, _)) => {
                    let out = TcCtx { scopes: pop_v(c3.scopes), ..c3 };
                    assert(out.table == c3.table && out.counter == c3.counter);
                    assert(inner.table == c.table && inner.counter == c.counter);
                    assert(table_grows(inner, c3));
                    assert(table_grows(c, out));
                    assert(numbered_below(out));
                },
                Err(_) => {},
            }
        },
        HirStmtV::LetDecl { name, .. } | HirStmtV::LetAssign { name, .. } => {
            let sym = (name.inner, c.counter as usize);
            assert(sym.1 == c.counter);
            assert(!c.table.contains_key(sym));
        },
        _ => {},
    }
}

/// Checking statements one after the other only adds fresh entries to the table.
pub proof fn lemma_stmts_table(c: TcCtx, locals: Seq<SymbolV>, ret: QualTypeV, ss: Seq<StV>)
    requires
        numbered_below(c),
        c.counter + decl_counts(ss) <= usize::MAX,
    ensures
        tc_stmts(c, locals, ret, ss) matches Ok((_, c2, _)) ==> numbered_below(c2) && table_grows(c, c2)
            && c2.counter <= c.counter + decl_counts(ss),
    decreases ss,
{
    if ss.len() > 0 {
        lemma_stmt_table(c, locals, ret, ss[0]);
        match tc_stmt(c, locals, ret, ss[0]) {
            Ok((_, c1, l1)) => {
                lemma_stmts_table(c1, l1, ret, ss.subrange(1, ss.len() as int));
            },
            Err(_) => {},
        }
    }
}

/// What a block declares does not outlive it: after a block is checked, the scopes are exactly
/// as they were before it, and the table has only gained entries for fresh symbols.
pub proof fn law_block_restores_scopes(c: TcCtx, locals: Seq<SymbolV>, ret: QualTypeV, s: StV)
    requires
        ctx_wf(c),
        c.counter + decl_count(s) <= usize::MAX,
        s.inner is Block,
    ensures
        tc_stmt(c, locals, ret, s) matches Ok((_, c2, _)) ==> c2.scopes == c.scopes && table_grows(c, c2),
{
    lemma_stmt_table(c, locals, ret, s);
    match s.inner {
        HirStmtV::Block(stmts) => {
            let inner = TcCtx { scopes: c.scopes.push(Map::empty()), ..c };
            lemma_stmts_scopes(inner, locals, ret, stmts);
            match tc_stmts(inner, locals, ret, stmts) {
                Ok((_, c3, _)) => {
                    assert(pop_v(c3.scopes) =~= c.scopes) by {
                        assert forall|i: int| 0 <= i < c.scopes.len() implies pop_v(c3.scopes)[i] == c.scopes[i] by {
                            assert(c3.scopes[i] == inner.scopes[i]);
                        }
                    }
                },
                Err(_) => {},
            }
        },
        _ => {},
    }
}

/// `break` and `continue` are accepted exactly inside a loop.
pub proof fn law_jumps_need_loop(c: TcCtx, locals: Seq<SymbolV>, ret: QualTypeV, s: StV)
    requires
        s.inner is Break || s.inner is Continue,
    ensures
        tc_stmt(c, locals, ret, s) is Ok <==> c.loop_depth > 0,
        tc_stmt(c, locals, ret, s) is Err ==> tc_stmt(c, locals, ret, s) == Err::<(TirStmtV, TcCtx, Seq<SymbolV>), CompileError>(
            CompileError::NotInLoop { at: s.span },
        ),
{
}

/// Symbols created one after the other are distinct, and each is bound to its name in the
/// innermost scope.
pub proof fn law_fresh_symbols(
    c: TcCtx,
    n1: SpannedV<Seq<char>>,
    t1: QualTypeV,
    k1: SymbolKind,
    n2: SpannedV<Seq<char>>,
    t2: QualTypeV,
    k2: SymbolKind,
)
    requires
        c.scopes.len() > 0,
        c.counter + 2 <= usize::MAX,
    ensures
        create_v(c, n1, t1, k1).0 != create_v(create_v(c, n1, t1, k1).1, n2, t2, k2).0,
        scopes_get(create_v(c, n1, t1, k1).1.scopes, n1.inner) == Some(create_v(c, n1, t1, k1).0),
{
    crate::env::law_get_after_insert(c.scopes, n1.inner, create_v(c, n1, t1, k1).0);
}

/// A literal whose context expects no integer or pointer type is an `i32`.
pub proof fn law_literal_default_type(c: TcCtx, e: ExV, hint: Option<QualTypeV>)
    requires
        e.inner is Num,
        hint is None || !(is_integral_v(hint->0) || is_pointer_v(hint->0)),
    ensures
        tc_rvalue(c, e, hint) matches Ok(x) ==> x.ty == QualTypeV::I32,
{
}

} // verus!
