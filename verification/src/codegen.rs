//! Code generation: lowering type-checked functions to STIR instructions in basic blocks.
//!
//! What code generation does is stated over `Cg`, a model of a function under construction:
//! its blocks with their instructions and edges, the insert point and the register counter.
//! The spec functions `emit_expr`, `emit_stmt`, `emit_locals` and `emit_function` give the
//! model that lowering leaves; the executable functions are proved to leave exactly that.
use crate::basicblock::{BasicBlock, InstructionTrait};
use crate::function::{pred_set, succ_set, valid_label, FunctionBuilder};
use crate::ir_types::{IRType, IRValue};
use crate::label::Label;
use crate::error::CompileError;
use crate::interner::Internable;
use crate::ops::{is_ordered_v, op_value, BinOp};
use crate::qual_type::{bits_v, ir_type_v, is_integral_v, is_pointer_v, is_signed_v, QualType, QualTypeV};
use crate::stir::{compare_instr, compare_instr_v, defs_seq, ir_eval, ir_signed, uses_seq, IRInstr, IRInstrV};
use crate::tir::{lemma_tirs_v, tir_v, tirs_v, tstmt_v, tstmts_v, TirExpr, TirExprKind, TirExprV, TirKindV, TirStmt, TirStmtV};
use crate::sema::CompilerContext;
use crate::tir::TirFunction;
use crate::translation_unit::{Symbol, SymbolInfo, SymbolInfoV, SymbolKind, SymbolV};
use std::marker::PhantomData;
use vstd::prelude::*;

verus! {

/// A block as code generation sees it.
pub struct BlockM {
    pub label: Label<IRInstr>,
    pub instrs: Seq<IRInstrV>,
    pub succs: Set<Label<IRInstr>>,
    pub preds: Set<Label<IRInstr>>,
    pub fall: Option<Label<IRInstr>>,
}

/// A function under construction: its blocks, the insert point and the next register number.
pub struct Cg {
    pub blocks: Seq<BlockM>,
    pub cursor: Label<IRInstr>,
    pub reg: nat,
}

pub open spec fn block_m(b: BasicBlock<IRInstr>) -> BlockM {
    BlockM {
        label: b.label,
        instrs: b.instructions@.map_values(|i: IRInstr| i@),
        succs: succ_set(b),
        preds: pred_set(b),
        fall: b.fallthrough,
    }
}

/// The model of a function builder.
pub open spec fn cg_of<V, T>(f: FunctionBuilder<IRInstr, V, T>) -> Cg {
    Cg {
        blocks: f.blocks_v().map_values(|b: BasicBlock<IRInstr>| block_m(b)),
        cursor: f.cursor_v(),
        reg: f.reg_count_v() as nat,
    }
}

/// Whether an instruction ends a block.
pub open spec fn ends_block(i: IRInstrV) -> bool {
    i is Jmp || i is Br || i is Ret || i is Retv
}

/// Whether a block ends with a terminator.
pub open spec fn closed_m(b: BlockM) -> bool {
    b.instrs.len() > 0 && ends_block(b.instrs.last())
}

/// `l` names the block at its number.
pub open spec fn valid_m(c: Cg, l: Label<IRInstr>) -> bool {
    l.1 < c.blocks.len() && c.blocks[l.1 as int].label == l
}

/// Emitting `i` at the insert point: it is added unless the block is already terminated.
pub open spec fn st_emit(c: Cg, i: IRInstrV) -> Cg {
    let k = c.cursor.1 as int;
    if closed_m(c.blocks[k]) {
        c
    } else {
        Cg { blocks: c.blocks.update(k, BlockM { instrs: c.blocks[k].instrs.push(i), ..c.blocks[k] }), ..c }
    }
}

/// A new empty block named `name`, numbered after the others.
pub open spec fn st_new_block(c: Cg, name: &'static str) -> (Cg, Label<IRInstr>) {
    let l = Label::<IRInstr>(name, c.blocks.len() as usize, PhantomData);
    (
        Cg {
            blocks: c.blocks.push(
                BlockM { label: l, instrs: Seq::empty(), succs: Set::empty(), preds: Set::empty(), fall: None },
            ),
            ..c
        },
        l,
    )
}

/// Recording `ls` as successors of the insert point's block, and that block as a
/// predecessor of each.
pub open spec fn st_add_succs(c: Cg, ls: Seq<Label<IRInstr>>) -> Cg {
    Cg {
        blocks: Seq::new(
            c.blocks.len(),
            |k: int|
                BlockM {
                    succs: if k == c.cursor.1 {
                        c.blocks[k].succs.union(ls.to_set())
                    } else {
                        c.blocks[k].succs
                    },
                    preds: if exists|i: int| 0 <= i < ls.len() && (#[trigger] ls[i]).1 == k {
                        c.blocks[k].preds.insert(c.cursor)
                    } else {
                        c.blocks[k].preds
                    },
                    ..c.blocks[k]
                },
        ),
        ..c
    }
}

/// Moving the insert point to `l`.
pub open spec fn st_set_cursor(c: Cg, l: Label<IRInstr>) -> Cg {
    Cg { cursor: l, ..c }
}

/// A fresh virtual register of type `ty`: a pointer register for a pointer type.
pub open spec fn st_new_reg(c: Cg, ty: IRType) -> (Cg, IRValue) {
    let v = if ty == IRType::Ptr {
        IRValue::Ptr(c.reg as usize, ty)
    } else {
        IRValue::Reg(c.reg as usize, ty)
    };
    (Cg { reg: c.reg + 1, ..c }, v)
}

/// The builder's invariant and a cursor that names a block.
pub open spec fn ready<V, T>(f: FunctionBuilder<IRInstr, V, T>) -> bool {
    f.wf() && valid_label(f.blocks_v(), f.cursor_v())
}

proof fn lemma_valid_m<V, T>(f: FunctionBuilder<IRInstr, V, T>, l: Label<IRInstr>)
    ensures
        valid_m(cg_of(f), l) == valid_label(f.blocks_v(), l),
{
    if l.1 < f.blocks_v().len() {
        assert(cg_of(f).blocks[l.1 as int].label == f.blocks_v()[l.1 as int].label);
    }
}

proof fn lemma_closed_m(b: BasicBlock<IRInstr>)
    ensures
        closed_m(block_m(b)) == crate::basicblock::terminated(b),
{
    if b.instructions@.len() > 0 {
        assert(block_m(b).instrs.last() == b.instructions@.last()@);
    }
}

/// Every label that names a block of `a` names the same block in `b`.
pub open spec fn keeps_labels(a: Seq<BasicBlock<IRInstr>>, b: Seq<BasicBlock<IRInstr>>) -> bool {
    forall|l: Label<IRInstr>| valid_label(a, l) ==> #[trigger] valid_label(b, l)
}

proof fn lemma_keeps_labels<V, T>(a: FunctionBuilder<IRInstr, V, T>, b: FunctionBuilder<IRInstr, V, T>)
    requires
        a.blocks_v().len() <= b.blocks_v().len(),
        forall|k: int| 0 <= k < a.blocks_v().len() ==> #[trigger] b.blocks_v()[k].label == a.blocks_v()[k].label,
    ensures
        keeps_labels(a.blocks_v(), b.blocks_v()),
{
}

/// Emits `i` at the insert point.
fn cg_emit<V, T>(f: &mut FunctionBuilder<IRInstr, V, T>, i: IRInstr)
    requires
        old(f).wf(),
    ensures
        final(f).args_v() == old(f).args_v(),
        keeps_labels(old(f).blocks_v(), final(f).blocks_v()),
        final(f).wf(),
        cg_of(*final(f)) == st_emit(cg_of(*old(f)), i@),
        final(f).entry_v() == old(f).entry_v(),
        final(f).blocks_v().len() == old(f).blocks_v().len(),
{
    let ghost iv = i@;
    let ghost k = f.cursor_v().1 as int;
    proof {
        lemma_closed_m(f.blocks_v()[k]);
    }
    f.emit(i);
    proof {
        let o = cg_of(*old(f));
        let n = cg_of(*f);
        let want = st_emit(o, iv);
        assert(n.blocks =~= want.blocks) by {
            assert forall|j: int| 0 <= j < n.blocks.len() implies n.blocks[j] == want.blocks[j] by {
                if j == k && !closed_m(o.blocks[k]) {
                    assert(n.blocks[j].instrs =~= o.blocks[j].instrs.push(iv));
                }
            }
        }
    }
}

/// Adds a new empty block named `name` and returns its label.
fn cg_new_block<V, T>(f: &mut FunctionBuilder<IRInstr, V, T>, name: &'static str) -> (r: Label<IRInstr>)
    requires
        old(f).wf(),
        old(f).blocks_v().len() < usize::MAX,
    ensures
        final(f).args_v() == old(f).args_v(),
        keeps_labels(old(f).blocks_v(), final(f).blocks_v()),
        final(f).wf(),
        (cg_of(*final(f)), r) == st_new_block(cg_of(*old(f)), name),
        final(f).entry_v() == old(f).entry_v(),
        final(f).blocks_v().len() == old(f).blocks_v().len() + 1,
{
    let r = f.newNamedBlock(name);
    proof {
        let o = cg_of(*old(f));
        let n = cg_of(*f);
        let want = st_new_block(o, name).0;
        let b = f.blocks_v().last();
        assert(b.instructions@.map_values(|i: IRInstr| i@) =~= Seq::<IRInstrV>::empty());
        assert(succ_set(b) =~= Set::<Label<IRInstr>>::empty());
        assert(pred_set(b) =~= Set::<Label<IRInstr>>::empty());
        assert(n.blocks =~= want.blocks) by {
            assert forall|j: int| 0 <= j < n.blocks.len() implies n.blocks[j] == want.blocks[j] by {
                if j < o.blocks.len() {
                    assert(f.blocks_v()[j] == old(f).blocks_v()[j]);
                }
            }
        }
    }
    r
}

/// Records `ls` as successors of the insert point's block.
fn cg_add_succs<V, T>(f: &mut FunctionBuilder<IRInstr, V, T>, ls: &[Label<IRInstr>])
    requires
        old(f).wf(),
        forall|i: int| 0 <= i < ls@.len() ==> valid_label(old(f).blocks_v(), #[trigger] ls@[i]),
    ensures
        final(f).args_v() == old(f).args_v(),
        keeps_labels(old(f).blocks_v(), final(f).blocks_v()),
        final(f).wf(),
        cg_of(*final(f)) == st_add_succs(cg_of(*old(f)), ls@),
        final(f).entry_v() == old(f).entry_v(),
        final(f).blocks_v().len() == old(f).blocks_v().len(),
{
    f.addSuccessors(ls);
    proof {
        let o = cg_of(*old(f));
        let n = cg_of(*f);
        let want = st_add_succs(o, ls@);
        assert(n.blocks =~= want.blocks) by {
            assert forall|j: int| 0 <= j < n.blocks.len() implies n.blocks[j] == want.blocks[j] by {
                assert(f.blocks_v()[j].instructions == old(f).blocks_v()[j].instructions);
                assert(f.blocks_v()[j].label == old(f).blocks_v()[j].label);
                assert(f.blocks_v()[j].fallthrough == old(f).blocks_v()[j].fallthrough);
                assert(succ_set(f.blocks_v()[j]) == want.blocks[j].succs);
                assert(pred_set(f.blocks_v()[j]) == want.blocks[j].preds);
            }
        }
    }
}

/// Moves the insert point to `l`.
fn cg_set_cursor<V, T>(f: &mut FunctionBuilder<IRInstr, V, T>, l: Label<IRInstr>)
    requires
        old(f).wf(),
        valid_label(old(f).blocks_v(), l),
    ensures
        final(f).args_v() == old(f).args_v(),
        keeps_labels(old(f).blocks_v(), final(f).blocks_v()),
        final(f).wf(),
        cg_of(*final(f)) == st_set_cursor(cg_of(*old(f)), l),
        final(f).entry_v() == old(f).entry_v(),
        final(f).blocks_v().len() == old(f).blocks_v().len(),
{
    f.setInsertPoint(l);
}

/// A fresh virtual register of type `ty`.
fn cg_new_reg<V, T>(f: &mut FunctionBuilder<IRInstr, V, T>, ty: IRType) -> (r: IRValue)
    requires
        old(f).wf(),
        old(f).reg_count_v() < usize::MAX,
    ensures
        final(f).args_v() == old(f).args_v(),
        keeps_labels(old(f).blocks_v(), final(f).blocks_v()),
        final(f).wf(),
        (cg_of(*final(f)), r) == st_new_reg(cg_of(*old(f)), ty),
        final(f).entry_v() == old(f).entry_v(),
        final(f).blocks_v().len() == old(f).blocks_v().len(),
{
    let n = f.getRegCount();
    f.setRegCount(n + 1);
    if ty.is_pointer() {
        IRValue::Ptr(n, ty)
    } else {
        IRValue::Reg(n, ty)
    }
}

/// The storage of each symbol, as pairs of symbol and value.
pub open spec fn vals_v(vs: Seq<(Symbol, IRValue)>) -> Seq<(SymbolV, IRValue)> {
    vs.map_values(|p: (Symbol, IRValue)| (p.0@, p.1))
}

/// The value recorded first for symbol `s`.
pub open spec fn value_of(vs: Seq<(SymbolV, IRValue)>, s: SymbolV) -> Option<IRValue>
    decreases vs.len(),
{
    if vs.len() == 0 {
        None
    } else if vs[0].0 == s {
        Some(vs[0].1)
    } else {
        value_of(vs.drop_first(), s)
    }
}

/// The value recorded first for `s`.
fn lookup_value(vs: &Vec<(Symbol, IRValue)>, s: &Symbol) -> (r: Option<IRValue>)
    ensures
        r == value_of(vals_v(vs@), s@),
{
    let mut i: usize = 0;
    proof {
        assert(vals_v(vs@).subrange(0, vs@.len() as int) =~= vals_v(vs@));
    }
    while i < vs.len()
        invariant
            i <= vs@.len(),
            value_of(vals_v(vs@), s@) == value_of(vals_v(vs@).subrange(i as int, vs@.len() as int), s@),
        decreases vs@.len() - i,
    {
        let ghost rest = vals_v(vs@).subrange(i as int, vs@.len() as int);
        proof {
            assert(rest.drop_first() =~= vals_v(vs@).subrange(i + 1, vs@.len() as int));
            assert(rest[0] == (vs@[i as int].0@, vs@[i as int].1));
        }
        if vs[i].0.same(s) {
            return Some(vs[i].1);
        }
        i += 1;
    }
    None
}

/// The IR type of what a pointer type points to.
pub open spec fn pointee_ir(t: QualTypeV) -> Option<IRType> {
    match t {
        QualTypeV::Pointer(p) => Some(ir_type_v(*p)),
        _ => None,
    }
}

/// The number of nodes of an expression: a bound on the registers its lowering takes.
pub open spec fn expr_size(e: TirExprV) -> nat
    decreases e, 0nat,
{
    match e.kind {
        TirKindV::Store { ptr, val } => 1 + expr_size(*ptr) + expr_size(*val),
        TirKindV::Load { inner } => 1 + expr_size(*inner),
        TirKindV::Un { rhs, .. } => 1 + expr_size(*rhs),
        TirKindV::Bin { lhs, rhs, .. } => 1 + expr_size(*lhs) + expr_size(*rhs),
        TirKindV::Cast { expr, .. } => 1 + expr_size(*expr),
        TirKindV::Call { callee, args } => 1 + expr_size(*callee) + args_size(args),
        _ => 1,
    }
}

pub open spec fn args_size(args: Seq<TirExprV>) -> nat
    decreases args, 1nat,
{
    if args.len() == 0 {
        0
    } else {
        args_size(args.subrange(0, args.len() - 1)) + expr_size(args[args.len() - 1])
    }
}

/// The instruction a binary operator lowers to, with destination `d`; `None` for pointer
/// subtraction and for a pointer offset whose pointer type is unknown.
pub open spec fn bin_instr(op: BinOp, irty: IRType, lt: QualTypeV, rt: QualTypeV, d: IRValue, l: IRValue, r: IRValue) -> Option<IRInstrV> {
    match op {
        BinOp::Add => Some(IRInstrV::Add(irty, d, l, r)),
        BinOp::Sub => Some(IRInstrV::Sub(irty, d, l, r)),
        BinOp::Mul => Some(if is_signed_v(lt) { IRInstrV::Smul(irty, d, l, r) } else { IRInstrV::Umul(irty, d, l, r) }),
        BinOp::Div => Some(if is_signed_v(lt) { IRInstrV::Sdiv(irty, d, l, r) } else { IRInstrV::Udiv(irty, d, l, r) }),
        BinOp::PtrAdd => if is_pointer_v(lt) {
            match pointee_ir(lt) {
                Some(bt) => Some(IRInstrV::Getaddr(d, l, bt, r)),
                None => None,
            }
        } else {
            match pointee_ir(rt) {
                Some(bt) => Some(IRInstrV::Getaddr(d, r, bt, l)),
                None => None,
            }
        },
        BinOp::PtrSub => None,
        _ => Some(compare_instr_v(op, is_signed_v(lt), if op == BinOp::Eq || op == BinOp::Ne {
            ir_type_v(QualTypeV::Bool)
        } else {
            ir_type_v(lt)
        }, d, l, r)),
    }
}

/// The conversion a cast from `from` to `to` lowers to, with destination `d`.
pub open spec fn cast_instr(to: QualTypeV, from: QualTypeV, d: IRValue, v: IRValue) -> IRInstrV {
    let tt = ir_type_v(to);
    let ft = ir_type_v(from);
    if bits_v(to) < bits_v(from) {
        IRInstrV::Trunc(tt, d, ft, v)
    } else if bits_v(to) > crate::ir_types::ir_type_bits(ft) {
        if is_signed_v(to) {
            IRInstrV::Sext(tt, d, ft, v)
        } else {
            IRInstrV::Zext(tt, d, ft, v)
        }
    } else {
        IRInstrV::Copy(tt, d, v)
    }
}

/// Lowering expression `e` at the insert point of `c`, with `vs` giving the storage of each
/// symbol: the model afterwards and the value that holds the result.
pub open spec fn emit_expr(c: Cg, e: TirExprV, vs: Seq<(SymbolV, IRValue)>) -> Result<(Cg, IRValue), CompileError>
    decreases e, 0nat,
{
    let irty = ir_type_v(e.ty);
    match e.kind {
        TirKindV::Num(n) => Ok((c, IRValue::Imm(n as i128, irty))),
        TirKindV::Bool(b) => Ok((c, IRValue::Imm(if b { 1 } else { 0 }, irty))),
        TirKindV::Store { ptr, val } => match emit_expr(c, *ptr, vs) {
            Err(x) => Err(x),
            Ok((c1, p)) => match emit_expr(c1, *val, vs) {
                Err(x) => Err(x),
                Ok((c2, v)) => Ok((st_emit(c2, IRInstrV::Store(ir_type_v(val.ty), p, v)), v)),
            },
        },
        TirKindV::Load { inner } => match pointee_ir(inner.ty) {
            None => Err(CompileError::NotLowered),
            Some(t) => match emit_expr(c, *inner, vs) {
                Err(x) => Err(x),
                Ok((c1, p)) => {
                    let (c2, d) = st_new_reg(c1, t);
                    Ok((st_emit(c2, IRInstrV::Load(t, p, d)), d))
                },
            },
        },
        TirKindV::ValueOf(s) => match value_of(vs, s) {
            None => Err(CompileError::NotLowered),
            Some(p) => {
                let (c1, d) = st_new_reg(c, irty);
                Ok((st_emit(c1, IRInstrV::Load(irty, p, d)), d))
            },
        },
        TirKindV::AddrOf(s) => match value_of(vs, s) {
            None => Err(CompileError::NotLowered),
            Some(v) => Ok((c, v)),
        },
        TirKindV::Un { .. } => Err(CompileError::NotLowered),
        TirKindV::Bin { op, lhs, rhs } => match emit_expr(c, *lhs, vs) {
            Err(x) => Err(x),
            Ok((c1, l)) => match emit_expr(c1, *rhs, vs) {
                Err(x) => Err(x),
                Ok((c2, r)) => {
                    let (c3, d) = st_new_reg(c2, irty);
                    match bin_instr(op, irty, lhs.ty, rhs.ty, d, l, r) {
                        None => Err(CompileError::NotLowered),
                        Some(i) => Ok((st_emit(c3, i), d)),
                    }
                },
            },
        },
        TirKindV::Cast { target_ty, expr } => if target_ty is Struct || expr.ty is Struct {
            Err(CompileError::NotLowered)
        } else {
            match emit_expr(c, *expr, vs) {
                Err(x) => Err(x),
                Ok((c1, v)) => {
                    let (c2, d) = st_new_reg(c1, ir_type_v(target_ty));
                    Ok((st_emit(c2, cast_instr(target_ty, expr.ty, d, v)), d))
                },
            }
        },
        TirKindV::Call { callee, args } => match emit_expr(c, *callee, vs) {
            Err(x) => Err(x),
            Ok((c1, cv)) => match emit_args(c1, args, vs) {
                Err(x) => Err(x),
                Ok((c2, avs)) => {
                    let (c3, d) = st_new_reg(c2, irty);
                    Ok((st_emit(c3, IRInstrV::Call(irty, d, cv, avs)), d))
                },
            },
        },
    }
}

/// Lowering a binary operation other than pointer arithmetic lowers the left operand, then the
/// right one, and emits one instruction that writes a fresh register with the operator applied
/// to the left value and the right value, in that order. Multiplication, division and the
/// ordered comparisons read their operands as signed exactly when the left operand's type is
/// signed.
pub proof fn law_binary_lowering(
    c: Cg,
    op: BinOp,
    lhs: TirExprV,
    rhs: TirExprV,
    ty: QualTypeV,
    vs: Seq<(SymbolV, IRValue)>,
    v: spec_fn(IRValue) -> int,
)
    requires
        op != BinOp::PtrAdd,
        op != BinOp::PtrSub,
    ensures
        emit_expr(c, (TirExprV { kind: TirKindV::Bin { op, lhs: Box::new(lhs), rhs: Box::new(rhs) }, ty }), vs) matches Ok((c3, d))
            ==> emit_expr(c, lhs, vs) matches Ok((c1, l)) && emit_expr(c1, rhs, vs) matches Ok((c2, r))
            && d == st_new_reg(c2, ir_type_v(ty)).1
            && exists|i: IRInstrV| #![auto]
                c3 == st_emit((Cg { reg: c2.reg + 1, ..c2 }), i) && defs_seq(i) == seq![d]
                && ir_eval(i, v) == Some(op_value(op, v(l), v(r)))
                && (op == BinOp::Mul || op == BinOp::Div || is_ordered_v(op) ==> ir_signed(i) == Some(is_signed_v(lhs.ty))),
{
    match emit_expr(c, lhs, vs) {
        Ok((c1, l)) => match emit_expr(c1, rhs, vs) {
            Ok((c2, r)) => {
                let irty = ir_type_v(ty);
                let (c3, d) = st_new_reg(c2, irty);
                match bin_instr(op, irty, lhs.ty, rhs.ty, d, l, r) {
                    Some(i) => {
                        assert(c3 == (Cg { reg: c2.reg + 1, ..c2 }));
                        assert(defs_seq(i) == seq![d]);
                        assert(ir_eval(i, v) == Some(op_value(op, v(l), v(r))));
                        assert(op == BinOp::Mul || op == BinOp::Div || is_ordered_v(op) ==> ir_signed(i) == Some(is_signed_v(lhs.ty)));
                    },
                    None => {},
                }
            },
            Err(_) => {},
        },
        Err(_) => {},
    }
}

/// Lowering an assignment lowers the address, then the value, stores the value through the
/// address, and gives the stored value.
pub proof fn law_store_lowering(c: Cg, ptr: TirExprV, val: TirExprV, ty: QualTypeV, vs: Seq<(SymbolV, IRValue)>)
    ensures
        emit_expr(c, (TirExprV { kind: TirKindV::Store { ptr: Box::new(ptr), val: Box::new(val) }, ty }), vs) matches Ok((c3, x))
            ==> emit_expr(c, ptr, vs) matches Ok((c1, p)) && emit_expr(c1, val, vs) matches Ok((c2, v)) && x == v
            && exists|i: IRInstrV| #![auto] c3 == st_emit(c2, i) && i is Store && uses_seq(i) == seq![p, v],
{
    if let Ok((c1, p)) = emit_expr(c, ptr, vs) {
        if let Ok((c2, v)) = emit_expr(c1, val, vs) {
            let i = IRInstrV::Store(ir_type_v(val.ty), p, v);
            assert(uses_seq(i) == seq![p, v]);
        }
    }
}

/// Lowering a conversion between integer types lowers the operand and writes a fresh register
/// with it converted: truncated to a narrower type, extended to a wider one (with its sign for
/// a signed target, with zeros for an unsigned one), copied to one as wide.
pub proof fn law_cast_lowering(c: Cg, to: QualTypeV, e: TirExprV, vs: Seq<(SymbolV, IRValue)>)
    requires
        is_integral_v(to),
        is_integral_v(e.ty),
    ensures
        emit_expr(c, (TirExprV { kind: TirKindV::Cast { target_ty: to, expr: Box::new(e) }, ty: to }), vs) matches Ok((c3, d))
            ==> emit_expr(c, e, vs) matches Ok((c1, v)) && d == st_new_reg(c1, ir_type_v(to)).1
            && exists|i: IRInstrV| #![auto] c3 == st_emit((Cg { reg: c1.reg + 1, ..c1 }), i) && uses_seq(i) == seq![v]
                && defs_seq(i) == seq![d]
                && (i is Trunc <==> bits_v(to) < bits_v(e.ty))
                && (i is Sext <==> bits_v(to) > bits_v(e.ty) && is_signed_v(to))
                && (i is Zext <==> bits_v(to) > bits_v(e.ty) && !is_signed_v(to))
                && (i is Copy <==> bits_v(to) == bits_v(e.ty)),
{
    if let Ok((c1, v)) = emit_expr(c, e, vs) {
        let (c2, d) = st_new_reg(c1, ir_type_v(to));
        let i = cast_instr(to, e.ty, d, v);
        assert(c2 == (Cg { reg: c1.reg + 1, ..c1 }));
        assert(uses_seq(i) == seq![v]);
        assert(defs_seq(i) == seq![d]);
    }
}

/// Lowering the expressions `args` in order: the model afterwards and their values.
pub open spec fn emit_args(c: Cg, args: Seq<TirExprV>, vs: Seq<(SymbolV, IRValue)>) -> Result<(Cg, Seq<IRValue>), CompileError>
    decreases args, 1nat,
{
    if args.len() == 0 {
        Ok((c, Seq::empty()))
    } else {
        match emit_args(c, args.subrange(0, args.len() - 1), vs) {
            Err(x) => Err(x),
            Ok((c1, pre)) => match emit_expr(c1, args[args.len() - 1], vs) {
                Err(x) => Err(x),
                Ok((c2, v)) => Ok((c2, pre.push(v))),
            },
        }
    }
}

/// The instruction of `bin_instr`.
fn bin_instruction(
    op: BinOp,
    irty: IRType,
    lt: &QualType,
    rt: &QualType,
    d: IRValue,
    l: IRValue,
    r: IRValue,
) -> (res: Option<IRInstr>)
    ensures
        match bin_instr(op, irty, lt@, rt@, d, l, r) {
            Some(i) => res matches Some(x) && x@ == i,
            None => res is None,
        },
{
    match op {
        BinOp::Add => Some(IRInstr::Add(irty, d, l, r)),
        BinOp::Sub => Some(IRInstr::Sub(irty, d, l, r)),
        BinOp::Mul => Some(
            if lt.is_signed() {
                IRInstr::Smul(irty, d, l, r)
            } else {
                IRInstr::Umul(irty, d, l, r)
            },
        ),
        BinOp::Div => Some(
            if lt.is_signed() {
                IRInstr::Sdiv(irty, d, l, r)
            } else {
                IRInstr::Udiv(irty, d, l, r)
            },
        ),
        BinOp::PtrAdd => if lt.is_pointer() {
            match lt.get_pointee() {
                Some(p) => Some(IRInstr::Getaddr(d, l, p.toIRType(), r)),
                None => None,
            }
        } else {
            match rt.get_pointee() {
                Some(p) => Some(IRInstr::Getaddr(d, r, p.toIRType(), l)),
                None => None,
            }
        },
        BinOp::PtrSub => None,
        _ => {
            let ty = if op == BinOp::Eq || op == BinOp::Ne {
                QualType::Bool.toIRType()
            } else {
                lt.toIRType()
            };
            Some(compare_instr(op, lt.is_signed(), ty, d, l, r))
        },
    }
}

/// The instruction of `cast_instr`.
fn cast_instruction(to: &QualType, from: &QualType, d: IRValue, v: IRValue) -> (i: IRInstr)
    requires
        !(to@ is Struct),
        !(from@ is Struct),
    ensures
        i@ == cast_instr(to@, from@, d, v),
{
    let tt = to.toIRType();
    let ft = from.toIRType();
    if to.bits() < from.bits() {
        IRInstr::Trunc(tt, d, ft, v)
    } else if to.bits() > ft.bits() {
        if to.is_signed() {
            IRInstr::Sext(tt, d, ft, v)
        } else {
            IRInstr::Zext(tt, d, ft, v)
        }
    } else {
        IRInstr::Copy(tt, d, v)
    }
}

proof fn lemma_args_size_prefix(args: Seq<TirExprV>, k: int)
    requires
        0 <= k <= args.len(),
    ensures
        args_size(args.subrange(0, k)) <= args_size(args),
    decreases args.len(),
{
    if k < args.len() {
        let pre = args.subrange(0, args.len() - 1);
        assert(pre.subrange(0, k) =~= args.subrange(0, k));
        lemma_args_size_prefix(pre, k);
    } else {
        assert(args.subrange(0, k) =~= args);
    }
}

proof fn lemma_args_err(c: Cg, args: Seq<TirExprV>, vs: Seq<(SymbolV, IRValue)>, k: int, x: CompileError)
    requires
        0 <= k <= args.len(),
        emit_args(c, args.subrange(0, k), vs) == Err::<(Cg, Seq<IRValue>), CompileError>(x),
    ensures
        emit_args(c, args, vs) == Err::<(Cg, Seq<IRValue>), CompileError>(x),
    decreases args.len() - k,
{
    if k == args.len() {
        assert(args.subrange(0, k) =~= args);
    } else {
        let next = args.subrange(0, k + 1);
        assert(next.subrange(0, k) =~= args.subrange(0, k));
        assert(emit_args(c, next, vs) == Err::<(Cg, Seq<IRValue>), CompileError>(x));
        lemma_args_err(c, args, vs, k + 1, x);
    }
}

/// Lowers expression `e` at the insert point, `vs` giving the storage of each symbol, and
/// returns the value that holds its result (see `emit_expr`).
pub fn codegen_expr<V, T>(e: &TirExpr, f: &mut FunctionBuilder<IRInstr, V, T>, vs: &Vec<(Symbol, IRValue)>) -> (r: Result<IRValue, CompileError>)
    requires
        old(f).wf(),
        old(f).reg_count_v() + expr_size(e@) <= usize::MAX,
    ensures
        final(f).wf(),
        final(f).entry_v() == old(f).entry_v(),
        final(f).blocks_v().len() == old(f).blocks_v().len(),
        final(f).reg_count_v() <= old(f).reg_count_v() + expr_size(e@),
        keeps_labels(old(f).blocks_v(), final(f).blocks_v()),
        final(f).args_v() == old(f).args_v(),
        match emit_expr(cg_of(*old(f)), e@, vals_v(vs@)) {
            Ok((c, v)) => r == Ok::<IRValue, CompileError>(v) && cg_of(*final(f)) == c,
            Err(x) => r == Err::<IRValue, CompileError>(x),
        },
    decreases e, 1nat,
{
    let irty = e.ty.toIRType();
    match &e.kind {
        TirExprKind::Num(n) => Ok(IRValue::Imm(*n, irty)),
        TirExprKind::Bool(b) => Ok(IRValue::Imm(if *b { 1 } else { 0 }, irty)),
        TirExprKind::ValueOf(s) => {
            let p = match lookup_value(vs, s) {
                Some(p) => p,
                None => {
                    return Err(CompileError::NotLowered);
                },
            };
            let d = cg_new_reg(f, irty);
            cg_emit(f, IRInstr::Load(irty, p, d));
            Ok(d)
        },
        TirExprKind::AddrOf(s) => match lookup_value(vs, s) {
            Some(v) => Ok(v),
            None => Err(CompileError::NotLowered),
        },
        TirExprKind::Un { .. } => Err(CompileError::NotLowered),
        TirExprKind::Store { .. } => codegen_store(e, f, vs),
        TirExprKind::Load { .. } => codegen_load(e, f, vs),
        TirExprKind::Bin { .. } => codegen_bin(e, f, vs),
        TirExprKind::Cast { .. } => codegen_cast(e, f, vs),
        TirExprKind::Call { .. } => codegen_call(e, f, vs),
    }
}

/// A store: the pointer, then the value, then `Store`; its value is the stored value.
fn codegen_store<V, T>(e: &TirExpr, f: &mut FunctionBuilder<IRInstr, V, T>, vs: &Vec<(Symbol, IRValue)>) -> (r: Result<IRValue, CompileError>)
    requires
        old(f).wf(),
        old(f).reg_count_v() + expr_size(e@) <= usize::MAX,
        e.kind is Store,
    ensures
        final(f).wf(),
        final(f).entry_v() == old(f).entry_v(),
        final(f).blocks_v().len() == old(f).blocks_v().len(),
        final(f).reg_count_v() <= old(f).reg_count_v() + expr_size(e@),
        keeps_labels(old(f).blocks_v(), final(f).blocks_v()),
        final(f).args_v() == old(f).args_v(),
        match emit_expr(cg_of(*old(f)), e@, vals_v(vs@)) {
            Ok((c, v)) => r == Ok::<IRValue, CompileError>(v) && cg_of(*final(f)) == c,
            Err(x) => r == Err::<IRValue, CompileError>(x),
        },
    decreases e, 0nat,
{
    match &e.kind {
        TirExprKind::Store { ptr, val } => {
            let p = match codegen_expr(ptr, f, vs) {
                Ok(p) => p,
                Err(x) => {
                    return Err(x);
                },
            };
            let v = match codegen_expr(val, f, vs) {
                Ok(v) => v,
                Err(x) => {
                    return Err(x);
                },
            };
            cg_emit(f, IRInstr::Store(val.ty.toIRType(), p, v));
            Ok(v)
        },
        _ => Err(CompileError::NotLowered),
    }
}

/// A load through a pointer into a fresh register.
fn codegen_load<V, T>(e: &TirExpr, f: &mut FunctionBuilder<IRInstr, V, T>, vs: &Vec<(Symbol, IRValue)>) -> (r: Result<IRValue, CompileError>)
    requires
        old(f).wf(),
        old(f).reg_count_v() + expr_size(e@) <= usize::MAX,
        e.kind is Load,
    ensures
        final(f).wf(),
        final(f).entry_v() == old(f).entry_v(),
        final(f).blocks_v().len() == old(f).blocks_v().len(),
        final(f).reg_count_v() <= old(f).reg_count_v() + expr_size(e@),
        keeps_labels(old(f).blocks_v(), final(f).blocks_v()),
        final(f).args_v() == old(f).args_v(),
        match emit_expr(cg_of(*old(f)), e@, vals_v(vs@)) {
            Ok((c, v)) => r == Ok::<IRValue, CompileError>(v) && cg_of(*final(f)) == c,
            Err(x) => r == Err::<IRValue, CompileError>(x),
        },
    decreases e, 0nat,
{
    match &e.kind {
        TirExprKind::Load { inner } => {
            proof {
                assert(e@.kind == TirKindV::Load { inner: Box::new(tir_v(**inner)) });
            }
            let t = match inner.ty.get_pointee() {
                Some(q) => q.toIRType(),
                None => {
                    return Err(CompileError::NotLowered);
                },
            };
            let p = match codegen_expr(inner, f, vs) {
                Ok(p) => p,
                Err(x) => {
                    return Err(x);
                },
            };
            let d = cg_new_reg(f, t);
            cg_emit(f, IRInstr::Load(t, p, d));
            Ok(d)
        },
        _ => Err(CompileError::NotLowered),
    }
}

/// A binary operation: both operands, then the instruction of `bin_instr` into a fresh register.
fn codegen_bin<V, T>(e: &TirExpr, f: &mut FunctionBuilder<IRInstr, V, T>, vs: &Vec<(Symbol, IRValue)>) -> (r: Result<IRValue, CompileError>)
    requires
        old(f).wf(),
        old(f).reg_count_v() + expr_size(e@) <= usize::MAX,
        e.kind is Bin,
    ensures
        final(f).wf(),
        final(f).entry_v() == old(f).entry_v(),
        final(f).blocks_v().len() == old(f).blocks_v().len(),
        final(f).reg_count_v() <= old(f).reg_count_v() + expr_size(e@),
        keeps_labels(old(f).blocks_v(), final(f).blocks_v()),
        final(f).args_v() == old(f).args_v(),
        match emit_expr(cg_of(*old(f)), e@, vals_v(vs@)) {
            Ok((c, v)) => r == Ok::<IRValue, CompileError>(v) && cg_of(*final(f)) == c,
            Err(x) => r == Err::<IRValue, CompileError>(x),
        },
    decreases e, 0nat,
{
    let irty = e.ty.toIRType();
    match &e.kind {
        TirExprKind::Bin { op, lhs, rhs } => {
            let l = match codegen_expr(lhs, f, vs) {
                Ok(l) => l,
                Err(x) => {
                    return Err(x);
                },
            };
            let r = match codegen_expr(rhs, f, vs) {
                Ok(r) => r,
                Err(x) => {
                    return Err(x);
                },
            };
            let d = cg_new_reg(f, irty);
            match bin_instruction(*op, irty, &lhs.ty, &rhs.ty, d, l, r) {
                Some(i) => {
                    cg_emit(f, i);
                    Ok(d)
                },
                None => Err(CompileError::NotLowered),
            }
        },
        _ => Err(CompileError::NotLowered),
    }
}

/// A conversion into a fresh register of the target type (see `cast_instr`).
fn codegen_cast<V, T>(e: &TirExpr, f: &mut FunctionBuilder<IRInstr, V, T>, vs: &Vec<(Symbol, IRValue)>) -> (r: Result<IRValue, CompileError>)
    requires
        old(f).wf(),
        old(f).reg_count_v() + expr_size(e@) <= usize::MAX,
        e.kind is Cast,
    ensures
        final(f).wf(),
        final(f).entry_v() == old(f).entry_v(),
        final(f).blocks_v().len() == old(f).blocks_v().len(),
        final(f).reg_count_v() <= old(f).reg_count_v() + expr_size(e@),
        keeps_labels(old(f).blocks_v(), final(f).blocks_v()),
        final(f).args_v() == old(f).args_v(),
        match emit_expr(cg_of(*old(f)), e@, vals_v(vs@)) {
            Ok((c, v)) => r == Ok::<IRValue, CompileError>(v) && cg_of(*final(f)) == c,
            Err(x) => r == Err::<IRValue, CompileError>(x),
        },
    decreases e, 0nat,
{
    match &e.kind {
        TirExprKind::Cast { target_ty, expr } => {
            proof {
                assert(e@.kind == TirKindV::Cast { target_ty: (**target_ty)@, expr: Box::new(tir_v(**expr)) });
            }
            if matches!(&**target_ty, QualType::Struct { .. }) || matches!(&*expr.ty, QualType::Struct { .. }) {
                proof {
                    assert((**target_ty)@ is Struct || (*expr.ty)@ is Struct);
                }
                return Err(CompileError::NotLowered);
            }
            let v = match codegen_expr(expr, f, vs) {
                Ok(v) => v,
                Err(x) => {
                    return Err(x);
                },
            };
            let d = cg_new_reg(f, target_ty.toIRType());
            cg_emit(f, cast_instruction(target_ty, &expr.ty, d, v));
            Ok(d)
        },
        _ => Err(CompileError::NotLowered),
    }
}

/// A call: the callee, then the arguments in order, then `Call` into a fresh register.
fn codegen_call<V, T>(e: &TirExpr, f: &mut FunctionBuilder<IRInstr, V, T>, vs: &Vec<(Symbol, IRValue)>) -> (r: Result<IRValue, CompileError>)
    requires
        old(f).wf(),
        old(f).reg_count_v() + expr_size(e@) <= usize::MAX,
        e.kind is Call,
    ensures
        final(f).wf(),
        final(f).entry_v() == old(f).entry_v(),
        final(f).blocks_v().len() == old(f).blocks_v().len(),
        final(f).reg_count_v() <= old(f).reg_count_v() + expr_size(e@),
        keeps_labels(old(f).blocks_v(), final(f).blocks_v()),
        final(f).args_v() == old(f).args_v(),
        match emit_expr(cg_of(*old(f)), e@, vals_v(vs@)) {
            Ok((c, v)) => r == Ok::<IRValue, CompileError>(v) && cg_of(*final(f)) == c,
            Err(x) => r == Err::<IRValue, CompileError>(x),
        },
    decreases e, 0nat,
{
    let irty = e.ty.toIRType();
    match &e.kind {
        TirExprKind::Call { callee, args } => {
            let ghost reg0 = f.reg_count_v();
            proof {
                assert(expr_size(e@) == 1 + expr_size(tir_v(**callee)) + args_size(tirs_v(args@)));
            }
            let cv = match codegen_expr(callee, f, vs) {
                Ok(v) => v,
                Err(x) => {
                    return Err(x);
                },
            };
            let ghost c1 = cg_of(*f);
            let ghost reg1 = f.reg_count_v();
            let ghost all = tirs_v(args@);
            proof {
                lemma_tirs_v(args@);
                assert(all.subrange(0, 0) =~= Seq::<TirExprV>::empty());
                assert(e@.kind == TirKindV::Call { callee: Box::new(tir_v(**callee)), args: all });
                assert(decreases_to!(*e => e.kind));
                assert forall|j: int| 0 <= j < args@.len() implies decreases_to!(*e => args@[j]) by {
                    assert(decreases_to!(e.kind => *args));
                    assert(decreases_to!(*args => args@));
                    assert(decreases_to!(args@ => args@[j]));
                }
            }
            let mut out: Vec<IRValue> = Vec::new();
            let mut i: usize = 0;
            while i < args.len()
                invariant
                    f.wf(),
                    f.entry_v() == old(f).entry_v(),
                    f.blocks_v().len() == old(f).blocks_v().len(),
                    keeps_labels(old(f).blocks_v(), f.blocks_v()),
                    f.args_v() == old(f).args_v(),
                    i <= args@.len(),
                    all == tirs_v(args@),
                    all.len() == args@.len(),
                    forall|j: int| 0 <= j < args@.len() ==> #[trigger] all[j] == tir_v(args@[j]),
                    reg1 <= reg0 + expr_size(tir_v(**callee)),
                    reg0 + expr_size(tir_v(**callee)) + args_size(all) + 1 <= usize::MAX,
                    f.reg_count_v() <= reg1 + args_size(all.subrange(0, i as int)),
                    emit_args(c1, all.subrange(0, i as int), vals_v(vs@)) == Ok::<(Cg, Seq<IRValue>), CompileError>((cg_of(*f), out@)),
                    e@.kind == (TirKindV::Call { callee: Box::new(tir_v(**callee)), args: all }),
                    emit_expr(cg_of(*old(f)), tir_v(**callee), vals_v(vs@)) == Ok::<(Cg, IRValue), CompileError>((c1, cv)),
                    reg0 == old(f).reg_count_v(),
                    expr_size(e@) == 1 + expr_size(tir_v(**callee)) + args_size(all),
                    forall|j: int| 0 <= j < args@.len() ==> decreases_to!(*e => args@[j]),
                decreases args@.len() - i,
            {
                proof {
                    lemma_args_size_prefix(all, i + 1);
                    assert(all.subrange(0, i + 1).subrange(0, i as int) =~= all.subrange(0, i as int));
                    assert(all.subrange(0, i + 1)[i as int] == all[i as int]);
                    assert(decreases_to!(*e => args@[i as int]));
                }
                let ghost ci = cg_of(*f);
                let v = match codegen_expr(&args[i], f, vs) {
                    Ok(v) => v,
                    Err(x) => {
                        proof {
                            assert(all[i as int] == args@[i as int]@);
                            assert(emit_expr(ci, all[i as int], vals_v(vs@)) == Err::<(Cg, IRValue), CompileError>(x));
                            assert(emit_args(c1, all.subrange(0, i + 1), vals_v(vs@)) == Err::<(Cg, Seq<IRValue>), CompileError>(x));
                            lemma_args_err(c1, all, vals_v(vs@), i + 1, x);
                        }
                        return Err(x);
                    },
                };
                out.push(v);
                i += 1;
            }
            proof {
                assert(all.subrange(0, args@.len() as int) =~= all);
            }
            let d = cg_new_reg(f, irty);
            cg_emit(f, IRInstr::Call(irty, d, cv, std::rc::Rc::new(out)));
            Ok(d)
        },
        _ => Err(CompileError::NotLowered),
    }
}

/// Ends the insert point's block with a jump to `to`, unless it is terminated already.
pub open spec fn st_join(c: Cg, to: Label<IRInstr>) -> Cg {
    if closed_m(c.blocks[c.cursor.1 as int]) {
        c
    } else {
        st_add_succs(st_emit(c, IRInstrV::Jmp(to)), seq![to])
    }
}

/// A bound on the registers and the blocks that lowering a statement takes.
pub open spec fn stmt_size(s: TirStmtV) -> nat
    decreases s, 0nat,
{
    match s {
        TirStmtV::While { cond, body } => 3 + expr_size(cond) + stmt_size(*body),
        TirStmtV::If { cond, then_, else_ } => 3 + expr_size(cond) + stmt_size(*then_) + stmt_size(*else_),
        TirStmtV::Return(Some(e)) => expr_size(e),
        TirStmtV::Block(ss) => stmts_size(ss),
        TirStmtV::Expr(e) => expr_size(e),
        _ => 0,
    }
}

pub open spec fn stmts_size(ss: Seq<TirStmtV>) -> nat
    decreases ss, 1nat,
{
    if ss.len() == 0 {
        0
    } else {
        stmts_size(ss.subrange(0, ss.len() - 1)) + stmt_size(ss[ss.len() - 1])
    }
}

/// Lowering statement `s` at the insert point of `c`: `vs` gives the storage of each symbol,
/// `rty` the function's return type and `loops` the condition and end blocks of the enclosing
/// loops, innermost last. Gives the model afterwards, or the error.
pub open spec fn emit_stmt(
    c: Cg,
    s: TirStmtV,
    vs: Seq<(SymbolV, IRValue)>,
    rty: IRType,
    loops: Seq<(Label<IRInstr>, Label<IRInstr>)>,
) -> Result<Cg, CompileError>
    decreases s, 0nat,
{
    match s {
        TirStmtV::While { cond, body } => {
            let (c1, cb) = st_new_block(c, "loopcond");
            let (c2, bb) = st_new_block(c1, "loopbody");
            let (c3, eb) = st_new_block(c2, "loopend");
            let c4 = st_set_cursor(st_add_succs(st_emit(c3, IRInstrV::Jmp(cb)), seq![cb]), cb);
            match emit_expr(c4, cond, vs) {
                Err(x) => Err(x),
                Ok((c5, cv)) => {
                    let c6 = st_set_cursor(st_add_succs(st_emit(c5, IRInstrV::Br(cv, bb, eb)), seq![bb, eb]), bb);
                    match emit_stmt(c6, *body, vs, rty, loops.push((cb, eb))) {
                        Err(x) => Err(x),
                        Ok(c7) => Ok(st_set_cursor(st_add_succs(st_emit(c7, IRInstrV::Jmp(cb)), seq![cb]), eb)),
                    }
                },
            }
        },
        TirStmtV::Continue => if loops.len() == 0 {
            Err(CompileError::JumpOutsideLoop)
        } else {
            Ok(st_emit(c, IRInstrV::Jmp(loops.last().0)))
        },
        TirStmtV::Break => if loops.len() == 0 {
            Err(CompileError::JumpOutsideLoop)
        } else {
            Ok(st_emit(c, IRInstrV::Jmp(loops.last().1)))
        },
        TirStmtV::If { cond, then_, else_ } => {
            let (c1, tb) = st_new_block(c, "then");
            let (c2, eb) = st_new_block(c1, "else");
            let (c3, jb) = st_new_block(c2, "endif");
            match emit_expr(c3, cond, vs) {
                Err(x) => Err(x),
                Ok((c4, cv)) => {
                    let c5 = st_set_cursor(st_add_succs(st_emit(c4, IRInstrV::Br(cv, tb, eb)), seq![tb, eb]), tb);
                    match emit_stmt(c5, *then_, vs, rty, loops) {
                        Err(x) => Err(x),
                        Ok(c6) => match emit_stmt(st_set_cursor(st_join(c6, jb), eb), *else_, vs, rty, loops) {
                            Err(x) => Err(x),
                            Ok(c7) => Ok(st_set_cursor(st_join(c7, jb), jb)),
                        },
                    }
                },
            }
        },
        TirStmtV::Return(Some(e)) => match emit_expr(c, e, vs) {
            Err(x) => Err(x),
            Ok((c1, v)) => Ok(st_emit(c1, IRInstrV::Ret(rty, v))),
        },
        TirStmtV::Return(None) => Ok(st_emit(c, IRInstrV::Retv)),
        TirStmtV::Block(ss) => emit_stmts(c, ss, vs, rty, loops),
        TirStmtV::Expr(e) => match emit_expr(c, e, vs) {
            Err(x) => Err(x),
            Ok((c1, _)) => Ok(c1),
        },
    }
}

/// Lowering the statements `ss` in order.
pub open spec fn emit_stmts(
    c: Cg,
    ss: Seq<TirStmtV>,
    vs: Seq<(SymbolV, IRValue)>,
    rty: IRType,
    loops: Seq<(Label<IRInstr>, Label<IRInstr>)>,
) -> Result<Cg, CompileError>
    decreases ss, 1nat,
{
    if ss.len() == 0 {
        Ok(c)
    } else {
        match emit_stmts(c, ss.subrange(0, ss.len() - 1), vs, rty, loops) {
            Err(x) => Err(x),
            Ok(c1) => emit_stmt(c1, ss[ss.len() - 1], vs, rty, loops),
        }
    }
}

/// `c2` keeps what `c` holds outside `c`'s insert block: the blocks of `c` keep their labels,
/// and all but the insert block their instructions; blocks may be added, and the insert point
/// of `c2` is `c`'s or an added block.
pub open spec fn keeps_blocks(c: Cg, c2: Cg) -> bool {
    &&& c.blocks.len() <= c2.blocks.len()
    &&& c2.cursor.1 < c2.blocks.len()
    &&& (c2.cursor == c.cursor || c2.cursor.1 >= c.blocks.len())
    &&& forall|k: int| 0 <= k < c.blocks.len() ==> #[trigger] c2.blocks[k].label == c.blocks[k].label
    &&& forall|k: int|
        0 <= k < c.blocks.len() && k != c.cursor.1 ==> #[trigger] c2.blocks[k].instrs == c.blocks[k].instrs
}

proof fn lemma_keeps_trans(a: Cg, b: Cg, c: Cg)
    requires
        keeps_blocks(a, b),
        keeps_blocks(b, c),
    ensures
        keeps_blocks(a, c),
{
    assert forall|k: int| 0 <= k < a.blocks.len() && k != a.cursor.1 implies #[trigger] c.blocks[k].instrs
        == a.blocks[k].instrs by {
        assert(b.blocks[k].instrs == a.blocks[k].instrs);
    }
    assert forall|k: int| 0 <= k < a.blocks.len() implies #[trigger] c.blocks[k].label == a.blocks[k].label by {
        assert(b.blocks[k].label == a.blocks[k].label);
    }
}

/// The steps that lowering is made of keep the blocks.
proof fn lemma_keeps_steps(c0: Cg, c: Cg, i: IRInstrV, ls: Seq<Label<IRInstr>>, nm: &'static str, t: IRType)
    requires
        keeps_blocks(c0, c),
    ensures
        keeps_blocks(c0, st_emit(c, i)),
        keeps_blocks(c0, st_add_succs(c, ls)),
        keeps_blocks(c0, st_new_block(c, nm).0),
        keeps_blocks(c0, st_new_reg(c, t).0),
        keeps_blocks(c0, st_join(c, ls.first())),
        st_emit(c, i).cursor == c.cursor && st_emit(c, i).blocks.len() == c.blocks.len(),
        st_add_succs(c, ls).cursor == c.cursor && st_add_succs(c, ls).blocks.len() == c.blocks.len(),
        st_join(c, ls.first()).cursor == c.cursor && st_join(c, ls.first()).blocks.len() == c.blocks.len(),
        forall|k: int| 0 <= k < c.blocks.len() ==> #[trigger] st_add_succs(c, ls).blocks[k].instrs == c.blocks[k].instrs,
        forall|k: int| 0 <= k < c.blocks.len() ==> #[trigger] st_add_succs(c, ls).blocks[k].label == c.blocks[k].label,
{
    let e = st_emit(c, i);
    assert forall|k: int| 0 <= k < c0.blocks.len() && k != c0.cursor.1 implies #[trigger] e.blocks[k].instrs
        == c0.blocks[k].instrs by {
        assert(c.blocks[k].instrs == c0.blocks[k].instrs);
    }
    assert forall|k: int| 0 <= k < c0.blocks.len() implies #[trigger] e.blocks[k].label == c0.blocks[k].label by {
        assert(c.blocks[k].label == c0.blocks[k].label);
    }
    let e2 = st_emit(c, IRInstrV::Jmp(ls.first()));
    assert forall|k: int| 0 <= k < c0.blocks.len() && k != c0.cursor.1 implies #[trigger] e2.blocks[k].instrs
        == c0.blocks[k].instrs by {
        assert(c.blocks[k].instrs == c0.blocks[k].instrs);
    }
    assert forall|k: int| 0 <= k < c0.blocks.len() implies #[trigger] e2.blocks[k].label == c0.blocks[k].label by {
        assert(c.blocks[k].label == c0.blocks[k].label);
    }
    let j = st_add_succs(e2, seq![ls.first()]);
    assert forall|k: int| 0 <= k < c0.blocks.len() && k != c0.cursor.1 implies #[trigger] j.blocks[k].instrs
        == c0.blocks[k].instrs by {
        assert(e2.blocks[k].instrs == c0.blocks[k].instrs);
    }
    assert forall|k: int| 0 <= k < c0.blocks.len() implies #[trigger] j.blocks[k].label == c0.blocks[k].label by {
        assert(e2.blocks[k].label == c0.blocks[k].label);
    }
    let a = st_add_succs(c, ls);
    assert forall|k: int| 0 <= k < c0.blocks.len() && k != c0.cursor.1 implies #[trigger] a.blocks[k].instrs
        == c0.blocks[k].instrs by {
        assert(c.blocks[k].instrs == c0.blocks[k].instrs);
    }
    assert forall|k: int| 0 <= k < c0.blocks.len() implies #[trigger] a.blocks[k].label == c0.blocks[k].label by {
        assert(c.blocks[k].label == c0.blocks[k].label);
    }
    let nb = st_new_block(c, nm).0;
    assert forall|k: int| 0 <= k < c0.blocks.len() && k != c0.cursor.1 implies #[trigger] nb.blocks[k].instrs
        == c0.blocks[k].instrs by {
        assert(c.blocks[k].instrs == c0.blocks[k].instrs);
    }
    assert forall|k: int| 0 <= k < c0.blocks.len() implies #[trigger] nb.blocks[k].label == c0.blocks[k].label by {
        assert(c.blocks[k].label == c0.blocks[k].label);
    }
}

/// Moving the insert point to a block added after `c0` keeps `c0`'s blocks.
proof fn lemma_keeps_move(c0: Cg, c: Cg, l: Label<IRInstr>)
    requires
        keeps_blocks(c0, c),
        c0.blocks.len() <= l.1 < c.blocks.len(),
    ensures
        keeps_blocks(c0, st_set_cursor(c, l)),
{
}

/// Whether lowering an expression could emit `i`: none of those instructions ends a block.
proof fn lemma_expr_instrs(op: BinOp, irty: IRType, lt: QualTypeV, rt: QualTypeV, d: IRValue, l: IRValue, r: IRValue, to: QualTypeV)
    ensures
        bin_instr(op, irty, lt, rt, d, l, r) matches Some(i) ==> !ends_block(i),
        !ends_block(cast_instr(to, lt, d, l)),
{
}

/// Lowering an expression only adds instructions that do not end a block to the insert block.
proof fn lemma_expr_keeps(c: Cg, e: TirExprV, vs: Seq<(SymbolV, IRValue)>)
    requires
        c.cursor.1 < c.blocks.len(),
    ensures
        emit_expr(c, e, vs) matches Ok((c2, _)) ==> keeps_blocks(c, c2) && c2.cursor == c.cursor
            && c2.blocks.len() == c.blocks.len() && (!closed_m(c.blocks[c.cursor.1 as int]) ==> !closed_m(
            c2.blocks[c.cursor.1 as int],
        )),
    decreases e, 0nat,
{
    let k = c.cursor.1 as int;
    lemma_keeps_steps(c, c, IRInstrV::Retv, seq![c.cursor], "", IRType::Ptr);
    match e.kind {
        TirKindV::Store { ptr, val } => {
            lemma_expr_keeps(c, *ptr, vs);
            if let Ok((c1, p)) = emit_expr(c, *ptr, vs) {
                lemma_expr_keeps(c1, *val, vs);
                if let Ok((c2, v)) = emit_expr(c1, *val, vs) {
                    lemma_keeps_trans(c, c1, c2);
                    lemma_keeps_steps(c, c2, IRInstrV::Store(ir_type_v(val.ty), p, v), seq![c.cursor], "", IRType::Ptr);
                }
            }
        },
        TirKindV::Load { inner } => {
            lemma_expr_keeps(c, *inner, vs);
            if let (Some(t), Ok((c1, p))) = (pointee_ir(inner.ty), emit_expr(c, *inner, vs)) {
                let (c2, d) = st_new_reg(c1, t);
                lemma_keeps_steps(c, c1, IRInstrV::Retv, seq![c.cursor], "", t);
                lemma_keeps_steps(c, c2, IRInstrV::Load(t, p, d), seq![c.cursor], "", t);
            }
        },
        TirKindV::ValueOf(s) => {
            if let Some(p) = value_of(vs, s) {
                let (c1, d) = st_new_reg(c, ir_type_v(e.ty));
                lemma_keeps_steps(c, c, IRInstrV::Retv, seq![c.cursor], "", ir_type_v(e.ty));
                lemma_keeps_steps(c, c1, IRInstrV::Load(ir_type_v(e.ty), p, d), seq![c.cursor], "", IRType::Ptr);
            }
        },
        TirKindV::Bin { op, lhs, rhs } => {
            lemma_expr_keeps(c, *lhs, vs);
            if let Ok((c1, l)) = emit_expr(c, *lhs, vs) {
                lemma_expr_keeps(c1, *rhs, vs);
                if let Ok((c2, r)) = emit_expr(c1, *rhs, vs) {
                    lemma_keeps_trans(c, c1, c2);
                    let irty = ir_type_v(e.ty);
                    let (c3, d) = st_new_reg(c2, irty);
                    lemma_keeps_steps(c, c2, IRInstrV::Retv, seq![c.cursor], "", irty);
                    lemma_expr_instrs(op, irty, lhs.ty, rhs.ty, d, l, r, e.ty);
                    if let Some(i) = bin_instr(op, irty, lhs.ty, rhs.ty, d, l, r) {
                        lemma_keeps_steps(c, c3, i, seq![c.cursor], "", irty);
                    }
                }
            }
        },
        TirKindV::Cast { target_ty, expr } => {
            lemma_expr_keeps(c, *expr, vs);
            if let Ok((c1, v)) = emit_expr(c, *expr, vs) {
                let (c2, d) = st_new_reg(c1, ir_type_v(target_ty));
                lemma_keeps_steps(c, c1, IRInstrV::Retv, seq![c.cursor], "", ir_type_v(target_ty));
                lemma_expr_instrs(BinOp::Add, IRType::Ptr, expr.ty, expr.ty, d, v, v, target_ty);
                lemma_keeps_steps(c, c2, cast_instr(target_ty, expr.ty, d, v), seq![c.cursor], "", IRType::Ptr);
            }
        },
        TirKindV::Call { callee, args } => {
            lemma_expr_keeps(c, *callee, vs);
            if let Ok((c1, cv)) = emit_expr(c, *callee, vs) {
                lemma_args_keeps(c1, args, vs);
                if let Ok((c2, avs)) = emit_args(c1, args, vs) {
                    lemma_keeps_trans(c, c1, c2);
                    let irty = ir_type_v(e.ty);
                    let (c3, d) = st_new_reg(c2, irty);
                    lemma_keeps_steps(c, c2, IRInstrV::Retv, seq![c.cursor], "", irty);
                    lemma_keeps_steps(c, c3, IRInstrV::Call(irty, d, cv, avs), seq![c.cursor], "", irty);
                }
            }
        },
        _ => {},
    }
}

proof fn lemma_args_keeps(c: Cg, args: Seq<TirExprV>, vs: Seq<(SymbolV, IRValue)>)
    requires
        c.cursor.1 < c.blocks.len(),
    ensures
        emit_args(c, args, vs) matches Ok((c2, _)) ==> keeps_blocks(c, c2) && c2.cursor == c.cursor
            && c2.blocks.len() == c.blocks.len() && (!closed_m(c.blocks[c.cursor.1 as int]) ==> !closed_m(
            c2.blocks[c.cursor.1 as int],
        )),
    decreases args, 1nat,
{
    lemma_keeps_steps(c, c, IRInstrV::Retv, seq![c.cursor], "", IRType::Ptr);
    if args.len() > 0 {
        lemma_args_keeps(c, args.subrange(0, args.len() - 1), vs);
        if let Ok((c1, pre)) = emit_args(c, args.subrange(0, args.len() - 1), vs) {
            lemma_expr_keeps(c1, args[args.len() - 1], vs);
            if let Ok((c2, v)) = emit_expr(c1, args[args.len() - 1], vs) {
                lemma_keeps_trans(c, c1, c2);
            }
        }
    }
}

proof fn lemma_while_keeps(
    c: Cg,
    s: TirStmtV,
    vs: Seq<(SymbolV, IRValue)>,
    rty: IRType,
    loops: Seq<(Label<IRInstr>, Label<IRInstr>)>,
)
    requires
        c.cursor.1 < c.blocks.len(),
        c.blocks.len() + stmt_size(s) <= usize::MAX,
        s is While,
    ensures
        emit_stmt(c, s, vs, rty, loops) matches Ok(c2) ==> keeps_blocks(c, c2) && c2.blocks.len() <= c.blocks.len()
            + stmt_size(s),
    decreases s, 0nat,
{
    let t = IRType::Ptr;
    lemma_keeps_steps(c, c, IRInstrV::Retv, seq![c.cursor], "", t);
    match s {
        TirStmtV::While { cond, body } => {
            let (c1, cb) = st_new_block(c, "loopcond");
            lemma_keeps_steps(c, c, IRInstrV::Retv, seq![cb], "loopcond", t);
            let (c2, bb) = st_new_block(c1, "loopbody");
            lemma_keeps_steps(c, c1, IRInstrV::Retv, seq![cb], "loopbody", t);
            let (c3, eb) = st_new_block(c2, "loopend");
            lemma_keeps_steps(c, c2, IRInstrV::Retv, seq![cb], "loopend", t);
            lemma_keeps_steps(c, c3, IRInstrV::Jmp(cb), seq![cb], "", t);
            let e3 = st_emit(c3, IRInstrV::Jmp(cb));
            lemma_keeps_steps(c, e3, IRInstrV::Retv, seq![cb], "", t);
            let a3 = st_add_succs(e3, seq![cb]);
            lemma_keeps_move(c, a3, cb);
            let c4 = st_set_cursor(a3, cb);
            lemma_expr_keeps(c4, cond, vs);
            if let Ok((c5, cv)) = emit_expr(c4, cond, vs) {
                lemma_keeps_trans(c, c4, c5);
                lemma_keeps_steps(c, c5, IRInstrV::Br(cv, bb, eb), seq![bb, eb], "", t);
                let e5 = st_emit(c5, IRInstrV::Br(cv, bb, eb));
                lemma_keeps_steps(c, e5, IRInstrV::Retv, seq![bb, eb], "", t);
                let a5 = st_add_succs(e5, seq![bb, eb]);
                lemma_keeps_move(c, a5, bb);
                let c6 = st_set_cursor(a5, bb);
                lemma_stmt_keeps(c6, *body, vs, rty, loops.push((cb, eb)));
                if let Ok(c7) = emit_stmt(c6, *body, vs, rty, loops.push((cb, eb))) {
                    lemma_keeps_trans(c, c6, c7);
                    lemma_keeps_steps(c, c7, IRInstrV::Jmp(cb), seq![cb], "", t);
                    let e7 = st_emit(c7, IRInstrV::Jmp(cb));
                    lemma_keeps_steps(c, e7, IRInstrV::Retv, seq![cb], "", t);
                    lemma_keeps_move(c, st_add_succs(e7, seq![cb]), eb);
                }
            }

        },
        _ => {},
    }
}

proof fn lemma_if_keeps(
    c: Cg,
    s: TirStmtV,
    vs: Seq<(SymbolV, IRValue)>,
    rty: IRType,
    loops: Seq<(Label<IRInstr>, Label<IRInstr>)>,
)
    requires
        c.cursor.1 < c.blocks.len(),
        c.blocks.len() + stmt_size(s) <= usize::MAX,
        s is If,
    ensures
        emit_stmt(c, s, vs, rty, loops) matches Ok(c2) ==> keeps_blocks(c, c2) && c2.blocks.len() <= c.blocks.len()
            + stmt_size(s),
    decreases s, 0nat,
{
    let t = IRType::Ptr;
    lemma_keeps_steps(c, c, IRInstrV::Retv, seq![c.cursor], "", t);
    match s {
        TirStmtV::If { cond, then_, else_ } => {
            let (c1, tb) = st_new_block(c, "then");
            lemma_keeps_steps(c, c, IRInstrV::Retv, seq![tb], "then", t);
            let (c2, eb) = st_new_block(c1, "else");
            lemma_keeps_steps(c, c1, IRInstrV::Retv, seq![tb], "else", t);
            let (c3, jb) = st_new_block(c2, "endif");
            lemma_keeps_steps(c, c2, IRInstrV::Retv, seq![tb], "endif", t);
            lemma_expr_keeps(c3, cond, vs);
            if let Ok((c4, cv)) = emit_expr(c3, cond, vs) {
                lemma_keeps_trans(c, c3, c4);
                lemma_keeps_steps(c, c4, IRInstrV::Br(cv, tb, eb), seq![tb, eb], "", t);
                let e4 = st_emit(c4, IRInstrV::Br(cv, tb, eb));
                lemma_keeps_steps(c, e4, IRInstrV::Retv, seq![tb, eb], "", t);
                let a4 = st_add_succs(e4, seq![tb, eb]);
                lemma_keeps_move(c, a4, tb);
                let c5 = st_set_cursor(a4, tb);
                lemma_stmt_keeps(c5, *then_, vs, rty, loops);
                if let Ok(c6) = emit_stmt(c5, *then_, vs, rty, loops) {
                    lemma_keeps_trans(c, c5, c6);
                    lemma_keeps_steps(c, c6, IRInstrV::Retv, seq![jb], "", t);
                    let j6 = st_join(c6, jb);
                    lemma_keeps_move(c, j6, eb);
                    let c6b = st_set_cursor(j6, eb);
                    lemma_stmt_keeps(c6b, *else_, vs, rty, loops);
                    if let Ok(c7) = emit_stmt(c6b, *else_, vs, rty, loops) {
                        lemma_keeps_trans(c, c6b, c7);
                        lemma_keeps_steps(c, c7, IRInstrV::Retv, seq![jb], "", t);
                        lemma_keeps_move(c, st_join(c7, jb), jb);
                    }
                }
            }

        },
        _ => {},
    }
}

/// Lowering a statement keeps the blocks outside the insert block.
proof fn lemma_stmt_keeps(
    c: Cg,
    s: TirStmtV,
    vs: Seq<(SymbolV, IRValue)>,
    rty: IRType,
    loops: Seq<(Label<IRInstr>, Label<IRInstr>)>,
)
    requires
        c.cursor.1 < c.blocks.len(),
        c.blocks.len() + stmt_size(s) <= usize::MAX,
    ensures
        emit_stmt(c, s, vs, rty, loops) matches Ok(c2) ==> keeps_blocks(c, c2) && c2.blocks.len() <= c.blocks.len()
            + stmt_size(s),
    decreases s, 1nat,
{
    let t = IRType::Ptr;
    lemma_keeps_steps(c, c, IRInstrV::Retv, seq![c.cursor], "", t);
    match s {
        TirStmtV::While { .. } => {
            lemma_while_keeps(c, s, vs, rty, loops);
        },
        TirStmtV::If { .. } => {
            lemma_if_keeps(c, s, vs, rty, loops);
        },
        TirStmtV::Continue => {
            if loops.len() > 0 {
                lemma_keeps_steps(c, c, IRInstrV::Jmp(loops.last().0), seq![c.cursor], "", t);
            }
        },
        TirStmtV::Break => {
            if loops.len() > 0 {
                lemma_keeps_steps(c, c, IRInstrV::Jmp(loops.last().1), seq![c.cursor], "", t);
            }
        },
        TirStmtV::Return(Some(e)) => {
            lemma_expr_keeps(c, e, vs);
            if let Ok((c1, v)) = emit_expr(c, e, vs) {
                lemma_keeps_steps(c, c1, IRInstrV::Ret(rty, v), seq![c.cursor], "", t);
            }
        },
        TirStmtV::Return(None) => {
            lemma_keeps_steps(c, c, IRInstrV::Retv, seq![c.cursor], "", t);
        },
        TirStmtV::Block(ss) => {
            lemma_stmts_keeps(c, ss, vs, rty, loops);
        },
        TirStmtV::Expr(e) => {
            lemma_expr_keeps(c, e, vs);
        },
    }
}

proof fn lemma_stmts_keeps(
    c: Cg,
    ss: Seq<TirStmtV>,
    vs: Seq<(SymbolV, IRValue)>,
    rty: IRType,
    loops: Seq<(Label<IRInstr>, Label<IRInstr>)>,
)
    requires
        c.cursor.1 < c.blocks.len(),
        c.blocks.len() + stmts_size(ss) <= usize::MAX,
    ensures
        emit_stmts(c, ss, vs, rty, loops) matches Ok(c2) ==> keeps_blocks(c, c2) && c2.blocks.len() <= c.blocks.len()
            + stmts_size(ss),
    decreases ss, 2nat,
{
    lemma_keeps_steps(c, c, IRInstrV::Retv, seq![c.cursor], "", IRType::Ptr);
    if ss.len() > 0 {
        lemma_stmts_keeps(c, ss.subrange(0, ss.len() - 1), vs, rty, loops);
        if let Ok(c1) = emit_stmts(c, ss.subrange(0, ss.len() - 1), vs, rty, loops) {
            lemma_stmt_keeps(c1, ss[ss.len() - 1], vs, rty, loops);
            if let Ok(c2) = emit_stmt(c1, ss[ss.len() - 1], vs, rty, loops) {
                lemma_keeps_trans(c, c1, c2);
            }
        }
    }
}

/// How a `while` loop is lowered: three blocks are added after the existing ones, for the
/// condition, the body and what follows the loop. The block being filled ends with a jump to
/// the condition block; the condition block ends with a branch that goes to the body block when
/// the condition holds and to the block after the loop when it does not; lowering goes on in the
/// block after the loop. A `break` as the body jumps to the block after the loop, a `continue`
/// to the condition block.
#[verifier::rlimit(50)]
pub proof fn law_while_lowering(
    c: Cg,
    cond: TirExprV,
    body: TirStmtV,
    vs: Seq<(SymbolV, IRValue)>,
    rty: IRType,
    loops: Seq<(Label<IRInstr>, Label<IRInstr>)>,
)
    requires
        c.cursor.1 < c.blocks.len(),
        !closed_m(c.blocks[c.cursor.1 as int]),
        c.blocks.len() + stmt_size((TirStmtV::While { cond, body: Box::new(body) })) <= usize::MAX,
    ensures
        (emit_stmt(c, (TirStmtV::While { cond, body: Box::new(body) }), vs, rty, loops) matches Ok(c2) ==> {
            let n = c.blocks.len() as int;
            let (k0, br) = (c.cursor.1 as int, c2.blocks[n].instrs.last());
            &&& c2.blocks.len() >= n + 3
            &&& c2.cursor == c2.blocks[n + 2].label
            &&& c2.blocks[k0].instrs.last() == IRInstrV::Jmp(c2.blocks[n].label)
            &&& br matches IRInstrV::Br(_, yes, no) && yes == c2.blocks[n + 1].label && no == c2.blocks[n + 2].label
            &&& body == TirStmtV::Break ==> c2.blocks[n + 1].instrs == seq![IRInstrV::Jmp(c2.blocks[n + 2].label)]
            &&& body == TirStmtV::Continue ==> c2.blocks[n + 1].instrs == seq![IRInstrV::Jmp(c2.blocks[n].label)]
        }),
{
    let s = TirStmtV::While { cond, body: Box::new(body) };
    let t = IRType::Ptr;
    let n = c.blocks.len() as int;
    let k0 = c.cursor.1 as int;
    lemma_keeps_steps(c, c, IRInstrV::Retv, seq![c.cursor], "", t);
    let (c1, cb) = st_new_block(c, "loopcond");
    let (c2, bb) = st_new_block(c1, "loopbody");
    let (c3, eb) = st_new_block(c2, "loopend");
    assert(c3.blocks[k0] == c.blocks[k0]);
    let e3 = st_emit(c3, IRInstrV::Jmp(cb));
    lemma_keeps_steps(c, c, IRInstrV::Retv, seq![cb], "loopcond", t);
    lemma_keeps_steps(c, c1, IRInstrV::Retv, seq![cb], "loopbody", t);
    lemma_keeps_steps(c, c2, IRInstrV::Retv, seq![cb], "loopend", t);
    lemma_keeps_steps(c, c3, IRInstrV::Jmp(cb), seq![cb], "", t);
    lemma_keeps_steps(c, e3, IRInstrV::Retv, seq![cb], "", t);
    let a3 = st_add_succs(e3, seq![cb]);
    assert(a3.blocks[k0].instrs.last() == IRInstrV::Jmp(cb));
    assert(a3.blocks[n].instrs.len() == 0 && a3.blocks[n + 1].instrs.len() == 0);
    let c4 = st_set_cursor(a3, cb);
    lemma_expr_keeps(c4, cond, vs);
    if let Ok((c5, cv)) = emit_expr(c4, cond, vs) {
        assert(c5.blocks[k0].instrs == c4.blocks[k0].instrs);
        assert(c5.blocks[n + 1].instrs == c4.blocks[n + 1].instrs);
        assert(!closed_m(c5.blocks[n]));
        let e5 = st_emit(c5, IRInstrV::Br(cv, bb, eb));
        lemma_keeps_steps(c5, c5, IRInstrV::Br(cv, bb, eb), seq![bb, eb], "", t);
        lemma_keeps_steps(c5, e5, IRInstrV::Retv, seq![bb, eb], "", t);
        let a5 = st_add_succs(e5, seq![bb, eb]);
        assert(a5.blocks[n].instrs.last() == IRInstrV::Br(cv, bb, eb));
        assert(a5.blocks[k0].instrs.last() == IRInstrV::Jmp(cb));
        assert(a5.blocks[n + 1].instrs.len() == 0);
        let c6 = st_set_cursor(a5, bb);
        assert(c6.blocks[n].label == cb && c6.blocks[n + 1].label == bb && c6.blocks[n + 2].label == eb);
        lemma_stmt_keeps(c6, body, vs, rty, loops.push((cb, eb)));
        if let Ok(c7) = emit_stmt(c6, body, vs, rty, loops.push((cb, eb))) {
            assert(c7.blocks[n].instrs == c6.blocks[n].instrs);
            assert(c7.blocks[k0].instrs == c6.blocks[k0].instrs);
            let e7 = st_emit(c7, IRInstrV::Jmp(cb));
            lemma_keeps_steps(c7, c7, IRInstrV::Jmp(cb), seq![cb], "", t);
            lemma_keeps_steps(c7, e7, IRInstrV::Retv, seq![cb], "", t);
            let fin = st_set_cursor(st_add_succs(e7, seq![cb]), eb);
            assert(fin.blocks[n].instrs == c7.blocks[n].instrs);
            assert(fin.blocks[k0].instrs == c7.blocks[k0].instrs);
            assert(fin.blocks[n].label == cb && fin.blocks[n + 1].label == bb && fin.blocks[n + 2].label == eb);
            if body == TirStmtV::Break || body == TirStmtV::Continue {
                assert(c7.blocks[n + 1].instrs.len() == 1);
                assert(closed_m(c7.blocks[n + 1]));
                assert(fin.blocks[n + 1].instrs == c7.blocks[n + 1].instrs);
            }
        }
    }
}

/// How `if` is lowered: three blocks are added after the existing ones, for the `then` branch,
/// the `else` branch and what follows. The block being filled ends with a branch that goes to
/// the `then` block when the condition holds and to the `else` block when it does not; lowering
/// goes on in the block after both. A branch that does nothing just jumps to that block.
#[verifier::rlimit(50)]
pub proof fn law_if_lowering(
    c: Cg,
    cond: TirExprV,
    then_: TirStmtV,
    else_: TirStmtV,
    vs: Seq<(SymbolV, IRValue)>,
    rty: IRType,
    loops: Seq<(Label<IRInstr>, Label<IRInstr>)>,
)
    requires
        c.cursor.1 < c.blocks.len(),
        !closed_m(c.blocks[c.cursor.1 as int]),
        c.blocks.len() + stmt_size((TirStmtV::If { cond, then_: Box::new(then_), else_: Box::new(else_) })) <= usize::MAX,
    ensures
        (emit_stmt(c, (TirStmtV::If { cond, then_: Box::new(then_), else_: Box::new(else_) }), vs, rty, loops) matches Ok(c2) ==> {
            let n = c.blocks.len() as int;
            let br = c2.blocks[c.cursor.1 as int].instrs.last();
            &&& c2.blocks.len() >= n + 3
            &&& c2.cursor == c2.blocks[n + 2].label
            &&& br matches IRInstrV::Br(_, yes, no) && yes == c2.blocks[n].label && no == c2.blocks[n + 1].label
            &&& then_ == TirStmtV::Block(Seq::empty()) ==> c2.blocks[n].instrs == seq![IRInstrV::Jmp(c2.blocks[n + 2].label)]
            &&& else_ == TirStmtV::Block(Seq::empty()) ==> c2.blocks[n + 1].instrs == seq![IRInstrV::Jmp(c2.blocks[n + 2].label)]
        }),
{
    let t = IRType::Ptr;
    let n = c.blocks.len() as int;
    let k0 = c.cursor.1 as int;
    lemma_keeps_steps(c, c, IRInstrV::Retv, seq![c.cursor], "", t);
    let (c1, tb) = st_new_block(c, "then");
    let (c2, eb) = st_new_block(c1, "else");
    let (c3, jb) = st_new_block(c2, "endif");
    lemma_keeps_steps(c, c, IRInstrV::Retv, seq![tb], "then", t);
    lemma_keeps_steps(c, c1, IRInstrV::Retv, seq![tb], "else", t);
    lemma_keeps_steps(c, c2, IRInstrV::Retv, seq![tb], "endif", t);
    assert(c3.blocks[k0] == c.blocks[k0]);
    lemma_expr_keeps(c3, cond, vs);
    if let Ok((c4, cv)) = emit_expr(c3, cond, vs) {
        assert(!closed_m(c4.blocks[k0]));
        assert(c4.blocks[n].instrs.len() == 0 && c4.blocks[n + 1].instrs.len() == 0);
        let e4 = st_emit(c4, IRInstrV::Br(cv, tb, eb));
        lemma_keeps_steps(c4, c4, IRInstrV::Br(cv, tb, eb), seq![tb, eb], "", t);
        lemma_keeps_steps(c4, e4, IRInstrV::Retv, seq![tb, eb], "", t);
        let a4 = st_add_succs(e4, seq![tb, eb]);
        assert(a4.blocks[k0].instrs.last() == IRInstrV::Br(cv, tb, eb));
        let c5 = st_set_cursor(a4, tb);
        assert(c5.blocks[n].label == tb && c5.blocks[n + 1].label == eb && c5.blocks[n + 2].label == jb);
        lemma_stmt_keeps(c5, then_, vs, rty, loops);
        if let Ok(c6) = emit_stmt(c5, then_, vs, rty, loops) {
            assert(c6.blocks[k0].instrs == c5.blocks[k0].instrs);
            assert(c6.blocks[n + 1].instrs == c5.blocks[n + 1].instrs);
            lemma_keeps_steps(c6, c6, IRInstrV::Retv, seq![jb], "", t);
            let j6 = st_join(c6, jb);
            if then_ == TirStmtV::Block(Seq::empty()) {
                assert(emit_stmts(c5, Seq::<TirStmtV>::empty(), vs, rty, loops) == Ok::<Cg, CompileError>(c5));
                assert(c6 == c5);
                assert(j6.blocks[n].instrs == seq![IRInstrV::Jmp(jb)]);
            }
            let c6b = st_set_cursor(j6, eb);
            lemma_stmt_keeps(c6b, else_, vs, rty, loops);
            if let Ok(c7) = emit_stmt(c6b, else_, vs, rty, loops) {
                assert(c7.blocks[k0].instrs == c6b.blocks[k0].instrs);
                assert(c7.blocks[n].instrs == c6b.blocks[n].instrs);
                lemma_keeps_steps(c7, c7, IRInstrV::Retv, seq![jb], "", t);
                let fin = st_set_cursor(st_join(c7, jb), jb);
                assert(fin.blocks[k0].instrs == c7.blocks[k0].instrs);
                assert(fin.blocks[n].instrs == c7.blocks[n].instrs);
                assert(fin.blocks[n].label == tb && fin.blocks[n + 1].label == eb && fin.blocks[n + 2].label == jb);
                if else_ == TirStmtV::Block(Seq::empty()) {
                    assert(emit_stmts(c6b, Seq::<TirStmtV>::empty(), vs, rty, loops) == Ok::<Cg, CompileError>(c6b));
                    assert(c7 == c6b);
                }
            }
        }
    }
}

/// The view of a list of statements, element by element.
proof fn lemma_tstmts_v(s: Seq<TirStmt>)
    ensures
        tstmts_v(s).len() == s.len(),
        forall|i: int| 0 <= i < s.len() ==> #[trigger] tstmts_v(s)[i] == tstmt_v(s[i]),
    decreases s.len(),
{
    if s.len() > 0 {
        lemma_tstmts_v(s.subrange(0, s.len() - 1));
        assert forall|i: int| 0 <= i < s.len() implies #[trigger] tstmts_v(s)[i] == tstmt_v(s[i]) by {
            if i < s.len() - 1 {
                assert(s.subrange(0, s.len() - 1)[i] == s[i]);
            }
        }
    }
}

proof fn lemma_stmts_size_prefix(ss: Seq<TirStmtV>, k: int)
    requires
        0 <= k <= ss.len(),
    ensures
        stmts_size(ss.subrange(0, k)) <= stmts_size(ss),
    decreases ss.len(),
{
    if k < ss.len() {
        let pre = ss.subrange(0, ss.len() - 1);
        assert(pre.subrange(0, k) =~= ss.subrange(0, k));
        lemma_stmts_size_prefix(pre, k);
    } else {
        assert(ss.subrange(0, k) =~= ss);
    }
}

proof fn lemma_stmts_err(
    c: Cg,
    ss: Seq<TirStmtV>,
    vs: Seq<(SymbolV, IRValue)>,
    rty: IRType,
    loops: Seq<(Label<IRInstr>, Label<IRInstr>)>,
    k: int,
    x: CompileError,
)
    requires
        0 <= k <= ss.len(),
        emit_stmts(c, ss.subrange(0, k), vs, rty, loops) == Err::<Cg, CompileError>(x),
    ensures
        emit_stmts(c, ss, vs, rty, loops) == Err::<Cg, CompileError>(x),
    decreases ss.len() - k,
{
    if k == ss.len() {
        assert(ss.subrange(0, k) =~= ss);
    } else {
        let next = ss.subrange(0, k + 1);
        assert(next.subrange(0, k) =~= ss.subrange(0, k));
        assert(emit_stmts(c, next, vs, rty, loops) == Err::<Cg, CompileError>(x));
        lemma_stmts_err(c, ss, vs, rty, loops, k + 1, x);
    }
}

/// Ends the insert point's block with a jump to `to` unless it is terminated (see `st_join`).
fn cg_join<V, T>(f: &mut FunctionBuilder<IRInstr, V, T>, to: Label<IRInstr>)
    requires
        old(f).wf(),
        valid_label(old(f).blocks_v(), to),
    ensures
        final(f).args_v() == old(f).args_v(),
        final(f).wf(),
        cg_of(*final(f)) == st_join(cg_of(*old(f)), to),
        final(f).entry_v() == old(f).entry_v(),
        final(f).blocks_v().len() == old(f).blocks_v().len(),
        keeps_labels(old(f).blocks_v(), final(f).blocks_v()),
{
    proof {
        f.lemma_wf_labels();
        lemma_closed_m(f.blocks_v()[f.cursor_v().1 as int]);
        assert(cg_of(*f).blocks[f.cursor_v().1 as int] == block_m(f.blocks_v()[f.cursor_v().1 as int]));
    }
    if !f.isCurrentTerminated() {
        cg_emit(f, IRInstr::Jmp(to));
        let v = vec![to];
        proof {
            assert(v@ =~= seq![to]);
        }
        cg_add_succs(f, v.as_slice());
    }
}

/// The condition and end blocks of the enclosing loops name blocks.
pub open spec fn loops_valid(bs: Seq<BasicBlock<IRInstr>>, loops: Seq<(Label<IRInstr>, Label<IRInstr>)>) -> bool {
    forall|i: int| 0 <= i < loops.len() ==> valid_label(bs, #[trigger] loops[i].0) && valid_label(bs, loops[i].1)
}

/// Adds a new block named `name` and returns its label, which names it.
fn cg_block<V, T>(f: &mut FunctionBuilder<IRInstr, V, T>, name: &'static str) -> (r: Label<IRInstr>)
    requires
        old(f).wf(),
        old(f).blocks_v().len() < usize::MAX,
    ensures
        final(f).args_v() == old(f).args_v(),
        final(f).wf(),
        (cg_of(*final(f)), r) == st_new_block(cg_of(*old(f)), name),
        final(f).entry_v() == old(f).entry_v(),
        final(f).blocks_v().len() == old(f).blocks_v().len() + 1,
        keeps_labels(old(f).blocks_v(), final(f).blocks_v()),
        valid_label(final(f).blocks_v(), r),
{
    let r = cg_new_block(f, name);
    proof {
        lemma_valid_m(*f, r);
    }
    r
}

/// Lowers statement `s` at the insert point (see `emit_stmt`): `vs` gives the storage of each
/// symbol, `rty` the return type and `loops` the condition and end blocks of the enclosing
/// loops, which it leaves as they were.
pub fn codegen_stmt<V, T>(
    s: &TirStmt,
    f: &mut FunctionBuilder<IRInstr, V, T>,
    vs: &Vec<(Symbol, IRValue)>,
    rty: IRType,
    loops: &mut Vec<(Label<IRInstr>, Label<IRInstr>)>,
) -> (r: Result<(), CompileError>)
    requires
        old(f).wf(),
        old(f).reg_count_v() + stmt_size(s@) <= usize::MAX,
        old(f).blocks_v().len() + stmt_size(s@) < usize::MAX,
        loops_valid(old(f).blocks_v(), old(loops)@),
    ensures
        final(f).wf(),
        final(f).entry_v() == old(f).entry_v(),
        final(loops)@ == old(loops)@,
        final(f).args_v() == old(f).args_v(),
        keeps_labels(old(f).blocks_v(), final(f).blocks_v()),
        final(f).reg_count_v() <= old(f).reg_count_v() + stmt_size(s@),
        final(f).blocks_v().len() <= old(f).blocks_v().len() + stmt_size(s@),
        match emit_stmt(cg_of(*old(f)), s@, vals_v(vs@), rty, old(loops)@) {
            Ok(c) => r is Ok && cg_of(*final(f)) == c,
            Err(x) => r == Err::<(), CompileError>(x),
        },
    decreases s, 1nat,
{
    match s {
        TirStmt::While { .. } => codegen_while(s, f, vs, rty, loops),
        TirStmt::If { .. } => codegen_if(s, f, vs, rty, loops),
        TirStmt::Block(..) => codegen_block(s, f, vs, rty, loops),
        TirStmt::Continue => {
            if loops.len() == 0 {
                return Err(CompileError::JumpOutsideLoop);
            }
            let target = loops[loops.len() - 1].0;
            cg_emit(f, IRInstr::Jmp(target));
            Ok(())
        },
        TirStmt::Break => {
            if loops.len() == 0 {
                return Err(CompileError::JumpOutsideLoop);
            }
            let target = loops[loops.len() - 1].1;
            cg_emit(f, IRInstr::Jmp(target));
            Ok(())
        },
        TirStmt::Return(Some(e)) => {
            let v = match codegen_expr(e, f, vs) {
                Ok(v) => v,
                Err(x) => {
                    return Err(x);
                },
            };
            cg_emit(f, IRInstr::Ret(rty, v));
            Ok(())
        },
        TirStmt::Return(None) => {
            cg_emit(f, IRInstr::Retv);
            Ok(())
        },
        TirStmt::Expr(e) => match codegen_expr(e, f, vs) {
            Ok(_) => Ok(()),
            Err(x) => Err(x),
        },
    }
}

/// A loop: a condition, a body and an end block; the current block and the body jump to the
/// condition, which branches to the body or the end.
#[verifier::spinoff_prover]
#[verifier::rlimit(40)]
fn codegen_while<V, T>(
    s: &TirStmt,
    f: &mut FunctionBuilder<IRInstr, V, T>,
    vs: &Vec<(Symbol, IRValue)>,
    rty: IRType,
    loops: &mut Vec<(Label<IRInstr>, Label<IRInstr>)>,
) -> (r: Result<(), CompileError>)
    requires
        old(f).wf(),
        old(f).reg_count_v() + stmt_size(s@) <= usize::MAX,
        old(f).blocks_v().len() + stmt_size(s@) < usize::MAX,
        loops_valid(old(f).blocks_v(), old(loops)@),
        s is While,
    ensures
        final(f).wf(),
        final(f).entry_v() == old(f).entry_v(),
        final(loops)@ == old(loops)@,
        final(f).args_v() == old(f).args_v(),
        keeps_labels(old(f).blocks_v(), final(f).blocks_v()),
        final(f).reg_count_v() <= old(f).reg_count_v() + stmt_size(s@),
        final(f).blocks_v().len() <= old(f).blocks_v().len() + stmt_size(s@),
        match emit_stmt(cg_of(*old(f)), s@, vals_v(vs@), rty, old(loops)@) {
            Ok(c) => r is Ok && cg_of(*final(f)) == c,
            Err(x) => r == Err::<(), CompileError>(x),
        },
    decreases s, 0nat,
{
    match s {
        TirStmt::While { cond, body } => {
            let cb = cg_block(f, "loopcond");
            let bb = cg_block(f, "loopbody");
            let eb = cg_block(f, "loopend");
            cg_emit(f, IRInstr::Jmp(cb));
            let v1 = vec![cb];
            proof {
                assert(v1@ =~= seq![cb]);
            }
            cg_add_succs(f, v1.as_slice());
            cg_set_cursor(f, cb);
            let cv = match codegen_expr(cond, f, vs) {
                Ok(v) => v,
                Err(x) => {
                    return Err(x);
                },
            };
            cg_emit(f, IRInstr::Br(cv, bb, eb));
            let v2 = vec![bb, eb];
            proof {
                assert(v2@ =~= seq![bb, eb]);
            }
            cg_add_succs(f, v2.as_slice());
            cg_set_cursor(f, bb);
            loops.push((cb, eb));
            let r = codegen_stmt(body, f, vs, rty, loops);
            loops.pop();
            proof {
                assert(loops@ =~= old(loops)@);
            }
            match r {
                Ok(()) => {},
                Err(x) => {
                    return Err(x);
                },
            }
            cg_emit(f, IRInstr::Jmp(cb));
            let v3 = vec![cb];
            proof {
                assert(v3@ =~= seq![cb]);
            }
            cg_add_succs(f, v3.as_slice());
            cg_set_cursor(f, eb);
            Ok(())
        },
        _ => Err(CompileError::NotLowered),
    }
}

/// A conditional: then, else and join blocks; each branch jumps to the join block unless it
/// ends with a terminator.
#[verifier::spinoff_prover]
#[verifier::rlimit(40)]
fn codegen_if<V, T>(
    s: &TirStmt,
    f: &mut FunctionBuilder<IRInstr, V, T>,
    vs: &Vec<(Symbol, IRValue)>,
    rty: IRType,
    loops: &mut Vec<(Label<IRInstr>, Label<IRInstr>)>,
) -> (r: Result<(), CompileError>)
    requires
        old(f).wf(),
        old(f).reg_count_v() + stmt_size(s@) <= usize::MAX,
        old(f).blocks_v().len() + stmt_size(s@) < usize::MAX,
        loops_valid(old(f).blocks_v(), old(loops)@),
        s is If,
    ensures
        final(f).wf(),
        final(f).entry_v() == old(f).entry_v(),
        final(loops)@ == old(loops)@,
        final(f).args_v() == old(f).args_v(),
        keeps_labels(old(f).blocks_v(), final(f).blocks_v()),
        final(f).reg_count_v() <= old(f).reg_count_v() + stmt_size(s@),
        final(f).blocks_v().len() <= old(f).blocks_v().len() + stmt_size(s@),
        match emit_stmt(cg_of(*old(f)), s@, vals_v(vs@), rty, old(loops)@) {
            Ok(c) => r is Ok && cg_of(*final(f)) == c,
            Err(x) => r == Err::<(), CompileError>(x),
        },
    decreases s, 0nat,
{
    match s {
        TirStmt::If { cond, then_, else_ } => {
            let tb = cg_block(f, "then");
            let eb = cg_block(f, "else");
            let jb = cg_block(f, "endif");
            let cv = match codegen_expr(cond, f, vs) {
                Ok(v) => v,
                Err(x) => {
                    return Err(x);
                },
            };
            cg_emit(f, IRInstr::Br(cv, tb, eb));
            let v2 = vec![tb, eb];
            proof {
                assert(v2@ =~= seq![tb, eb]);
            }
            cg_add_succs(f, v2.as_slice());
            cg_set_cursor(f, tb);
            match codegen_stmt(then_, f, vs, rty, loops) {
                Ok(()) => {},
                Err(x) => {
                    return Err(x);
                },
            }
            cg_join(f, jb);
            cg_set_cursor(f, eb);
            match codegen_stmt(else_, f, vs, rty, loops) {
                Ok(()) => {},
                Err(x) => {
                    return Err(x);
                },
            }
            cg_join(f, jb);
            cg_set_cursor(f, jb);
            Ok(())
        },
        _ => Err(CompileError::NotLowered),
    }
}

/// A block: its statements in order.
fn codegen_block<V, T>(
    s: &TirStmt,
    f: &mut FunctionBuilder<IRInstr, V, T>,
    vs: &Vec<(Symbol, IRValue)>,
    rty: IRType,
    loops: &mut Vec<(Label<IRInstr>, Label<IRInstr>)>,
) -> (r: Result<(), CompileError>)
    requires
        old(f).wf(),
        old(f).reg_count_v() + stmt_size(s@) <= usize::MAX,
        old(f).blocks_v().len() + stmt_size(s@) < usize::MAX,
        loops_valid(old(f).blocks_v(), old(loops)@),
        s is Block,
    ensures
        final(f).wf(),
        final(f).entry_v() == old(f).entry_v(),
        final(loops)@ == old(loops)@,
        final(f).args_v() == old(f).args_v(),
        keeps_labels(old(f).blocks_v(), final(f).blocks_v()),
        final(f).reg_count_v() <= old(f).reg_count_v() + stmt_size(s@),
        final(f).blocks_v().len() <= old(f).blocks_v().len() + stmt_size(s@),
        match emit_stmt(cg_of(*old(f)), s@, vals_v(vs@), rty, old(loops)@) {
            Ok(c) => r is Ok && cg_of(*final(f)) == c,
            Err(x) => r == Err::<(), CompileError>(x),
        },
    decreases s, 0nat,
{
    match s {
        TirStmt::Block(stmts) => {
            let ghost c0 = cg_of(*f);
            let ghost all = tstmts_v(stmts@);
            proof {
                lemma_tstmts_v(stmts@);
                assert(all.subrange(0, 0) =~= Seq::<TirStmtV>::empty());
                assert(s@ == TirStmtV::Block(all));
                assert forall|j: int| 0 <= j < stmts@.len() implies decreases_to!(*s => stmts@[j]) by {
                    assert(decreases_to!(*s => *stmts));
                    assert(decreases_to!(*stmts => stmts@));
                    assert(decreases_to!(stmts@ => stmts@[j]));
                }
            }
            let mut i: usize = 0;
            while i < stmts.len()
                invariant
                    f.wf(),
                    f.entry_v() == old(f).entry_v(),
                    loops@ == old(loops)@,
                    f.args_v() == old(f).args_v(),
                    keeps_labels(old(f).blocks_v(), f.blocks_v()),
                    loops_valid(old(f).blocks_v(), old(loops)@),
                    i <= stmts@.len(),
                    all == tstmts_v(stmts@),
                    all.len() == stmts@.len(),
                    forall|j: int| 0 <= j < stmts@.len() ==> #[trigger] all[j] == tstmt_v(stmts@[j]),
                    s@ == TirStmtV::Block(all),
                    stmt_size(s@) == stmts_size(all),
                    c0 == cg_of(*old(f)),
                    old(f).reg_count_v() + stmts_size(all) <= usize::MAX,
                    old(f).blocks_v().len() + stmts_size(all) < usize::MAX,
                    f.reg_count_v() <= old(f).reg_count_v() + stmts_size(all.subrange(0, i as int)),
                    f.blocks_v().len() <= old(f).blocks_v().len() + stmts_size(all.subrange(0, i as int)),
                    emit_stmts(c0, all.subrange(0, i as int), vals_v(vs@), rty, old(loops)@) == Ok::<Cg, CompileError>(cg_of(*f)),
                    forall|j: int| 0 <= j < stmts@.len() ==> decreases_to!(*s => stmts@[j]),
                decreases stmts@.len() - i,
            {
                proof {
                    lemma_stmts_size_prefix(all, i + 1);
                    assert(all.subrange(0, i + 1).subrange(0, i as int) =~= all.subrange(0, i as int));
                    assert(all.subrange(0, i + 1)[i as int] == all[i as int]);
                    assert(decreases_to!(*s => stmts@[i as int]));
                }
                let ghost ci = cg_of(*f);
                match codegen_stmt(&stmts[i], f, vs, rty, loops) {
                    Ok(()) => {},
                    Err(x) => {
                        proof {
                            assert(emit_stmts(c0, all.subrange(0, i + 1), vals_v(vs@), rty, old(loops)@) == Err::<Cg, CompileError>(x));
                            lemma_stmts_err(c0, all, vals_v(vs@), rty, old(loops)@, i + 1, x);
                        }
                        return Err(x);
                    },
                }
                i += 1;
            }
            proof {
                assert(all.subrange(0, stmts@.len() as int) =~= all);
            }
            Ok(())
        },
        _ => Err(CompileError::NotLowered),
    }
}

/// A parameter's storage: a struct is passed as a pointer and used in place; any other value
/// arrives in a register and is stored in a slot allocated for it. Gives the model, the value
/// holding the parameter's storage and the argument the function takes.
pub open spec fn emit_arg(c: Cg, ty: QualTypeV) -> (Cg, IRValue, (IRValue, IRType)) {
    if ty is Struct {
        let (c1, a) = st_new_reg(c, IRType::Ptr);
        (c1, a, (a, IRType::Ptr))
    } else {
        let irty = ir_type_v(ty);
        let (c1, a) = st_new_reg(c, irty);
        let (c2, d) = st_new_reg(c1, IRType::Ptr);
        let c3 = st_emit(st_emit(c2, IRInstrV::Alloca(irty, d)), IRInstrV::Store(irty, d, a));
        (c3, d, (a, irty))
    }
}

/// A parameter that is no struct gets a slot: a new register holds the incoming argument, and
/// the insert block gains the allocation of the slot followed by the store of the argument into
/// it; the slot is the parameter's storage.
pub proof fn law_param_storage(c: Cg, ty: QualTypeV)
    requires
        !(ty is Struct),
        c.cursor.1 < c.blocks.len(),
        !closed_m(c.blocks[c.cursor.1 as int]),
        c.reg + 2 <= usize::MAX,
    ensures
        ({
            let (c3, d, arg) = emit_arg(c, ty);
            let k = c.cursor.1 as int;
            &&& arg.1 == ir_type_v(ty) && arg.0 != d
            &&& c3.blocks[k].instrs.len() == c.blocks[k].instrs.len() + 2
            &&& c3.blocks[k].instrs.subrange(0, c.blocks[k].instrs.len() as int) == c.blocks[k].instrs
            &&& c3.blocks[k].instrs[c.blocks[k].instrs.len() as int] is Alloca
            &&& defs_seq(c3.blocks[k].instrs[c.blocks[k].instrs.len() as int]) == seq![d]
            &&& c3.blocks[k].instrs.last() is Store && uses_seq(c3.blocks[k].instrs.last()) == seq![d, arg.0]
        }),
{
    let k = c.cursor.1 as int;
    let irty = ir_type_v(ty);
    let (c1, a) = st_new_reg(c, irty);
    let (c2, d) = st_new_reg(c1, IRType::Ptr);
    let e1 = st_emit(c2, IRInstrV::Alloca(irty, d));
    let c3 = st_emit(e1, IRInstrV::Store(irty, d, a));
    assert(c3.blocks[k].instrs == c.blocks[k].instrs.push(IRInstrV::Alloca(irty, d)).push(IRInstrV::Store(irty, d, a)));
    assert(c3.blocks[k].instrs.subrange(0, c.blocks[k].instrs.len() as int) =~= c.blocks[k].instrs);
}

/// The storage of the parameters among `es` (symbol, whether it is a parameter, type), in
/// order: the model, the storage of each and the arguments the function takes.
pub open spec fn emit_args_storage(c: Cg, es: Seq<(SymbolV, bool, QualTypeV)>) -> (Cg, Seq<(SymbolV, IRValue)>, Seq<(IRValue, IRType)>)
    decreases es.len(),
{
    if es.len() == 0 {
        (c, Seq::empty(), Seq::empty())
    } else {
        let (c1, vs, args) = emit_args_storage(c, es.drop_last());
        let e = es.last();
        if e.1 {
            let (c2, v, a) = emit_arg(c1, e.2);
            (c2, vs.push((e.0, v)), args.push(a))
        } else {
            (c1, vs, args)
        }
    }
}

/// The storage of the locals among `es`, in order: an allocated slot each; a struct local is
/// not lowered.
pub open spec fn emit_locals_storage(c: Cg, es: Seq<(SymbolV, bool, QualTypeV)>) -> Result<(Cg, Seq<(SymbolV, IRValue)>), CompileError>
    decreases es.len(),
{
    if es.len() == 0 {
        Ok((c, Seq::empty()))
    } else {
        match emit_locals_storage(c, es.drop_last()) {
            Err(x) => Err(x),
            Ok((c1, vs)) => {
                let e = es.last();
                if e.1 {
                    Ok((c1, vs))
                } else if e.2 is Struct {
                    Err(CompileError::NotLowered)
                } else {
                    let (c2, d) = st_new_reg(c1, IRType::Ptr);
                    Ok((st_emit(c2, IRInstrV::Alloca(ir_type_v(e.2), d)), vs.push((e.0, d))))
                }
            },
        }
    }
}

/// The storage of a function's parameters, then of its locals (see `emit_args_storage` and
/// `emit_locals_storage`).
pub open spec fn emit_locals(c: Cg, es: Seq<(SymbolV, bool, QualTypeV)>) -> Result<(Cg, Seq<(SymbolV, IRValue)>, Seq<(IRValue, IRType)>), CompileError> {
    let (c1, avs, args) = emit_args_storage(c, es);
    match emit_locals_storage(c1, es) {
        Err(x) => Err(x),
        Ok((c2, lvs)) => Ok((c2, avs + lvs, args)),
    }
}

/// The views of the entries that `codegen_locals` takes.
pub open spec fn entries_v(es: Seq<(Symbol, bool, std::rc::Rc<QualType>)>) -> Seq<(SymbolV, bool, QualTypeV)> {
    es.map_values(|e: (Symbol, bool, std::rc::Rc<QualType>)| (e.0@, e.1, (*e.2)@))
}

/// Allocates the storage of a function's parameters, then of its locals (see `emit_locals`),
/// adds its arguments, and returns the storage of each symbol.
pub fn codegen_locals(
    es: &Vec<(Symbol, bool, std::rc::Rc<QualType>)>,
    f: &mut FunctionBuilder<IRInstr, IRValue, IRType>,
) -> (r: Result<Vec<(Symbol, IRValue)>, CompileError>)
    requires
        old(f).wf(),
        old(f).reg_count_v() + 3 * es@.len() <= usize::MAX,
    ensures
        final(f).wf(),
        final(f).entry_v() == old(f).entry_v(),
        final(f).blocks_v().len() == old(f).blocks_v().len(),
        keeps_labels(old(f).blocks_v(), final(f).blocks_v()),
        final(f).reg_count_v() <= old(f).reg_count_v() + 3 * es@.len(),
        match emit_locals(cg_of(*old(f)), entries_v(es@)) {
            Ok((c, vs, args)) => r matches Ok(v) && vals_v(v@) == vs && cg_of(*final(f)) == c
                && final(f).args_v() == old(f).args_v() + args,
            Err(x) => r == Err::<Vec<(Symbol, IRValue)>, CompileError>(x),
        },
{
    let ghost ev = entries_v(es@);
    let ghost c0 = cg_of(*f);
    let mut out: Vec<(Symbol, IRValue)> = Vec::new();
    let mut i: usize = 0;
    proof {
        assert(ev.subrange(0, 0) =~= Seq::<(SymbolV, bool, QualTypeV)>::empty());
        assert(vals_v(out@) =~= Seq::<(SymbolV, IRValue)>::empty());
        assert(old(f).args_v() + Seq::<(IRValue, IRType)>::empty() =~= old(f).args_v());
    }
    while i < es.len()
        invariant
            f.wf(),
            f.entry_v() == old(f).entry_v(),
            f.blocks_v().len() == old(f).blocks_v().len(),
            keeps_labels(old(f).blocks_v(), f.blocks_v()),
            i <= es@.len(),
            ev == entries_v(es@),
            c0 == cg_of(*old(f)),
            old(f).reg_count_v() + 3 * es@.len() <= usize::MAX,
            f.reg_count_v() <= old(f).reg_count_v() + 2 * i,
            ({
                let (c, vs, args) = emit_args_storage(c0, ev.subrange(0, i as int));
                cg_of(*f) == c && vals_v(out@) == vs && f.args_v() == old(f).args_v() + args
            }),
        decreases es@.len() - i,
    {
        let ghost pre = ev.subrange(0, i as int);
        proof {
            assert(ev.subrange(0, i + 1).drop_last() =~= pre);
            assert(ev.subrange(0, i + 1).last() == (es@[i as int].0@, es@[i as int].1, (*es@[i as int].2)@));
        }
        let ghost args_pre = emit_args_storage(c0, pre).2;
        if es[i].1 {
            let ghost args0 = f.args_v();
            let ty = &es[i].2;
            let v = if matches!(&**ty, QualType::Struct { .. }) {
                let a = cg_new_reg(f, IRType::Ptr);
                f.addArg(a, IRType::Ptr);
                a
            } else {
                let irty = ty.toIRType();
                let a = cg_new_reg(f, irty);
                let d = cg_new_reg(f, IRType::Ptr);
                cg_emit(f, IRInstr::Alloca(irty, d));
                f.addArg(a, irty);
                cg_emit(f, IRInstr::Store(irty, d, a));
                d
            };
            let ghost before = out@;
            out.push((es[i].0.duplicate(), v));
            proof {
                assert(vals_v(out@) =~= vals_v(before).push((es@[i as int].0@, v)));
                assert(f.args_v() == args0.push(f.args_v().last()));
                assert(old(f).args_v() + args_pre.push(f.args_v().last()) =~= (old(f).args_v() + args_pre).push(f.args_v().last()));
            }
        }
        i += 1;
    }
    proof {
        assert(ev.subrange(0, es@.len() as int) =~= ev);
    }
    let ghost c1 = cg_of(*f);
    let ghost avs = vals_v(out@);
    let ghost lstart = out@.len();
    let mut k: usize = 0;
    proof {
        assert(avs + Seq::<(SymbolV, IRValue)>::empty() =~= avs);
    }
    while k < es.len()
        invariant
            f.wf(),
            f.entry_v() == old(f).entry_v(),
            f.blocks_v().len() == old(f).blocks_v().len(),
            keeps_labels(old(f).blocks_v(), f.blocks_v()),
            k <= es@.len(),
            ev == entries_v(es@),
            old(f).reg_count_v() + 3 * es@.len() <= usize::MAX,
            f.reg_count_v() <= old(f).reg_count_v() + 2 * es@.len() + k,
            f.args_v() == old(f).args_v() + emit_args_storage(c0, ev).2,
            c0 == cg_of(*old(f)),
            c1 == emit_args_storage(c0, ev).0,
            avs == emit_args_storage(c0, ev).1,
            emit_locals_storage(c1, ev.subrange(0, k as int)) matches Ok((c, vs)) && cg_of(*f) == c && vals_v(out@) == avs + vs,
        decreases es@.len() - k,
    {
        let ghost pre = ev.subrange(0, k as int);
        proof {
            assert(ev.subrange(0, k + 1).drop_last() =~= pre);
            assert(ev.subrange(0, k + 1).last() == (es@[k as int].0@, es@[k as int].1, (*es@[k as int].2)@));
        }
        if !es[k].1 {
            let ty = &es[k].2;
            if matches!(&**ty, QualType::Struct { .. }) {
                proof {
                    assert(emit_locals_storage(c1, ev.subrange(0, k + 1)) == Err::<(Cg, Seq<(SymbolV, IRValue)>), CompileError>(CompileError::NotLowered));
                    lemma_locals_err(c1, ev, k + 1);
                    assert(emit_locals(c0, ev) == Err::<(Cg, Seq<(SymbolV, IRValue)>, Seq<(IRValue, IRType)>), CompileError>(CompileError::NotLowered));
                }
                return Err(CompileError::NotLowered);
            }
            let d = cg_new_reg(f, IRType::Ptr);
            cg_emit(f, IRInstr::Alloca(ty.toIRType(), d));
            let ghost before = out@;
            out.push((es[k].0.duplicate(), d));
            proof {
                assert(vals_v(out@) =~= vals_v(before).push((es@[k as int].0@, d)));
                let vs_pre = emit_locals_storage(c1, pre)->Ok_0.1;
                assert(avs + vs_pre.push((es@[k as int].0@, d)) =~= (avs + vs_pre).push((es@[k as int].0@, d)));
            }
        }
        k += 1;
    }
    proof {
        assert(ev.subrange(0, es@.len() as int) =~= ev);
        let (cc, vs) = emit_locals_storage(c1, ev)->Ok_0;
        assert(emit_locals(c0, ev) == Ok::<(Cg, Seq<(SymbolV, IRValue)>, Seq<(IRValue, IRType)>), CompileError>((cc, avs + vs, emit_args_storage(c0, ev).2)));
    }
    Ok(out)
}

proof fn lemma_locals_err(c: Cg, es: Seq<(SymbolV, bool, QualTypeV)>, k: int)
    requires
        0 <= k <= es.len(),
        emit_locals_storage(c, es.subrange(0, k)) is Err,
    ensures
        emit_locals_storage(c, es) == emit_locals_storage(c, es.subrange(0, k)),
    decreases es.len() - k,
{
    if k == es.len() {
        assert(es.subrange(0, k) =~= es);
    } else {
        let next = es.subrange(0, k + 1);
        assert(next.drop_last() =~= es.subrange(0, k));
        lemma_locals_err(c, es, k + 1);
    }
}

/// The values that the table records for its symbols, in order (the module symbols of the
/// functions).
pub open spec fn table_vals(t: Seq<(Symbol, SymbolInfo)>) -> Seq<(SymbolV, IRValue)>
    decreases t.len(),
{
    if t.len() == 0 {
        Seq::empty()
    } else {
        let r = table_vals(t.drop_last());
        match t.last().1.value {
            Some(v) => r.push((t.last().0@, v)),
            None => r,
        }
    }
}

/// The values that the table records for its symbols (see `table_vals`).
fn collect_table_vals(t: &Vec<(Symbol, SymbolInfo)>) -> (r: Vec<(Symbol, IRValue)>)
    ensures
        vals_v(r@) == table_vals(t@),
{
    let mut out: Vec<(Symbol, IRValue)> = Vec::new();
    let mut i: usize = 0;
    proof {
        assert(t@.subrange(0, 0) =~= Seq::<(Symbol, SymbolInfo)>::empty());
        assert(vals_v(out@) =~= Seq::<(SymbolV, IRValue)>::empty());
    }
    while i < t.len()
        invariant
            i <= t@.len(),
            vals_v(out@) == table_vals(t@.subrange(0, i as int)),
        decreases t@.len() - i,
    {
        proof {
            assert(t@.subrange(0, i + 1).drop_last() =~= t@.subrange(0, i as int));
        }
        match t[i].1.value {
            Some(v) => {
                let ghost before = out@;
                out.push((t[i].0.duplicate(), v));
                proof {
                    assert(vals_v(out@) =~= vals_v(before).push((t@[i as int].0@, v)));
                }
            },
            None => {},
        }
        i += 1;
    }
    proof {
        assert(t@.subrange(0, t@.len() as int) =~= t@);
    }
    out
}

/// The entries (symbol, whether it is a parameter, type) of a function's parameters and
/// locals, as the table records them.
pub open spec fn fn_entries(syms: Seq<SymbolV>, table: Map<SymbolV, SymbolInfoV>) -> Seq<(SymbolV, bool, QualTypeV)> {
    syms.map_values(|s: SymbolV| (s, table[s].kind is Arg, table[s].ty))
}

/// The model of a new function: one empty block, `entrypoint`, which is the insert point.
pub open spec fn start_cg() -> Cg {
    let l = Label::<IRInstr>("entrypoint", 0, PhantomData);
    Cg {
        blocks: seq![BlockM { label: l, instrs: Seq::empty(), succs: Set::empty(), preds: Set::empty(), fall: None }],
        cursor: l,
        reg: 0,
    }
}

/// Lowering a function: the storage of its parameters and locals, then its body, with the
/// storage `tvals` of the other symbols. Gives the model and the arguments, before the check
/// that every path returns.
pub open spec fn emit_function(
    entries: Seq<(SymbolV, bool, QualTypeV)>,
    tvals: Seq<(SymbolV, IRValue)>,
    body: Option<TirStmtV>,
    ret: QualTypeV,
) -> Result<(Cg, Seq<(IRValue, IRType)>), CompileError> {
    match emit_locals(start_cg(), entries) {
        Err(x) => Err(x),
        Ok((c1, vs, args)) => match body {
            None => Err(CompileError::NotLowered),
            Some(b) => match emit_stmt(c1, b, vs + tvals, ir_type_v(ret), Seq::empty()) {
                Err(x) => Err(x),
                Ok(c2) => Ok((c2, args)),
            },
        },
    }
}

/// Lowers a checked function (see `emit_function`), then checks that every block reachable
/// from the entry ends with a terminator: a function returning nothing gets `Retv` where one
/// is missing; for any other, a missing one is `MissingReturn`.
pub fn codegen_function(tf: &TirFunction, ctx: &CompilerContext) -> (r: Result<FunctionBuilder<IRInstr, IRValue, IRType>, CompileError>)
    requires
        forall|j: int| 0 <= j < tf@.local_symbols.len() ==> ctx.tc().table.contains_key(#[trigger] tf@.local_symbols[j]),
        3 * tf@.local_symbols.len() + 1 < usize::MAX,
        tf@.body matches Some(b) ==> 3 * tf@.local_symbols.len() + stmt_size(b) + 1 < usize::MAX,
    ensures
        match emit_function(fn_entries(tf@.local_symbols, ctx.tc().table), table_vals(ctx.symbol_table@), tf@.body, tf@.return_type) {
            Err(x) => r == Err::<FunctionBuilder<IRInstr, IRValue, IRType>, CompileError>(x),
            Ok((c, args)) => exists|fb0: FunctionBuilder<IRInstr, IRValue, IRType>|
                #[trigger] cg_of(fb0) == c && fb0.wf() && fb0.args_v() == args && fb0.entry_v() == start_cg().cursor
                    && if tf@.return_type is Void {
                    r matches Ok(fb) && crate::function::filled_with_default(fb0.blocks_v(), fb.blocks_v(), 0, IRInstr::Retv)
                } else {
                    &&& (r is Ok <==> crate::function::all_reachable_terminated(fb0.blocks_v(), 0))
                    &&& (r matches Ok(fb) ==> fb.blocks_v() == fb0.blocks_v())
                    &&& (r is Err ==> r == Err::<FunctionBuilder<IRInstr, IRValue, IRType>, CompileError>(
                        CompileError::MissingReturn { at: tf.name.span },
                    ))
                },
        },
{
    let ret = tf.return_type.toIRType();
    let mut f: FunctionBuilder<IRInstr, IRValue, IRType> = FunctionBuilder::new((*tf.name.inner).clone(), ret);
    proof {
        let o = cg_of(f);
        let b = f.blocks_v()[0];
        assert(b.instructions@.map_values(|i: IRInstr| i@) =~= Seq::<IRInstrV>::empty());
        assert(succ_set(b) =~= Set::<Label<IRInstr>>::empty());
        assert(pred_set(b) =~= Set::<Label<IRInstr>>::empty());
        assert(o.blocks =~= start_cg().blocks);
    }
    let ghost syms = tf@.local_symbols;
    let mut es: Vec<(Symbol, bool, std::rc::Rc<QualType>)> = Vec::new();
    let mut i: usize = 0;
    while i < tf.local_symbols.len()
        invariant
            i <= tf.local_symbols@.len(),
            syms == tf@.local_symbols,
            syms.len() == tf.local_symbols@.len(),
            forall|j: int| 0 <= j < syms.len() ==> ctx.tc().table.contains_key(#[trigger] syms[j]),
            entries_v(es@) == fn_entries(syms.subrange(0, i as int), ctx.tc().table),
        decreases tf.local_symbols@.len() - i,
    {
        proof {
            assert(syms[i as int] == tf.local_symbols@[i as int]@);
        }
        let sym = &tf.local_symbols[i];
        let info = ctx.lookup_symbol(sym);
        let is_arg = matches!(info.kind, SymbolKind::Arg(..));
        let ghost before = es@;
        let d = sym.duplicate();
        let t = crate::interner::rc_share(&info.ty);
        proof {
            assert(info@ == ctx.tc().table[syms[i as int]]);
            assert(is_arg == (info@.kind is Arg));
            assert((*t)@ == info@.ty);
        }
        es.push((d, is_arg, t));
        proof {
            assert(entries_v(es@) == entries_v(before).push((syms[i as int], is_arg, (*t)@)));
            assert(entries_v(es@) =~= fn_entries(syms.subrange(0, i + 1), ctx.tc().table));
        }
        i += 1;
    }
    proof {
        assert(syms.subrange(0, syms.len() as int) =~= syms);
        assert(entries_v(es@).len() == es@.len());
    }
    let slots = match codegen_locals(&es, &mut f) {
        Ok(v) => v,
        Err(x) => {
            return Err(x);
        },
    };
    let body = match &tf.body {
        Some(b) => b,
        None => {
            return Err(CompileError::NotLowered);
        },
    };
    let tvals = collect_table_vals(&ctx.symbol_table);
    let mut vs = slots;
    let mut tv = tvals;
    let ghost slots_v = vals_v(vs@);
    vs.append(&mut tv);
    proof {
        assert(vals_v(vs@) =~= slots_v + table_vals(ctx.symbol_table@));
    }
    let mut loops: Vec<(Label<IRInstr>, Label<IRInstr>)> = Vec::new();
    proof {
        assert(loops@ =~= Seq::<(Label<IRInstr>, Label<IRInstr>)>::empty());
    }
    match codegen_stmt(body, &mut f, &vs, ret, &mut loops) {
        Ok(()) => {},
        Err(x) => {
            return Err(x);
        },
    }
    let ghost fb0 = f;
    proof {
        assert(f.args_v() =~= Seq::<(IRValue, IRType)>::empty() + emit_locals(start_cg(), fn_entries(tf@.local_symbols, ctx.tc().table))->Ok_0.2);
        f.lemma_wf_labels();
    }
    let is_void = matches!(&*tf.return_type, QualType::Void);
    if is_void {
        f.verify(Some(IRInstr::Retv));
        Ok(f)
    } else if f.verify(None) {
        Ok(f)
    } else {
        Err(CompileError::MissingReturn { at: tf.name.span })
    }
}

} // verus!
