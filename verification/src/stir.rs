//! The STIR instruction set: the instructions that code generation emits into a function's
//! basic blocks.
use crate::basicblock::InstructionTrait;
use crate::interner::rc_share;
use crate::ir_types::{IRType, IRValue};
use crate::label::Label;
use crate::ops::BinOp;
use std::rc::Rc;
use vstd::prelude::*;

verus! {

/// The comparison that an `Icmp` makes: equality, or an order that is signed or unsigned.
#[derive(Debug, Clone, Copy, PartialEq, Eq, Structural)]
pub enum CmpOp {
    Eq,
    Ne,
    Slt,
    Sle,
    Sgt,
    Sge,
    Ult,
    Ule,
    Ugt,
    Uge,
}

/// An instruction. Arithmetic takes the type, the destination and the operands; `Getaddr`
/// takes the destination, the base pointer, the element type and the index; the conversions
/// take the target type, the destination, the source type and the operand; a call takes the
/// result type, the destination, the callee and the arguments.
#[derive(Debug)]
pub enum IRInstr {
    Alloca(IRType, IRValue),
    Store(IRType, IRValue, IRValue),
    Load(IRType, IRValue, IRValue),
    Copy(IRType, IRValue, IRValue),
    Add(IRType, IRValue, IRValue, IRValue),
    Sub(IRType, IRValue, IRValue, IRValue),
    Smul(IRType, IRValue, IRValue, IRValue),
    Umul(IRType, IRValue, IRValue, IRValue),
    Sdiv(IRType, IRValue, IRValue, IRValue),
    Udiv(IRType, IRValue, IRValue, IRValue),
    Icmp(CmpOp, IRType, IRValue, IRValue, IRValue),
    Getaddr(IRValue, IRValue, IRType, IRValue),
    Trunc(IRType, IRValue, IRType, IRValue),
    Sext(IRType, IRValue, IRType, IRValue),
    Zext(IRType, IRValue, IRType, IRValue),
    Call(IRType, IRValue, IRValue, Rc<Vec<IRValue>>),
    Jmp(Label<IRInstr>),
    Br(IRValue, Label<IRInstr>, Label<IRInstr>),
    Ret(IRType, IRValue),
    Retv,
}

/// The value of an instruction: a call's arguments as a sequence.
pub enum IRInstrV {
    Alloca(IRType, IRValue),
    Store(IRType, IRValue, IRValue),
    Load(IRType, IRValue, IRValue),
    Copy(IRType, IRValue, IRValue),
    Add(IRType, IRValue, IRValue, IRValue),
    Sub(IRType, IRValue, IRValue, IRValue),
    Smul(IRType, IRValue, IRValue, IRValue),
    Umul(IRType, IRValue, IRValue, IRValue),
    Sdiv(IRType, IRValue, IRValue, IRValue),
    Udiv(IRType, IRValue, IRValue, IRValue),
    Icmp(CmpOp, IRType, IRValue, IRValue, IRValue),
    Getaddr(IRValue, IRValue, IRType, IRValue),
    Trunc(IRType, IRValue, IRType, IRValue),
    Sext(IRType, IRValue, IRType, IRValue),
    Zext(IRType, IRValue, IRType, IRValue),
    Call(IRType, IRValue, IRValue, Seq<IRValue>),
    Jmp(Label<IRInstr>),
    Br(IRValue, Label<IRInstr>, Label<IRInstr>),
    Ret(IRType, IRValue),
    Retv,
}

impl View for IRInstr {
    type V = IRInstrV;

    open spec fn view(&self) -> IRInstrV {
        match *self {
            IRInstr::Alloca(t, d) => IRInstrV::Alloca(t, d),
            IRInstr::Store(t, p, v) => IRInstrV::Store(t, p, v),
            IRInstr::Load(t, p, d) => IRInstrV::Load(t, p, d),
            IRInstr::Copy(t, d, a) => IRInstrV::Copy(t, d, a),
            IRInstr::Add(t, d, a, b) => IRInstrV::Add(t, d, a, b),
            IRInstr::Sub(t, d, a, b) => IRInstrV::Sub(t, d, a, b),
            IRInstr::Smul(t, d, a, b) => IRInstrV::Smul(t, d, a, b),
            IRInstr::Umul(t, d, a, b) => IRInstrV::Umul(t, d, a, b),
            IRInstr::Sdiv(t, d, a, b) => IRInstrV::Sdiv(t, d, a, b),
            IRInstr::Udiv(t, d, a, b) => IRInstrV::Udiv(t, d, a, b),
            IRInstr::Icmp(c, t, d, a, b) => IRInstrV::Icmp(c, t, d, a, b),
            IRInstr::Getaddr(d, b, t, i) => IRInstrV::Getaddr(d, b, t, i),
            IRInstr::Trunc(t, d, f, a) => IRInstrV::Trunc(t, d, f, a),
            IRInstr::Sext(t, d, f, a) => IRInstrV::Sext(t, d, f, a),
            IRInstr::Zext(t, d, f, a) => IRInstrV::Zext(t, d, f, a),
            IRInstr::Call(t, d, c, args) => IRInstrV::Call(t, d, c, (*args)@),
            IRInstr::Jmp(l) => IRInstrV::Jmp(l),
            IRInstr::Br(c, a, b) => IRInstrV::Br(c, a, b),
            IRInstr::Ret(t, v) => IRInstrV::Ret(t, v),
            IRInstr::Retv => IRInstrV::Retv,
        }
    }
}

/// The values an instruction defines: its destination.
pub open spec fn defs_seq(i: IRInstrV) -> Seq<IRValue> {
    match i {
        IRInstrV::Alloca(_, d) | IRInstrV::Load(_, _, d) | IRInstrV::Copy(_, d, _) => seq![d],
        IRInstrV::Add(_, d, _, _) | IRInstrV::Sub(_, d, _, _) | IRInstrV::Smul(_, d, _, _)
        | IRInstrV::Umul(_, d, _, _) | IRInstrV::Sdiv(_, d, _, _) | IRInstrV::Udiv(_, d, _, _) => seq![d],
        IRInstrV::Icmp(_, _, d, _, _) | IRInstrV::Getaddr(d, _, _, _) => seq![d],
        IRInstrV::Trunc(_, d, _, _) | IRInstrV::Sext(_, d, _, _) | IRInstrV::Zext(_, d, _, _) => seq![d],
        IRInstrV::Call(_, d, _, _) => seq![d],
        _ => Seq::empty(),
    }
}

/// The values an instruction reads.
pub open spec fn uses_seq(i: IRInstrV) -> Seq<IRValue> {
    match i {
        IRInstrV::Store(_, p, v) => seq![p, v],
        IRInstrV::Load(_, p, _) => seq![p],
        IRInstrV::Copy(_, _, a) => seq![a],
        IRInstrV::Add(_, _, a, b) | IRInstrV::Sub(_, _, a, b) | IRInstrV::Smul(_, _, a, b)
        | IRInstrV::Umul(_, _, a, b) | IRInstrV::Sdiv(_, _, a, b) | IRInstrV::Udiv(_, _, a, b) => seq![a, b],
        IRInstrV::Icmp(_, _, _, a, b) => seq![a, b],
        IRInstrV::Getaddr(_, b, _, i) => seq![b, i],
        IRInstrV::Trunc(_, _, _, a) | IRInstrV::Sext(_, _, _, a) | IRInstrV::Zext(_, _, _, a) => seq![a],
        IRInstrV::Call(_, _, c, args) => seq![c] + args,
        IRInstrV::Br(c, _, _) => seq![c],
        IRInstrV::Ret(_, v) => seq![v],
        _ => Seq::empty(),
    }
}

/// A vector holding `s`.
pub open spec fn vec_of(s: Seq<IRValue>) -> Vec<IRValue> {
    choose|v: Vec<IRValue>| v@ == s
}

proof fn lemma_vec_of(v: Vec<IRValue>, s: Seq<IRValue>)
    requires
        v@ == s,
    ensures
        vec_of(s)@ == s,
{
}

/// The callee followed by the arguments.
fn callee_and_args(c: IRValue, args: &Vec<IRValue>) -> (r: Vec<IRValue>)
    ensures
        r@ == seq![c] + args@,
{
    let mut v: Vec<IRValue> = vec![c];
    let mut i: usize = 0;
    while i < args.len()
        invariant
            i <= args@.len(),
            v@ == seq![c] + args@.subrange(0, i as int),
        decreases args@.len() - i,
    {
        v.push(args[i]);
        proof {
            assert(v@ =~= seq![c] + args@.subrange(0, i + 1));
        }
        i += 1;
    }
    proof {
        assert(args@.subrange(0, args@.len() as int) =~= args@);
    }
    v
}

impl InstructionTrait for IRInstr {
    type Val = IRValue;

    open spec fn is_terminator_v(&self) -> bool {
        self@ is Jmp || self@ is Br || self@ is Ret || self@ is Retv
    }

    open spec fn defs_v(&self) -> Vec<IRValue> {
        vec_of(defs_seq(self@))
    }

    open spec fn uses_v(&self) -> Vec<IRValue> {
        vec_of(uses_seq(self@))
    }

    fn is_terminator(&self) -> (r: bool) {
        matches!(self, IRInstr::Jmp(..) | IRInstr::Br(..) | IRInstr::Ret(..) | IRInstr::Retv)
    }

    fn copy_instr(&self) -> (r: Self) {
        match self {
            IRInstr::Alloca(t, d) => IRInstr::Alloca(*t, *d),
            IRInstr::Store(t, p, v) => IRInstr::Store(*t, *p, *v),
            IRInstr::Load(t, p, d) => IRInstr::Load(*t, *p, *d),
            IRInstr::Copy(t, d, a) => IRInstr::Copy(*t, *d, *a),
            IRInstr::Add(t, d, a, b) => IRInstr::Add(*t, *d, *a, *b),
            IRInstr::Sub(t, d, a, b) => IRInstr::Sub(*t, *d, *a, *b),
            IRInstr::Smul(t, d, a, b) => IRInstr::Smul(*t, *d, *a, *b),
            IRInstr::Umul(t, d, a, b) => IRInstr::Umul(*t, *d, *a, *b),
            IRInstr::Sdiv(t, d, a, b) => IRInstr::Sdiv(*t, *d, *a, *b),
            IRInstr::Udiv(t, d, a, b) => IRInstr::Udiv(*t, *d, *a, *b),
            IRInstr::Icmp(c, t, d, a, b) => IRInstr::Icmp(*c, *t, *d, *a, *b),
            IRInstr::Getaddr(d, b, t, i) => IRInstr::Getaddr(*d, *b, *t, *i),
            IRInstr::Trunc(t, d, f, a) => IRInstr::Trunc(*t, *d, *f, *a),
            IRInstr::Sext(t, d, f, a) => IRInstr::Sext(*t, *d, *f, *a),
            IRInstr::Zext(t, d, f, a) => IRInstr::Zext(*t, *d, *f, *a),
            IRInstr::Call(t, d, c, args) => IRInstr::Call(*t, *d, *c, rc_share(args)),
            IRInstr::Jmp(l) => IRInstr::Jmp(*l),
            IRInstr::Br(c, a, b) => IRInstr::Br(*c, *a, *b),
            IRInstr::Ret(t, v) => IRInstr::Ret(*t, *v),
            IRInstr::Retv => IRInstr::Retv,
        }
    }

    fn defs(&self) -> (r: Vec<IRValue>) {
        let r: Vec<IRValue> = match self {
            IRInstr::Alloca(_, d) | IRInstr::Load(_, _, d) | IRInstr::Copy(_, d, _) => vec![*d],
            IRInstr::Add(_, d, _, _) | IRInstr::Sub(_, d, _, _) | IRInstr::Smul(_, d, _, _)
            | IRInstr::Umul(_, d, _, _) | IRInstr::Sdiv(_, d, _, _) | IRInstr::Udiv(_, d, _, _) => vec![*d],
            IRInstr::Icmp(_, _, d, _, _) | IRInstr::Getaddr(d, _, _, _) => vec![*d],
            IRInstr::Trunc(_, d, _, _) | IRInstr::Sext(_, d, _, _) | IRInstr::Zext(_, d, _, _) => vec![*d],
            IRInstr::Call(_, d, _, _) => vec![*d],
            _ => Vec::new(),
        };
        proof {
            assert(r@ =~= defs_seq(self@));
            lemma_vec_of(r, defs_seq(self@));
        }
        r
    }

    fn uses(&self) -> (r: Vec<IRValue>) {
        let r: Vec<IRValue> = match self {
            IRInstr::Store(_, p, v) => vec![*p, *v],
            IRInstr::Load(_, p, _) => vec![*p],
            IRInstr::Copy(_, _, a) => vec![*a],
            IRInstr::Add(_, _, a, b) | IRInstr::Sub(_, _, a, b) | IRInstr::Smul(_, _, a, b)
            | IRInstr::Umul(_, _, a, b) | IRInstr::Sdiv(_, _, a, b) | IRInstr::Udiv(_, _, a, b) => vec![*a, *b],
            IRInstr::Icmp(_, _, _, a, b) => vec![*a, *b],
            IRInstr::Getaddr(_, b, _, i) => vec![*b, *i],
            IRInstr::Trunc(_, _, _, a) | IRInstr::Sext(_, _, _, a) | IRInstr::Zext(_, _, _, a) => vec![*a],
            IRInstr::Call(_, _, c, args) => callee_and_args(*c, args),
            IRInstr::Br(c, _, _) => vec![*c],
            IRInstr::Ret(_, v) => vec![*v],
            _ => Vec::new(),
        };
        proof {
            assert(r@ =~= uses_seq(self@));
            lemma_vec_of(r, uses_seq(self@));
        }
        r
    }
}

/// The comparison instruction for the comparison operator `op`: equality tests, or the signed
/// or unsigned order.
pub open spec fn compare_instr_v(op: BinOp, signed: bool, ty: IRType, d: IRValue, l: IRValue, r: IRValue) -> IRInstrV {
    let c = match op {
        BinOp::Eq => CmpOp::Eq,
        BinOp::Ne => CmpOp::Ne,
        BinOp::Lt => if signed { CmpOp::Slt } else { CmpOp::Ult },
        BinOp::Le => if signed { CmpOp::Sle } else { CmpOp::Ule },
        BinOp::Gt => if signed { CmpOp::Sgt } else { CmpOp::Ugt },
        _ => if signed { CmpOp::Sge } else { CmpOp::Uge },
    };
    IRInstrV::Icmp(c, ty, d, l, r)
}

/// Builds the comparison instruction of `compare_instr_v`.
pub fn compare_instr(op: BinOp, signed: bool, ty: IRType, d: IRValue, l: IRValue, r: IRValue) -> (i: IRInstr)
    ensures
        i@ == compare_instr_v(op, signed, ty, d, l, r),
{
    let c = match op {
        BinOp::Eq => CmpOp::Eq,
        BinOp::Ne => CmpOp::Ne,
        BinOp::Lt => if signed { CmpOp::Slt } else { CmpOp::Ult },
        BinOp::Le => if signed { CmpOp::Sle } else { CmpOp::Ule },
        BinOp::Gt => if signed { CmpOp::Sgt } else { CmpOp::Ugt },
        _ => if signed { CmpOp::Sge } else { CmpOp::Uge },
    };
    IRInstr::Icmp(c, ty, d, l, r)
}

/// Whether comparison `c` holds between `x` and `y`, as unbounded integers.
pub open spec fn comparison_holds(c: CmpOp, x: int, y: int) -> bool {
    match c {
        CmpOp::Eq => x == y,
        CmpOp::Ne => x != y,
        CmpOp::Slt | CmpOp::Ult => x < y,
        CmpOp::Sle | CmpOp::Ule => x <= y,
        CmpOp::Sgt | CmpOp::Ugt => x > y,
        CmpOp::Sge | CmpOp::Uge => x >= y,
    }
}

/// The value an arithmetic or comparison instruction computes when its operands hold the
/// values `v` gives them, on unbounded integers; a comparison gives 1 or 0. Other
/// instructions compute no such value.
pub open spec fn ir_eval(i: IRInstrV, v: spec_fn(IRValue) -> int) -> Option<int> {
    match i {
        IRInstrV::Add(_, _, a, b) => Some(v(a) + v(b)),
        IRInstrV::Sub(_, _, a, b) => Some(v(a) - v(b)),
        IRInstrV::Smul(_, _, a, b) | IRInstrV::Umul(_, _, a, b) => Some(v(a) * v(b)),
        IRInstrV::Sdiv(_, _, a, b) | IRInstrV::Udiv(_, _, a, b) => Some(v(a) / v(b)),
        IRInstrV::Icmp(c, _, _, a, b) => Some(if comparison_holds(c, v(a), v(b)) { 1 } else { 0 }),
        _ => None,
    }
}

/// Whether an instruction reads its operands as signed or as unsigned numbers: said of
/// multiplication, division and the ordered comparisons, which have a signed and an unsigned
/// form.
pub open spec fn ir_signed(i: IRInstrV) -> Option<bool> {
    match i {
        IRInstrV::Smul(..) | IRInstrV::Sdiv(..) => Some(true),
        IRInstrV::Umul(..) | IRInstrV::Udiv(..) => Some(false),
        IRInstrV::Icmp(c, _, _, _, _) => match c {
            CmpOp::Slt | CmpOp::Sle | CmpOp::Sgt | CmpOp::Sge => Some(true),
            CmpOp::Ult | CmpOp::Ule | CmpOp::Ugt | CmpOp::Uge => Some(false),
            _ => None,
        },
        _ => None,
    }
}

} // verus!
