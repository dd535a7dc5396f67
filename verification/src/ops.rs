//! Operators of the source language.
use vstd::prelude::*;

verus! {

#[derive(Debug, Clone, Copy, PartialEq, Eq, Structural)]
pub enum UnOp {
    Not,
    Neg,
}

#[derive(Debug, Clone, Copy, PartialEq, Eq, Structural)]
pub enum BinOp {
    Add,
    Sub,
    Mul,
    Div,
    PtrAdd,
    PtrSub,
    Eq,
    Ne,
    Lt,
    Le,
    Gt,
    Ge,
}

pub open spec fn is_arithmetic_v(op: BinOp) -> bool {
    op == BinOp::Add || op == BinOp::Sub || op == BinOp::Mul || op == BinOp::Div
}

pub open spec fn is_ordered_v(op: BinOp) -> bool {
    op == BinOp::Lt || op == BinOp::Le || op == BinOp::Gt || op == BinOp::Ge
}

impl BinOp {
    /// `+`, `-`, `*` and `/`.
    pub fn is_arithmetic(&self) -> (r: bool)
        ensures
            r == is_arithmetic_v(*self),
    {
        matches!(self, BinOp::Add | BinOp::Sub | BinOp::Mul | BinOp::Div)
    }

    /// The ordering comparisons `<`, `<=`, `>` and `>=`.
    pub fn is_ordered(&self) -> (r: bool)
        ensures
            r == is_ordered_v(*self),
    {
        matches!(self, BinOp::Lt | BinOp::Le | BinOp::Gt | BinOp::Ge)
    }
}

/// What an operator computes on unbounded integers; a comparison gives 1 when it holds and 0
/// when it does not. Pointer arithmetic is not given a value here.
pub open spec fn op_value(op: BinOp, x: int, y: int) -> int {
    match op {
        BinOp::Add => x + y,
        BinOp::Sub => x - y,
        BinOp::Mul => x * y,
        BinOp::Div => x / y,
        BinOp::Eq => if x == y { 1 } else { 0 },
        BinOp::Ne => if x != y { 1 } else { 0 },
        BinOp::Lt => if x < y { 1 } else { 0 },
        BinOp::Le => if x <= y { 1 } else { 0 },
        BinOp::Gt => if x > y { 1 } else { 0 },
        BinOp::Ge => if x >= y { 1 } else { 0 },
        BinOp::PtrAdd | BinOp::PtrSub => 0,
    }
}

/// How an operator is written in source text. Pointer arithmetic has no spelling of its own.
pub open spec fn op_spelling(op: BinOp) -> Seq<char> {
    match op {
        BinOp::Add => seq!['+'],
        BinOp::Sub => seq!['-'],
        BinOp::Mul => seq!['*'],
        BinOp::Div => seq!['/'],
        BinOp::Eq => seq!['=', '='],
        BinOp::Ne => seq!['!', '='],
        BinOp::Lt => seq!['<'],
        BinOp::Le => seq!['<', '='],
        BinOp::Gt => seq!['>'],
        BinOp::Ge => seq!['>', '='],
        BinOp::PtrAdd | BinOp::PtrSub => Seq::empty(),
    }
}

/// How tightly an operator binds, from loosest to tightest: equality, the ordered comparisons,
/// addition and subtraction, multiplication and division.
pub open spec fn op_level(op: BinOp) -> nat {
    match op {
        BinOp::Eq | BinOp::Ne => 0,
        BinOp::Lt | BinOp::Le | BinOp::Gt | BinOp::Ge => 1,
        BinOp::Add | BinOp::Sub | BinOp::PtrAdd | BinOp::PtrSub => 2,
        BinOp::Mul | BinOp::Div => 3,
    }
}

} // verus!
