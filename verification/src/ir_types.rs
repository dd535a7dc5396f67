//! The value-level vocabulary of the STIR intermediate representation: types, values, symbols.
use vstd::prelude::*;

verus! {

/// Machine-level type of an IR value.
#[derive(Debug, Clone, Copy, PartialEq, Eq, Structural)]
pub enum IRType {
    I1,
    I8,
    I16,
    I32,
    I64,
    Ptr,
    Struct,
}

pub open spec fn ir_type_bits(t: IRType) -> nat {
    match t {
        IRType::I1 => 8,
        IRType::I8 => 8,
        IRType::I16 => 16,
        IRType::I32 => 32,
        IRType::I64 | IRType::Ptr => 64,
        IRType::Struct => 0,
    }
}

impl IRType {
    pub fn is_pointer(&self) -> (r: bool)
        ensures
            r == (*self == IRType::Ptr),
    {
        matches!(self, IRType::Ptr)
    }

    /// Width in bits; flags occupy a whole byte.
    pub fn bits(&self) -> (r: usize)
        requires
            *self != IRType::Struct,
        ensures
            r == ir_type_bits(*self),
    {
        match self {
            IRType::I1 => 8,
            IRType::I8 => 8,
            IRType::I16 => 16,
            IRType::I32 => 32,
            IRType::I64 | IRType::Ptr => 64,
            IRType::Struct => 0,
        }
    }

    pub fn bytes(&self) -> (r: usize)
        requires
            *self != IRType::Struct,
        ensures
            r == ir_type_bits(*self) / 8,
    {
        self.bits() / 8
    }
}

/// A symbol of a module (the name of a function or global).
#[derive(Debug, Clone, Copy)]
pub struct ModuleSymbol(pub &'static str);

/// A virtual register number.
pub type VReg = usize;

/// An operand of an IR instruction.
#[derive(Debug, Clone, Copy)]
pub enum IRValue {
    Reg(VReg, IRType),
    Ptr(VReg, IRType),
    Imm(i128, IRType),
    Sym(ModuleSymbol),
}

impl IRValue {
    pub fn is_mem(&self) -> (r: bool)
        ensures
            r == (*self is Ptr),
    {
        matches!(self, IRValue::Ptr(..))
    }

    pub fn is_reg(&self) -> (r: bool)
        ensures
            r == (*self is Reg),
    {
        matches!(self, IRValue::Reg(..))
    }

    pub fn is_imm(&self) -> (r: bool)
        ensures
            r == (*self is Imm),
    {
        matches!(self, IRValue::Imm(..))
    }
}

} // verus!
