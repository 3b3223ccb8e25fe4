//! Plain value types of the program model: types, opcodes and operands.

use vstd::prelude::*;

verus! {

/// Element type of a vector.
#[derive(Clone, Copy, PartialEq, Eq, Debug, Structural)]
pub enum Lane {
    Pointer,
    Int(u32),
    Float(u32),
}

/// A fixed-width vector type: its element type, the size of one element in
/// bytes, and the number of elements.
#[derive(Clone, Copy, PartialEq, Eq, Debug, Structural)]
pub struct VecTy {
    pub lane: Lane,
    pub lane_bytes: u64,
    pub lanes: u32,
}

/// Type of a value. Integer and floating-point types carry their bit width.
#[derive(Clone, Copy, PartialEq, Eq, Debug, Structural)]
pub enum Ty {
    Void,
    Pointer,
    Int(u32),
    Float(u32),
    Vector(VecTy),
    Aggregate,
}

/// Basic value category: a type without its width or shape.
#[derive(Clone, Copy, PartialEq, Eq, Debug, Structural)]
pub enum Category {
    Void,
    Pointer,
    Int,
    Float,
    Vector,
    Aggregate,
}

/// Instruction opcodes that the passes tell apart.
#[derive(Clone, Copy, PartialEq, Eq, Debug, Structural)]
pub enum Opcode {
    Load,
    Store,
    Alloca,
    Call,
    BitCast,
    Other,
}

/// A value that an instruction can use.
#[derive(Clone, Copy, PartialEq, Eq, Debug, Structural)]
pub enum Value {
    /// The result of the instruction in the given arena slot.
    Inst(usize),
    /// An entry of the module's constant table.
    Const(usize),
    /// An integer literal.
    Int { bits: u32, value: u64 },
    /// A direct reference to a function of the module.
    Func(usize),
    /// A function parameter, or any other value that is neither a constant
    /// nor produced by an instruction.
    Param { index: usize, ty: Ty },
}

/// An operand: a value, or a reference to a basic block.
#[derive(Clone, Copy, PartialEq, Eq, Debug, Structural)]
pub enum Operand {
    Value(Value),
    Block(usize),
}

impl Ty {
    /// The basic value category of this type.
    pub open spec fn category(self) -> Category {
        match self {
            Ty::Void => Category::Void,
            Ty::Pointer => Category::Pointer,
            Ty::Int(_) => Category::Int,
            Ty::Float(_) => Category::Float,
            Ty::Vector(_) => Category::Vector,
            Ty::Aggregate => Category::Aggregate,
        }
    }

    /// Computes [`Ty::category`].
    pub fn get_category(self) -> (c: Category)
        ensures
            c == self.category(),
    {
        match self {
            Ty::Void => Category::Void,
            Ty::Pointer => Category::Pointer,
            Ty::Int(_) => Category::Int,
            Ty::Float(_) => Category::Float,
            Ty::Vector(_) => Category::Vector,
            Ty::Aggregate => Category::Aggregate,
        }
    }
}

impl Opcode {
    /// Load, Store and Alloca are the direct memory operations.
    pub open spec fn is_memory_op(self) -> bool {
        self == Opcode::Load || self == Opcode::Store || self == Opcode::Alloca
    }
}

/// Operand that names the result of instruction `id`.
pub open spec fn inst_operand(id: usize) -> Operand {
    Operand::Value(Value::Inst(id))
}

/// A 64-bit integer literal operand.
pub open spec fn int64_operand(value: u64) -> Operand {
    Operand::Value(Value::Int { bits: 64, value })
}

/// Operand that names function `f` directly.
pub open spec fn func_operand(f: usize) -> Operand {
    Operand::Value(Value::Func(f))
}

} // verus!
