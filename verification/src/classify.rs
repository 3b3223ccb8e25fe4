//! The instruction classifier: which runtime operation stands in for a
//! memory instruction, by the category and width of the value it moves.

use vstd::prelude::*;
use crate::names::RuntimeOp;
use crate::types::{Opcode, Ty};

verus! {

/// Why a value has no runtime operation.
#[derive(Clone, Copy, PartialEq, Eq, Debug, Structural)]
pub enum Unsupported {
    /// An integer of this bit width.
    Width(u32),
    /// Neither a pointer, nor an integer, a floating-point number or a vector.
    Category,
}

/// The runtime operation that loads a value of type `ty`. Integers are
/// loaded at widths 8, 32 and 64 only; every floating-point type takes the
/// 32-bit operation.
pub open spec fn load_choice(ty: Ty) -> Result<RuntimeOp, Unsupported> {
    match ty {
        Ty::Pointer => Ok(RuntimeOp::LoadPtr),
        Ty::Int(w) => if w == 8 {
            Ok(RuntimeOp::LoadInt8)
        } else if w == 32 {
            Ok(RuntimeOp::LoadInt32)
        } else if w == 64 {
            Ok(RuntimeOp::LoadInt64)
        } else {
            Err(Unsupported::Width(w))
        },
        Ty::Float(_) => Ok(RuntimeOp::LoadFloat32),
        Ty::Vector(_) => Ok(RuntimeOp::LoadVector),
        Ty::Void => Err(Unsupported::Category),
        Ty::Aggregate => Err(Unsupported::Category),
    }
}

/// The runtime operation that stores a value of type `ty`.
pub open spec fn store_choice(ty: Ty) -> Result<RuntimeOp, Unsupported> {
    match ty {
        Ty::Pointer => Ok(RuntimeOp::StorePtr),
        Ty::Int(w) => if w == 8 {
            Ok(RuntimeOp::StoreInt8)
        } else if w == 32 {
            Ok(RuntimeOp::StoreInt32)
        } else if w == 64 {
            Ok(RuntimeOp::StoreInt64)
        } else {
            Err(Unsupported::Width(w))
        },
        Ty::Float(_) => Ok(RuntimeOp::StoreFloat32),
        Ty::Vector(_) => Ok(RuntimeOp::StoreVector),
        Ty::Void => Err(Unsupported::Category),
        Ty::Aggregate => Err(Unsupported::Category),
    }
}

/// The runtime operation that an instruction with opcode `op` needs, where
/// `ty` is the type of the loaded value for a Load and of the stored value
/// for a Store. An Alloca always needs `Globalify`; any other opcode needs
/// none.
pub open spec fn choice(op: Opcode, ty: Ty) -> Result<Option<RuntimeOp>, Unsupported> {
    match op {
        Opcode::Load => match load_choice(ty) {
            Ok(r) => Ok(Some(r)),
            Err(e) => Err(e),
        },
        Opcode::Store => match store_choice(ty) {
            Ok(r) => Ok(Some(r)),
            Err(e) => Err(e),
        },
        Opcode::Alloca => Ok(Some(RuntimeOp::Globalify)),
        _ => Ok(None),
    }
}

/// Selects the runtime operation for a Load of type `ty`.
pub fn classify_load(ty: Ty) -> (r: Result<RuntimeOp, Unsupported>)
    ensures
        r == load_choice(ty),
{
    match ty {
        Ty::Pointer => Ok(RuntimeOp::LoadPtr),
        Ty::Int(w) => {
            if w == 8 {
                Ok(RuntimeOp::LoadInt8)
            } else if w == 32 {
                Ok(RuntimeOp::LoadInt32)
            } else if w == 64 {
                Ok(RuntimeOp::LoadInt64)
            } else {
                Err(Unsupported::Width(w))
            }
        },
        Ty::Float(_) => Ok(RuntimeOp::LoadFloat32),
        Ty::Vector(_) => Ok(RuntimeOp::LoadVector),
        Ty::Void => Err(Unsupported::Category),
        Ty::Aggregate => Err(Unsupported::Category),
    }
}

/// Selects the runtime operation for a Store of a value of type `ty`.
pub fn classify_store(ty: Ty) -> (r: Result<RuntimeOp, Unsupported>)
    ensures
        r == store_choice(ty),
{
    match ty {
        Ty::Pointer => Ok(RuntimeOp::StorePtr),
        Ty::Int(w) => {
            if w == 8 {
                Ok(RuntimeOp::StoreInt8)
            } else if w == 32 {
                Ok(RuntimeOp::StoreInt32)
            } else if w == 64 {
                Ok(RuntimeOp::StoreInt64)
            } else {
                Err(Unsupported::Width(w))
            }
        },
        Ty::Float(_) => Ok(RuntimeOp::StoreFloat32),
        Ty::Vector(_) => Ok(RuntimeOp::StoreVector),
        Ty::Void => Err(Unsupported::Category),
        Ty::Aggregate => Err(Unsupported::Category),
    }
}

/// Selects the runtime operation for an instruction.
pub fn classify(op: Opcode, ty: Ty) -> (r: Result<Option<RuntimeOp>, Unsupported>)
    ensures
        r == choice(op, ty),
{
    match op {
        Opcode::Load => match classify_load(ty) {
            Ok(r) => Ok(Some(r)),
            Err(e) => Err(e),
        },
        Opcode::Store => match classify_store(ty) {
            Ok(r) => Ok(Some(r)),
            Err(e) => Err(e),
        },
        Opcode::Alloca => Ok(Some(RuntimeOp::Globalify)),
        _ => Ok(None),
    }
}

} // verus!
