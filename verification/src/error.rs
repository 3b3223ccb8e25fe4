//! The ways in which a pass gives up.

use vstd::prelude::*;
use crate::names::RuntimeOp;

verus! {

/// Reason for which a pass stops. Every one of them is fatal: the module
/// may have been rewritten in part and must not be used further.
#[derive(Clone, Copy, PartialEq, Eq, Debug, Structural)]
pub enum PassError {
    /// The module does not declare the function of this runtime operation.
    MissingFunction(RuntimeOp),
    /// The instruction moves an integer of a width that no runtime
    /// operation handles.
    UnsupportedWidth { inst: usize, bits: u32 },
    /// The instruction moves a value of a category that no runtime
    /// operation handles.
    UnsupportedCategory { inst: usize },
    /// The instruction lacks an operand that its opcode requires, or has a
    /// block where a value is required.
    MissingOperand { inst: usize },
    /// The address of a Load is not a pointer.
    BadAddress { inst: usize },
    /// The runtime function that replaces the instruction produces a value
    /// that cannot stand in for it.
    UnexpectedReturn { inst: usize },
    /// The arena has no room for the instructions that replace this one.
    ArenaFull { inst: usize },
}

} // verus!
