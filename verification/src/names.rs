//! The fixed names that tie the passes to the runtime library and to the
//! pass pipeline.

use vstd::prelude::*;

verus! {

/// The operations of the runtime memory-access layer.
#[derive(Clone, Copy, PartialEq, Eq, Debug, Structural)]
pub enum RuntimeOp {
    Globalify,
    Deglobalify,
    CheckIfGlobal,
    LoadInt8,
    LoadInt32,
    LoadInt64,
    LoadFloat32,
    LoadPtr,
    LoadVector,
    StoreInt8,
    StoreInt32,
    StoreInt64,
    StoreFloat32,
    StorePtr,
    StoreVector,
}

impl RuntimeOp {
    /// The name under which the module must declare the function that
    /// implements this operation.
    pub open spec fn name(self) -> Seq<char> {
        match self {
            RuntimeOp::Globalify => "globalify"@,
            RuntimeOp::Deglobalify => "deglobalify"@,
            RuntimeOp::CheckIfGlobal => "check_if_global"@,
            RuntimeOp::LoadInt8 => "__pando__replace_load_int8"@,
            RuntimeOp::LoadInt32 => "__pando__replace_load_int32"@,
            RuntimeOp::LoadInt64 => "__pando__replace_load_int64"@,
            RuntimeOp::LoadFloat32 => "__pando__replace_load_float32"@,
            RuntimeOp::LoadPtr => "__pando__replace_load_ptr"@,
            RuntimeOp::LoadVector => "__pando__replace_load_vector"@,
            RuntimeOp::StoreInt8 => "__pando__replace_store_int8"@,
            RuntimeOp::StoreInt32 => "__pando__replace_store_int32"@,
            RuntimeOp::StoreInt64 => "__pando__replace_store_int64"@,
            RuntimeOp::StoreFloat32 => "__pando__replace_store_float32"@,
            RuntimeOp::StorePtr => "__pando__replace_store_ptr"@,
            RuntimeOp::StoreVector => "__pando__replace_store_vector"@,
        }
    }

    /// Returns [`RuntimeOp::name`] as text.
    pub fn symbol(self) -> (s: &'static str)
        ensures
            s@ == self.name(),
    {
        match self {
            RuntimeOp::Globalify => "globalify",
            RuntimeOp::Deglobalify => "deglobalify",
            RuntimeOp::CheckIfGlobal => "check_if_global",
            RuntimeOp::LoadInt8 => "__pando__replace_load_int8",
            RuntimeOp::LoadInt32 => "__pando__replace_load_int32",
            RuntimeOp::LoadInt64 => "__pando__replace_load_int64",
            RuntimeOp::LoadFloat32 => "__pando__replace_load_float32",
            RuntimeOp::LoadPtr => "__pando__replace_load_ptr",
            RuntimeOp::LoadVector => "__pando__replace_load_vector",
            RuntimeOp::StoreInt8 => "__pando__replace_store_int8",
            RuntimeOp::StoreInt32 => "__pando__replace_store_int32",
            RuntimeOp::StoreInt64 => "__pando__replace_store_int64",
            RuntimeOp::StoreFloat32 => "__pando__replace_store_float32",
            RuntimeOp::StorePtr => "__pando__replace_store_ptr",
            RuntimeOp::StoreVector => "__pando__replace_store_vector",
        }
    }
}

/// True when `name` is the name of a runtime operation. The passes never
/// rewrite the body of a function with such a name.
pub open spec fn is_runtime_name(name: Seq<char>) -> bool {
    exists|op: RuntimeOp| name == #[trigger] op.name()
}

/// Name of the entry point that reports a failed assertion. Calls to it keep
/// their operands as they are.
pub open spec fn assert_fail_name() -> Seq<char> {
    "__assert_fail"@
}

/// Text equality.
pub fn same_text(a: &str, b: &str) -> (r: bool)
    ensures
        r == (a@ == b@),
{
    let x = a.to_owned();
    let y = b.to_owned();
    x == y
}

/// Decides whether a function of this name is left out of rewriting.
pub fn is_excluded(name: &str) -> (b: bool)
    ensures
        b == is_runtime_name(name@),
{
    let hit = same_text(name, RuntimeOp::Globalify.symbol())
        || same_text(name, RuntimeOp::Deglobalify.symbol())
        || same_text(name, RuntimeOp::CheckIfGlobal.symbol())
        || same_text(name, RuntimeOp::LoadInt8.symbol())
        || same_text(name, RuntimeOp::LoadInt32.symbol())
        || same_text(name, RuntimeOp::LoadInt64.symbol())
        || same_text(name, RuntimeOp::LoadFloat32.symbol())
        || same_text(name, RuntimeOp::LoadPtr.symbol())
        || same_text(name, RuntimeOp::LoadVector.symbol())
        || same_text(name, RuntimeOp::StoreInt8.symbol())
        || same_text(name, RuntimeOp::StoreInt32.symbol())
        || same_text(name, RuntimeOp::StoreInt64.symbol())
        || same_text(name, RuntimeOp::StoreFloat32.symbol())
        || same_text(name, RuntimeOp::StorePtr.symbol())
        || same_text(name, RuntimeOp::StoreVector.symbol());
    proof {
        if hit {
            assert(is_runtime_name(name@));
        } else {
            assert forall|op: RuntimeOp| name@ != #[trigger] op.name() by {
                match op {
                    RuntimeOp::Globalify => {},
                    RuntimeOp::Deglobalify => {},
                    RuntimeOp::CheckIfGlobal => {},
                    RuntimeOp::LoadInt8 => {},
                    RuntimeOp::LoadInt32 => {},
                    RuntimeOp::LoadInt64 => {},
                    RuntimeOp::LoadFloat32 => {},
                    RuntimeOp::LoadPtr => {},
                    RuntimeOp::LoadVector => {},
                    RuntimeOp::StoreInt8 => {},
                    RuntimeOp::StoreInt32 => {},
                    RuntimeOp::StoreInt64 => {},
                    RuntimeOp::StoreFloat32 => {},
                    RuntimeOp::StorePtr => {},
                    RuntimeOp::StoreVector => {},
                }
            }
        }
    }
    hit
}

/// Decides whether `name` is the assertion-failure entry point.
pub fn is_assert_fail(name: &str) -> (b: bool)
    ensures
        b == (name@ == assert_fail_name()),
{
    same_text(name, "__assert_fail")
}

} // verus!
