//! The runtime function table: for each runtime operation, the function of
//! the module that implements it. A pass resolves it once, by name, before
//! it changes anything.

use vstd::prelude::*;
use crate::error::PassError;
use crate::model::{first_named, lemma_first_named, FunctionView, ModuleView};
use crate::module::Module;
use crate::names::RuntimeOp;

verus! {

/// For each runtime operation, the index of its function in the module.
#[derive(Clone, Copy, PartialEq, Eq, Debug, Structural)]
pub struct RuntimeTable {
    pub globalify: usize,
    pub deglobalify: usize,
    pub check_if_global: usize,
    pub load_int8: usize,
    pub load_int32: usize,
    pub load_int64: usize,
    pub load_float32: usize,
    pub load_ptr: usize,
    pub load_vector: usize,
    pub store_int8: usize,
    pub store_int32: usize,
    pub store_int64: usize,
    pub store_float32: usize,
    pub store_ptr: usize,
    pub store_vector: usize,
}

/// The runtime operations in the order in which a pass looks them up.
pub open spec fn lookup_order() -> Seq<RuntimeOp> {
    seq![
        RuntimeOp::Globalify,
        RuntimeOp::LoadInt64,
        RuntimeOp::LoadInt32,
        RuntimeOp::LoadInt8,
        RuntimeOp::LoadFloat32,
        RuntimeOp::LoadPtr,
        RuntimeOp::LoadVector,
        RuntimeOp::StoreInt64,
        RuntimeOp::StoreInt32,
        RuntimeOp::StoreInt8,
        RuntimeOp::StoreFloat32,
        RuntimeOp::StorePtr,
        RuntimeOp::StoreVector,
        RuntimeOp::Deglobalify,
        RuntimeOp::CheckIfGlobal,
    ]
}

impl RuntimeTable {
    /// The function that implements `op`.
    pub open spec fn target(self, op: RuntimeOp) -> usize {
        match op {
            RuntimeOp::Globalify => self.globalify,
            RuntimeOp::Deglobalify => self.deglobalify,
            RuntimeOp::CheckIfGlobal => self.check_if_global,
            RuntimeOp::LoadInt8 => self.load_int8,
            RuntimeOp::LoadInt32 => self.load_int32,
            RuntimeOp::LoadInt64 => self.load_int64,
            RuntimeOp::LoadFloat32 => self.load_float32,
            RuntimeOp::LoadPtr => self.load_ptr,
            RuntimeOp::LoadVector => self.load_vector,
            RuntimeOp::StoreInt8 => self.store_int8,
            RuntimeOp::StoreInt32 => self.store_int32,
            RuntimeOp::StoreInt64 => self.store_int64,
            RuntimeOp::StoreFloat32 => self.store_float32,
            RuntimeOp::StorePtr => self.store_ptr,
            RuntimeOp::StoreVector => self.store_vector,
        }
    }

    /// Every entry is the first function of the module that has the name of
    /// its operation.
    pub open spec fn resolves(self, mv: ModuleView) -> bool {
        forall|op: RuntimeOp| mv.lookup_function(op.name()) == Some(#[trigger] self.target(op))
    }

    /// Every entry is a function of the module.
    pub open spec fn fits(self, mv: ModuleView) -> bool {
        forall|op: RuntimeOp| (#[trigger] self.target(op)) < mv.funcs.len()
    }

    /// Returns [`RuntimeTable::target`].
    pub fn get(&self, op: RuntimeOp) -> (f: usize)
        ensures
            f == self.target(op),
    {
        match op {
            RuntimeOp::Globalify => self.globalify,
            RuntimeOp::Deglobalify => self.deglobalify,
            RuntimeOp::CheckIfGlobal => self.check_if_global,
            RuntimeOp::LoadInt8 => self.load_int8,
            RuntimeOp::LoadInt32 => self.load_int32,
            RuntimeOp::LoadInt64 => self.load_int64,
            RuntimeOp::LoadFloat32 => self.load_float32,
            RuntimeOp::LoadPtr => self.load_ptr,
            RuntimeOp::LoadVector => self.load_vector,
            RuntimeOp::StoreInt8 => self.store_int8,
            RuntimeOp::StoreInt32 => self.store_int32,
            RuntimeOp::StoreInt64 => self.store_int64,
            RuntimeOp::StoreFloat32 => self.store_float32,
            RuntimeOp::StorePtr => self.store_ptr,
            RuntimeOp::StoreVector => self.store_vector,
        }
    }
}

/// The first runtime operation, at or behind place `from` of the lookup
/// order, that none of the functions implements.
pub open spec fn first_missing_from(funcs: Seq<FunctionView>, from: int) -> Option<RuntimeOp>
    decreases lookup_order().len() - from,
{
    if from < 0 || from >= lookup_order().len() {
        None
    } else if first_named(funcs, lookup_order()[from].name(), 0) is None {
        Some(lookup_order()[from])
    } else {
        first_missing_from(funcs, from + 1)
    }
}

/// The first runtime operation in lookup order of which the module declares
/// no function.
pub open spec fn first_missing(mv: ModuleView) -> Option<RuntimeOp> {
    first_missing_from(mv.funcs, 0)
}

/// The table of a module that declares every runtime function.
pub open spec fn table_of(mv: ModuleView) -> RuntimeTable {
    RuntimeTable {
        globalify: mv.lookup_function(RuntimeOp::Globalify.name()).unwrap(),
        deglobalify: mv.lookup_function(RuntimeOp::Deglobalify.name()).unwrap(),
        check_if_global: mv.lookup_function(RuntimeOp::CheckIfGlobal.name()).unwrap(),
        load_int8: mv.lookup_function(RuntimeOp::LoadInt8.name()).unwrap(),
        load_int32: mv.lookup_function(RuntimeOp::LoadInt32.name()).unwrap(),
        load_int64: mv.lookup_function(RuntimeOp::LoadInt64.name()).unwrap(),
        load_float32: mv.lookup_function(RuntimeOp::LoadFloat32.name()).unwrap(),
        load_ptr: mv.lookup_function(RuntimeOp::LoadPtr.name()).unwrap(),
        load_vector: mv.lookup_function(RuntimeOp::LoadVector.name()).unwrap(),
        store_int8: mv.lookup_function(RuntimeOp::StoreInt8.name()).unwrap(),
        store_int32: mv.lookup_function(RuntimeOp::StoreInt32.name()).unwrap(),
        store_int64: mv.lookup_function(RuntimeOp::StoreInt64.name()).unwrap(),
        store_float32: mv.lookup_function(RuntimeOp::StoreFloat32.name()).unwrap(),
        store_ptr: mv.lookup_function(RuntimeOp::StorePtr.name()).unwrap(),
        store_vector: mv.lookup_function(RuntimeOp::StoreVector.name()).unwrap(),
    }
}

/// What resolving the table of a module gives: the table, or the first
/// runtime operation that has no function.
pub open spec fn resolved(mv: ModuleView) -> Result<RuntimeTable, PassError> {
    match first_missing(mv) {
        Some(op) => Err(PassError::MissingFunction(op)),
        None => Ok(table_of(mv)),
    }
}

/// Looks up the function of one runtime operation.
fn need(m: &Module, op: RuntimeOp) -> (r: Result<usize, PassError>)
    ensures
        match r {
            Ok(f) => m@.lookup_function(op.name()) == Some(f),
            Err(e) => e == PassError::MissingFunction(op) && m@.lookup_function(op.name()) is None,
        },
{
    match m.find_function(op.symbol()) {
        Some(f) => Ok(f),
        None => Err(PassError::MissingFunction(op)),
    }
}

/// Resolves the runtime function table of a module by name. Fails with the
/// first runtime operation, in lookup order, that the module does not
/// declare.
pub fn resolve(m: &Module) -> (r: Result<RuntimeTable, PassError>)
    ensures
        r == resolved(m@),
        r is Ok ==> r->Ok_0.resolves(m@) && r->Ok_0.fits(m@),
{
    proof {
        reveal_with_fuel(first_missing_from, 16);
    }
    let count: usize = m.function_count();
    let globalify = need(m, RuntimeOp::Globalify)?;
    let load_int64 = need(m, RuntimeOp::LoadInt64)?;
    let load_int32 = need(m, RuntimeOp::LoadInt32)?;
    let load_int8 = need(m, RuntimeOp::LoadInt8)?;
    let load_float32 = need(m, RuntimeOp::LoadFloat32)?;
    let load_ptr = need(m, RuntimeOp::LoadPtr)?;
    let load_vector = need(m, RuntimeOp::LoadVector)?;
    let store_int64 = need(m, RuntimeOp::StoreInt64)?;
    let store_int32 = need(m, RuntimeOp::StoreInt32)?;
    let store_int8 = need(m, RuntimeOp::StoreInt8)?;
    let store_float32 = need(m, RuntimeOp::StoreFloat32)?;
    let store_ptr = need(m, RuntimeOp::StorePtr)?;
    let store_vector = need(m, RuntimeOp::StoreVector)?;
    let deglobalify = need(m, RuntimeOp::Deglobalify)?;
    let check_if_global = need(m, RuntimeOp::CheckIfGlobal)?;
    let t = RuntimeTable {
        globalify,
        deglobalify,
        check_if_global,
        load_int8,
        load_int32,
        load_int64,
        load_float32,
        load_ptr,
        load_vector,
        store_int8,
        store_int32,
        store_int64,
        store_float32,
        store_ptr,
        store_vector,
    };
    proof {
        assert(m@.funcs.len() == count);
        assert forall|op: RuntimeOp|
            m@.lookup_function(op.name()) == Some(#[trigger] t.target(op)) && t.target(op)
                < m@.funcs.len() by {
            lemma_first_named(m@.funcs, op.name(), 0);
            match op {
                RuntimeOp::Globalify => {},
                RuntimeOp::Deglobalify => {},
                RuntimeOp::CheckIfGlobal => {},
                RuntimeOp::LoadInt8 => {},
                RuntimeOp::LoadInt32 => {},
                RuntimeOp::LoadInt64 => {},
                RuntimeOp::LoadFloat32 => {},
                RuntimeOp::LoadPtr => {},
                RuntimeOp::LoadVector => {},
                RuntimeOp::StoreInt8 => {},
                RuntimeOp::StoreInt32 => {},
                RuntimeOp::StoreInt64 => {},
                RuntimeOp::StoreFloat32 => {},
                RuntimeOp::StorePtr => {},
                RuntimeOp::StoreVector => {},
            }
        }
    }
    Ok(t)
}

} // verus!
