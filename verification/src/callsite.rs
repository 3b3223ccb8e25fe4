//! The call-site builder: replaces one memory instruction by a call to the
//! runtime function chosen for it, and hands the uses of the instruction
//! over to what the call produces.

use vstd::prelude::*;
use crate::classify::{classify_load, classify_store, load_choice, store_choice, Unsupported};
use crate::error::PassError;
use crate::edit::{journaled, lemma_operand_after_insert, lemma_replaced_unused, Edit};
use crate::model::{lemma_listed, InstView, ModuleView};
use crate::module::Module;
use crate::names::RuntimeOp;
use crate::table::RuntimeTable;
use crate::types::{func_operand, inst_operand, int64_operand, Opcode, Operand, Ty, Value, VecTy};

verus! {

/// A call in `block` that produces a value of type `ret`.
pub open spec fn call_view(block: usize, ret: Ty, operands: Seq<Operand>) -> InstView {
    InstView { op: Opcode::Call, ty: ret, slot: Ty::Void, block, erased: false, operands }
}

/// A value of this type can stand in for a scalar: the call hands back a
/// pointer, an integer or a floating-point number, or nothing at all, in
/// which case the call itself is the replacement.
pub open spec fn scalar_result(ret: Ty) -> bool {
    ret is Void || ret is Pointer || ret is Int || ret is Float
}

/// The error for a value that the classifier turned down.
pub open spec fn unsupported_at(inst: usize, u: Unsupported) -> PassError {
    match u {
        Unsupported::Width(bits) => PassError::UnsupportedWidth { inst, bits },
        Unsupported::Category => PassError::UnsupportedCategory { inst },
    }
}

/// Decides how Load `id` is replaced: the runtime operation to call, or the
/// reason for which the Load cannot be replaced.
pub open spec fn load_check(mv: ModuleView, t: RuntimeTable, id: usize) -> Result<
    RuntimeOp,
    PassError,
> {
    let inst = mv.insts[id as int];
    if inst.operands.len() == 0 {
        Err(PassError::MissingOperand { inst: id })
    } else {
        match inst.operands[0] {
            Operand::Block(_) => Err(PassError::MissingOperand { inst: id }),
            Operand::Value(address) => if !(mv.value_ty(address) is Pointer) {
                Err(PassError::BadAddress { inst: id })
            } else {
                match load_choice(inst.ty) {
                    Err(u) => Err(unsupported_at(id, u)),
                    Ok(op) => {
                        let ret = mv.funcs[t.target(op) as int].ret;
                        if inst.ty is Vector {
                            if ret is Pointer || ret is Void {
                                Ok(op)
                            } else {
                                Err(PassError::UnexpectedReturn { inst: id })
                            }
                        } else if scalar_result(ret) {
                            Ok(op)
                        } else {
                            Err(PassError::UnexpectedReturn { inst: id })
                        }
                    },
                }
            },
        }
    }
}

/// The module in which the Load at position `pos` of `block` has given way
/// to a call of the function of `op`.
///
/// A scalar Load becomes a call that takes the address. A vector Load
/// becomes a call that takes the address, the size of one element and the
/// number of elements; where the call hands back a pointer, a Load of the
/// whole vector from that pointer follows it and takes the place of the
/// old Load. The uses of the old Load go over to the replacement, and the
/// old Load is erased.
pub open spec fn load_rewritten(
    mv: ModuleView,
    t: RuntimeTable,
    block: usize,
    pos: int,
    op: RuntimeOp,
) -> ModuleView {
    let id = mv.blocks[block as int].insts[pos];
    let n = mv.insts.len() as usize;
    let inst = mv.insts[id as int];
    let target = t.target(op);
    let ret = mv.funcs[target as int].ret;
    match inst.ty {
        Ty::Vector(vt) => {
            let called = mv.inserted(
                block,
                pos,
                call_view(
                    block,
                    ret,
                    seq![
                        inst.operands[0],
                        int64_operand(vt.lane_bytes),
                        int64_operand(vt.lanes as u64),
                        func_operand(target),
                    ],
                ),
            );
            if ret is Pointer {
                called.inserted(
                    block,
                    pos + 1,
                    InstView {
                        op: Opcode::Load,
                        ty: inst.ty,
                        slot: Ty::Void,
                        block,
                        erased: false,
                        operands: seq![inst_operand(n)],
                    },
                ).uses_replaced(id, (n + 1) as usize).with_erased(block, pos + 2)
            } else {
                called.uses_replaced(id, n).with_erased(block, pos + 1)
            }
        },
        _ => mv.inserted(
            block,
            pos,
            call_view(block, ret, seq![inst.operands[0], func_operand(target)]),
        ).uses_replaced(id, n).with_erased(block, pos + 1),
    }
}

/// Decides how Store `id` is replaced.
pub open spec fn store_check(mv: ModuleView, t: RuntimeTable, id: usize) -> Result<
    RuntimeOp,
    PassError,
> {
    let inst = mv.insts[id as int];
    if inst.operands.len() < 2 {
        Err(PassError::MissingOperand { inst: id })
    } else {
        match (inst.operands[0], inst.operands[1]) {
            (Operand::Value(stored), Operand::Value(_)) => match store_choice(mv.value_ty(stored)) {
                Err(u) => Err(unsupported_at(id, u)),
                Ok(op) => if scalar_result(mv.funcs[t.target(op) as int].ret) {
                    Ok(op)
                } else {
                    Err(PassError::UnexpectedReturn { inst: id })
                },
            },
            _ => Err(PassError::MissingOperand { inst: id }),
        }
    }
}

/// The type of the value that Store `id` stores; nothing where the Store
/// has no value to store.
pub open spec fn stored_ty(mv: ModuleView, id: usize) -> Ty {
    if mv.insts[id as int].operands.len() == 0 {
        Ty::Void
    } else {
        match mv.insts[id as int].operands[0] {
            Operand::Value(stored) => mv.value_ty(stored),
            Operand::Block(_) => Ty::Void,
        }
    }
}

/// The module in which the Store at position `pos` of `block` has given way
/// to a call of the function of `op`.
///
/// A scalar Store becomes a call that takes the value and the destination,
/// in that order. A vector is first spilled: an Alloca reserves a slot for
/// it, a Store puts it there, and a BitCast gives the address of the slot
/// as a plain pointer; the call takes that pointer, the destination, the
/// size of one element and the number of elements.
pub open spec fn store_rewritten(
    mv: ModuleView,
    t: RuntimeTable,
    block: usize,
    pos: int,
    op: RuntimeOp,
) -> ModuleView {
    let id = mv.blocks[block as int].insts[pos];
    let n = mv.insts.len() as usize;
    let inst = mv.insts[id as int];
    let target = t.target(op);
    let ret = mv.funcs[target as int].ret;
    match stored_ty(mv, id) {
        Ty::Vector(vt) => spilled(mv, block, pos, vt, target, ret),
        _ => mv.inserted(
            block,
            pos,
            call_view(block, ret, seq![inst.operands[0], inst.operands[1], func_operand(target)]),
        ).uses_replaced(id, n).with_erased(block, pos + 1),
    }
}

/// Decides whether Alloca `id` can be handed to `globalify`: the function
/// must hand back a pointer, or nothing.
pub open spec fn alloca_check(mv: ModuleView, t: RuntimeTable, id: usize) -> Result<
    RuntimeOp,
    PassError,
> {
    let ret = mv.funcs[t.globalify as int].ret;
    if ret is Pointer || ret is Void {
        Ok(RuntimeOp::Globalify)
    } else {
        Err(PassError::UnexpectedReturn { inst: id })
    }
}

/// The module in which the Alloca at position `pos` of `block` is followed
/// by a call of `globalify` on its address. Every earlier use of the Alloca
/// is a use of the call; the call itself still takes the address of the
/// slot. The Alloca stays.
pub open spec fn alloca_rewritten(
    mv: ModuleView,
    t: RuntimeTable,
    block: usize,
    pos: int,
) -> ModuleView {
    let id = mv.blocks[block as int].insts[pos];
    let n = mv.insts.len() as usize;
    let target = t.globalify;
    mv.inserted(
        block,
        pos + 1,
        call_view(
            block,
            mv.funcs[target as int].ret,
            seq![inst_operand(id), func_operand(target)],
        ),
    ).uses_replaced(id, n).operand_set(n, 0, inst_operand(id))
}

/// The largest number of instructions that one rewrite adds to the arena.
pub const ROOM: usize = 4;

/// What rewriting the instruction at position `pos` of `block` gives: the
/// module in which a Load, a Store or an Alloca has been replaced, the
/// module as it is for any other instruction, or the reason for which the
/// instruction cannot be replaced. A rewrite is not begun unless the arena
/// has room for it.
#[verifier::opaque]
pub open spec fn rewritten(mv: ModuleView, t: RuntimeTable, block: usize, pos: int) -> Result<
    ModuleView,
    PassError,
> {
    let id = mv.blocks[block as int].insts[pos];
    if !mv.insts[id as int].op.is_memory_op() {
        Ok(mv)
    } else if mv.insts.len() + ROOM > usize::MAX {
        Err(PassError::ArenaFull { inst: id })
    } else {
        match mv.insts[id as int].op {
            Opcode::Load => match load_check(mv, t, id) {
                Ok(op) => Ok(load_rewritten(mv, t, block, pos, op)),
                Err(e) => Err(e),
            },
            Opcode::Store => match store_check(mv, t, id) {
                Ok(op) => Ok(store_rewritten(mv, t, block, pos, op)),
                Err(e) => Err(e),
            },
            Opcode::Alloca => match alloca_check(mv, t, id) {
                Ok(_) => Ok(alloca_rewritten(mv, t, block, pos)),
                Err(e) => Err(e),
            },
            _ => Ok(mv),
        }
    }
}

/// Computes [`unsupported_at`].
fn unsupported(inst: usize, u: Unsupported) -> (e: PassError)
    ensures
        e == unsupported_at(inst, u),
{
    match u {
        Unsupported::Width(bits) => PassError::UnsupportedWidth { inst, bits },
        Unsupported::Category => PassError::UnsupportedCategory { inst },
    }
}

/// Decides [`scalar_result`].
fn is_scalar_result(ret: Ty) -> (b: bool)
    ensures
        b == scalar_result(ret),
{
    match ret {
        Ty::Void => true,
        Ty::Pointer => true,
        Ty::Int(_) => true,
        Ty::Float(_) => true,
        _ => false,
    }
}

/// Decides whether a type is the pointer type.
fn hands_back_pointer(ret: Ty) -> (b: bool)
    ensures
        b == (ret is Pointer),
{
    match ret {
        Ty::Pointer => true,
        _ => false,
    }
}

/// The shape of a vector type; nothing for any other type.
fn lanes_of(ty: Ty) -> (r: Option<VecTy>)
    ensures
        r == (match ty {
            Ty::Vector(vt) => Some(vt),
            _ => None::<VecTy>,
        }),
{
    match ty {
        Ty::Vector(vt) => Some(vt),
        _ => None,
    }
}

/// Replaces the Load at position `pos` of `block`.
pub fn replace_load(
    m: &mut Module,
    t: &RuntimeTable,
    block: usize,
    pos: usize,
    log: &mut Vec<Edit>,
) -> (r: Result<(), PassError>)
    requires
        old(m)@.wf(),
        t.fits(old(m)@),
        block < old(m)@.blocks.len(),
        pos < old(m)@.blocks[block as int].insts.len(),
    ensures
        final(m)@.wf(),
        match r {
            Ok(_) => {
                let id = old(m)@.blocks[block as int].insts[pos as int];
                &&& load_check(old(m)@, *t, id) is Ok
                &&& final(m)@ == load_rewritten(
                    old(m)@,
                    *t,
                    block,
                    pos as int,
                    load_check(old(m)@, *t, id)->Ok_0,
                )
            },
            Err(e) => {
                &&& load_check(old(m)@, *t, old(m)@.blocks[block as int].insts[pos as int])
                    == Err::<RuntimeOp, PassError>(e)
                &&& final(m)@ == old(m)@
                &&& final(log)@ == old(log)@
            },
        },
        journaled(old(m)@, old(log)@, final(m)@, final(log)@),
{
    let id: usize = m.block_inst(block, pos);
    proof {
        lemma_listed(m@, block, pos as int);
    }
    if m.operand_count(id) == 0 {
        return Err(PassError::MissingOperand { inst: id });
    }
    let address_operand = m.operand(id, 0);
    let address = match address_operand {
        Operand::Value(v) => v,
        Operand::Block(_) => {
            return Err(PassError::MissingOperand { inst: id });
        },
    };
    if !hands_back_pointer(m.value_ty(address)) {
        return Err(PassError::BadAddress { inst: id });
    }
    let ty = m.inst_ty(id);
    let op = match classify_load(ty) {
        Ok(op) => op,
        Err(u) => {
            return Err(unsupported(id, u));
        },
    };
    let target: usize = t.get(op);
    assert(t.target(op) < m@.funcs.len());
    let ret = m.func_ret(target);
    match lanes_of(ty) {
        Some(vt) => {
            if !(hands_back_pointer(ret) || ret == Ty::Void) {
                return Err(PassError::UnexpectedReturn { inst: id });
            }
            let mut args: Vec<Operand> = Vec::new();
            args.push(address_operand);
            args.push(Operand::Value(Value::Int { bits: 64, value: vt.lane_bytes }));
            args.push(Operand::Value(Value::Int { bits: 64, value: vt.lanes as u64 }));
            args.push(Operand::Value(Value::Func(target)));
            assert(args@ == seq![
                address_operand,
                int64_operand(vt.lane_bytes),
                int64_operand(vt.lanes as u64),
                func_operand(target),
            ]);
            let call: usize = m.insert_inst(block, pos, Opcode::Call, ret, Ty::Void, args, log);
            proof {
                m.lemma_sizes();
                assert(m@.blocks[block as int].insts.len() <= usize::MAX);
            }
            if hands_back_pointer(ret) {
                let mut from_call: Vec<Operand> = Vec::new();
                from_call.push(Operand::Value(Value::Inst(call)));
                assert(from_call@ == seq![inst_operand(call)]);
                let whole: usize = m.insert_inst(
                    block,
                    pos + 1,
                    Opcode::Load,
                    ty,
                    Ty::Void,
                    from_call,
                    log,
                );
                let ghost built = m@;
                m.replace_uses(id, whole, log);
                proof {
                    lemma_replaced_unused(built, id, whole);
                }
                m.erase(block, pos + 2, log);
            } else {
                let ghost built = m@;
                m.replace_uses(id, call, log);
                proof {
                    lemma_replaced_unused(built, id, call);
                }
                m.erase(block, pos + 1, log);
            }
        },
        None => {
            if !is_scalar_result(ret) {
                return Err(PassError::UnexpectedReturn { inst: id });
            }
            let mut args: Vec<Operand> = Vec::new();
            args.push(address_operand);
            args.push(Operand::Value(Value::Func(target)));
            assert(args@ == seq![address_operand, func_operand(target)]);
            let call: usize = m.insert_inst(block, pos, Opcode::Call, ret, Ty::Void, args, log);
            proof {
                m.lemma_sizes();
                assert(m@.blocks[block as int].insts.len() <= usize::MAX);
            }
            let ghost built = m@;
            m.replace_uses(id, call, log);
            proof {
                lemma_replaced_unused(built, id, call);
            }
            m.erase(block, pos + 1, log);
        },
    }
    Ok(())
}

/// Replaces the Store at position `pos` of `block`.
pub fn replace_store(
    m: &mut Module,
    t: &RuntimeTable,
    block: usize,
    pos: usize,
    log: &mut Vec<Edit>,
) -> (r: Result<(), PassError>)
    requires
        old(m)@.wf(),
        t.fits(old(m)@),
        block < old(m)@.blocks.len(),
        pos < old(m)@.blocks[block as int].insts.len(),
    ensures
        final(m)@.wf(),
        match r {
            Ok(_) => {
                let id = old(m)@.blocks[block as int].insts[pos as int];
                &&& store_check(old(m)@, *t, id) is Ok
                &&& final(m)@ == store_rewritten(
                    old(m)@,
                    *t,
                    block,
                    pos as int,
                    store_check(old(m)@, *t, id)->Ok_0,
                )
            },
            Err(e) => {
                &&& store_check(old(m)@, *t, old(m)@.blocks[block as int].insts[pos as int])
                    == Err::<RuntimeOp, PassError>(e)
                &&& final(m)@ == old(m)@
                &&& final(log)@ == old(log)@
            },
        },
        journaled(old(m)@, old(log)@, final(m)@, final(log)@),
{
    let id: usize = m.block_inst(block, pos);
    proof {
        lemma_listed(m@, block, pos as int);
    }
    if m.operand_count(id) < 2 {
        return Err(PassError::MissingOperand { inst: id });
    }
    let stored_operand = m.operand(id, 0);
    let destination = m.operand(id, 1);
    let stored = match (stored_operand, destination) {
        (Operand::Value(v), Operand::Value(_)) => v,
        _ => {
            return Err(PassError::MissingOperand { inst: id });
        },
    };
    let ty = m.value_ty(stored);
    let op = match classify_store(ty) {
        Ok(op) => op,
        Err(u) => {
            return Err(unsupported(id, u));
        },
    };
    let target: usize = t.get(op);
    assert(t.target(op) < m@.funcs.len());
    let ret = m.func_ret(target);
    if !is_scalar_result(ret) {
        return Err(PassError::UnexpectedReturn { inst: id });
    }
    match lanes_of(ty) {
        Some(vt) => {
            spill_and_call(m, block, pos, vt, target, ret, log);
        },
        None => {
            let mut args: Vec<Operand> = Vec::new();
            args.push(stored_operand);
            args.push(destination);
            args.push(Operand::Value(Value::Func(target)));
            assert(args@ == seq![stored_operand, destination, func_operand(target)]);
            let call: usize = m.insert_inst(block, pos, Opcode::Call, ret, Ty::Void, args, log);
            proof {
                m.lemma_sizes();
                assert(m@.blocks[block as int].insts.len() <= usize::MAX);
            }
            let ghost built = m@;
            m.replace_uses(id, call, log);
            proof {
                lemma_replaced_unused(built, id, call);
            }
            m.erase(block, pos + 1, log);
        },
    }
    Ok(())
}

/// The module in which the vector that the Store at position `pos` of
/// `block` stores is spilled to a fresh slot, and a call of `target` on that
/// slot takes the place of the Store.
pub open spec fn spilled(
    mv: ModuleView,
    block: usize,
    pos: int,
    vt: VecTy,
    target: usize,
    ret: Ty,
) -> ModuleView {
    let id = mv.blocks[block as int].insts[pos];
    let n = mv.insts.len() as usize;
    let inst = mv.insts[id as int];
    mv.inserted(
        block,
        pos,
        InstView {
            op: Opcode::Alloca,
            ty: Ty::Pointer,
            slot: Ty::Vector(vt),
            block,
            erased: false,
            operands: seq![],
        },
    ).inserted(
        block,
        pos + 1,
        InstView {
            op: Opcode::Store,
            ty: Ty::Void,
            slot: Ty::Void,
            block,
            erased: false,
            operands: seq![inst.operands[0], inst_operand(n)],
        },
    ).inserted(
        block,
        pos + 2,
        InstView {
            op: Opcode::BitCast,
            ty: Ty::Pointer,
            slot: Ty::Void,
            block,
            erased: false,
            operands: seq![inst_operand(n)],
        },
    ).inserted(
        block,
        pos + 3,
        call_view(
            block,
            ret,
            seq![
                inst_operand((n + 2) as usize),
                inst.operands[1],
                int64_operand(vt.lane_bytes),
                int64_operand(vt.lanes as u64),
                func_operand(target),
            ],
        ),
    ).uses_replaced(id, (n + 3) as usize).with_erased(block, pos + 4)
}

/// Spills the vector of a Store and calls the runtime function on the
/// spill slot.
fn spill_and_call(
    m: &mut Module,
    block: usize,
    pos: usize,
    vt: VecTy,
    target: usize,
    ret: Ty,
    log: &mut Vec<Edit>,
)
    requires
        old(m)@.wf(),
        target < old(m)@.funcs.len(),
        block < old(m)@.blocks.len(),
        pos < old(m)@.blocks[block as int].insts.len(),
        old(m)@.insts[old(m)@.blocks[block as int].insts[pos as int] as int].operands.len() >= 2,
    ensures
        final(m)@.wf(),
        final(m)@ == spilled(old(m)@, block, pos as int, vt, target, ret),
        journaled(old(m)@, old(log)@, final(m)@, final(log)@),
{
    let id: usize = m.block_inst(block, pos);
    proof {
        lemma_listed(m@, block, pos as int);
    }
    let stored_operand = m.operand(id, 0);
    let destination = m.operand(id, 1);
    let ghost func = m@.blocks[block as int].func;
    let ghost m0 = m@;
    let buffer: usize = m.insert_inst(
        block,
        pos,
        Opcode::Alloca,
        Ty::Pointer,
        Ty::Vector(vt),
        Vec::new(),
        log,
    );
    let ghost m1 = m@;
    proof {
        m.lemma_sizes();
        assert(m@.blocks[block as int].insts.len() <= usize::MAX);
        let put = InstView {
            op: Opcode::Alloca,
            ty: Ty::Pointer,
            slot: Ty::Vector(vt),
            block,
            erased: false,
            operands: seq![],
        };
        lemma_operand_after_insert(m0, block, pos as int, put, func, stored_operand);
        lemma_operand_after_insert(m0, block, pos as int, put, func, destination);
    }
    let mut spill: Vec<Operand> = Vec::new();
    spill.push(stored_operand);
    spill.push(Operand::Value(Value::Inst(buffer)));
    assert(spill@ == seq![stored_operand, inst_operand(buffer)]);
    m.insert_inst(block, pos + 1, Opcode::Store, Ty::Void, Ty::Void, spill, log);
    let ghost m2 = m@;
    proof {
        m.lemma_sizes();
        assert(m@.blocks[block as int].insts.len() <= usize::MAX);
        let put = InstView {
            op: Opcode::Store,
            ty: Ty::Void,
            slot: Ty::Void,
            block,
            erased: false,
            operands: seq![stored_operand, inst_operand(buffer)],
        };
        lemma_operand_after_insert(m1, block, pos + 1, put, func, destination);
        lemma_operand_after_insert(m1, block, pos + 1, put, func, inst_operand(buffer));
    }
    let mut plain: Vec<Operand> = Vec::new();
    plain.push(Operand::Value(Value::Inst(buffer)));
    assert(plain@ == seq![inst_operand(buffer)]);
    let cast: usize = m.insert_inst(
        block,
        pos + 2,
        Opcode::BitCast,
        Ty::Pointer,
        Ty::Void,
        plain,
        log,
    );
    proof {
        m.lemma_sizes();
        assert(m@.blocks[block as int].insts.len() <= usize::MAX);
        let put = InstView {
            op: Opcode::BitCast,
            ty: Ty::Pointer,
            slot: Ty::Void,
            block,
            erased: false,
            operands: seq![inst_operand(buffer)],
        };
        lemma_operand_after_insert(m2, block, pos + 2, put, func, destination);
    }
    let mut args: Vec<Operand> = Vec::new();
    args.push(Operand::Value(Value::Inst(cast)));
    args.push(destination);
    args.push(Operand::Value(Value::Int { bits: 64, value: vt.lane_bytes }));
    args.push(Operand::Value(Value::Int { bits: 64, value: vt.lanes as u64 }));
    args.push(Operand::Value(Value::Func(target)));
    assert(args@ == seq![
        inst_operand(cast),
        destination,
        int64_operand(vt.lane_bytes),
        int64_operand(vt.lanes as u64),
        func_operand(target),
    ]);
    let call: usize = m.insert_inst(block, pos + 3, Opcode::Call, ret, Ty::Void, args, log);
    proof {
        m.lemma_sizes();
        assert(m@.blocks[block as int].insts.len() <= usize::MAX);
    }
    let ghost built = m@;
    m.replace_uses(id, call, log);
    proof {
        lemma_replaced_unused(built, id, call);
    }
    m.erase(block, pos + 4, log);
}

/// Hands the Alloca at position `pos` of `block` to `globalify`.
pub fn replace_alloca(
    m: &mut Module,
    t: &RuntimeTable,
    block: usize,
    pos: usize,
    log: &mut Vec<Edit>,
) -> (r: Result<(), PassError>)
    requires
        old(m)@.wf(),
        t.fits(old(m)@),
        block < old(m)@.blocks.len(),
        pos < old(m)@.blocks[block as int].insts.len(),
    ensures
        final(m)@.wf(),
        match r {
            Ok(_) => {
                let id = old(m)@.blocks[block as int].insts[pos as int];
                &&& alloca_check(old(m)@, *t, id) is Ok
                &&& final(m)@ == alloca_rewritten(old(m)@, *t, block, pos as int)
            },
            Err(e) => {
                &&& alloca_check(old(m)@, *t, old(m)@.blocks[block as int].insts[pos as int])
                    == Err::<RuntimeOp, PassError>(e)
                &&& final(m)@ == old(m)@
                &&& final(log)@ == old(log)@
            },
        },
        journaled(old(m)@, old(log)@, final(m)@, final(log)@),
{
    let id: usize = m.block_inst(block, pos);
    proof {
        lemma_listed(m@, block, pos as int);
    }
    let target: usize = t.get(RuntimeOp::Globalify);
    assert(t.target(RuntimeOp::Globalify) < m@.funcs.len());
    let ret = m.func_ret(target);
    if !(hands_back_pointer(ret) || ret == Ty::Void) {
        return Err(PassError::UnexpectedReturn { inst: id });
    }
    proof {
        m.lemma_sizes();
        assert(m@.blocks[block as int].insts.len() <= usize::MAX);
    }
    let mut args: Vec<Operand> = Vec::new();
    args.push(Operand::Value(Value::Inst(id)));
    args.push(Operand::Value(Value::Func(target)));
    assert(args@ == seq![inst_operand(id), func_operand(target)]);
    let call: usize = m.insert_inst(block, pos + 1, Opcode::Call, ret, Ty::Void, args, log);
    m.replace_uses(id, call, log);
    m.set_operand(call, 0, Operand::Value(Value::Inst(id)), log);
    Ok(())
}

/// Rewrites the instruction at position `pos` of `block` if it is a Load, a
/// Store or an Alloca, and leaves any other instruction alone.
pub fn rewrite_at(
    m: &mut Module,
    t: &RuntimeTable,
    block: usize,
    pos: usize,
    log: &mut Vec<Edit>,
) -> (r: Result<(), PassError>)
    requires
        old(m)@.wf(),
        t.fits(old(m)@),
        block < old(m)@.blocks.len(),
        pos < old(m)@.blocks[block as int].insts.len(),
    ensures
        final(m)@.wf(),
        match r {
            Ok(_) => rewritten(old(m)@, *t, block, pos as int) == Ok::<ModuleView, PassError>(
                final(m)@,
            ),
            Err(e) => {
                &&& rewritten(old(m)@, *t, block, pos as int) == Err::<ModuleView, PassError>(e)
                &&& final(m)@ == old(m)@
                &&& final(log)@ == old(log)@
            },
        },
        journaled(old(m)@, old(log)@, final(m)@, final(log)@),
{
    reveal(rewritten);
    let id: usize = m.block_inst(block, pos);
    proof {
        lemma_listed(m@, block, pos as int);
    }
    let op = m.inst_op(id);
    match op {
        Opcode::Load | Opcode::Store | Opcode::Alloca => {
            if m.instruction_count() > usize::MAX - ROOM {
                return Err(PassError::ArenaFull { inst: id });
            }
        },
        _ => {
            return Ok(());
        },
    }
    match op {
        Opcode::Load => replace_load(m, t, block, pos, log),
        Opcode::Store => replace_store(m, t, block, pos, log),
        _ => replace_alloca(m, t, block, pos, log),
    }
}

} // verus!
