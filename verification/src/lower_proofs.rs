//! What the lowering pass achieves, stated and proved over the model: what
//! one rewrite does to a module, and what follows for the pass as a whole.
//! No Load and no Store that a module held is left in it, every use keeps
//! its basic value category, and a module without vectors and stack slots
//! is left without any Load, Store or Alloca.

use vstd::prelude::*;
use crate::callsite::{
    alloca_rewritten, call_view, load_check, load_rewritten, rewritten, spilled, store_check,
    store_rewritten, stored_ty, ROOM,
};
use crate::edit::{
    lemma_inserted_facts, lemma_inserted_wf, lemma_operand_set_wf, lemma_replaced_unused,
    lemma_uses_replaced_wf, lemma_with_erased_wf, redirected,
};
use crate::lower::{
    lowered_block, lowered_blocks, lowered_from, lowered_function, lowered_functions, lowering,
};
use crate::model::{lemma_first_named, lemma_listed, InstView, ModuleView};
use crate::names::{is_runtime_name, RuntimeOp};
use crate::table::{first_missing_from, resolved, table_of, RuntimeTable};
use crate::types::{
    func_operand, inst_operand, int64_operand, Category, Opcode, Operand, Ty, Value, VecTy,
};

verus! {

/// True when rewriting instruction `id` leaves a Load, a Store or an Alloca
/// behind: `id` is an Alloca, which stays, or it moves a vector, which is
/// bridged through memory.
pub open spec fn bridges_memory(mv: ModuleView, id: usize) -> bool {
    let inst = mv.insts[id as int];
    ||| inst.op == Opcode::Alloca
    ||| inst.op == Opcode::Load && inst.ty is Vector
    ||| inst.op == Opcode::Store && stored_ty(mv, id) is Vector
}

/// The type of the value that takes over the uses of instruction `id` when
/// it is rewritten.
pub open spec fn replacement_ty(mv: ModuleView, t: RuntimeTable, id: usize) -> Ty {
    let inst = mv.insts[id as int];
    match inst.op {
        Opcode::Load => {
            let ret = mv.funcs[t.target(load_check(mv, t, id)->Ok_0) as int].ret;
            if inst.ty is Vector && ret is Pointer {
                inst.ty
            } else {
                ret
            }
        },
        Opcode::Store => mv.funcs[t.target(store_check(mv, t, id)->Ok_0) as int].ret,
        _ => mv.funcs[t.globalify as int].ret,
    }
}

/// How the block that a rewrite works on looks afterwards: what stood
/// before position `pos` and what stood behind it is where it was, counted
/// from either end; between them stand new instructions, and the old one
/// only if it is no Load and no Store. New instructions are calls, unless
/// the rewrite bridges through memory. No other block has changed.
pub open spec fn step_layout(cur: ModuleView, next: ModuleView, block: usize, pos: int) -> bool {
    let before = cur.blocks[block as int].insts;
    let after = next.blocks[block as int].insts;
    let stride = 1 + after.len() - before.len();
    let id = before[pos];
    &&& after.len() >= before.len()
    &&& forall|q: int| 0 <= q < pos ==> #[trigger] after[q] == before[q]
    &&& forall|q: int| pos + stride <= q < after.len() ==> #[trigger] after[q] == before[q - stride + 1]
    &&& forall|q: int|
        pos <= q < pos + stride ==> {
            ||| (#[trigger] after[q]) == id && cur.insts[id as int].op != Opcode::Load
                && cur.insts[id as int].op != Opcode::Store
            ||| cur.insts.len() <= after[q] < next.insts.len() && (next.insts[after[q] as int].op
                == Opcode::Call || bridges_memory(cur, id))
        }
    &&& forall|b: int|
        0 <= b < cur.blocks.len() && b != block ==> #[trigger] next.blocks[b] == cur.blocks[b]
}

/// How a rewrite of instruction `id` changes the operands of the
/// instructions that were there before: an operand stays, or it named the
/// result of `id` and now names a new instruction of the replacement type.
pub open spec fn step_uses(cur: ModuleView, next: ModuleView, t: RuntimeTable, id: usize) -> bool {
    forall|i: int, k: int|
        0 <= i < cur.insts.len() && 0 <= k < cur.insts[i].operands.len() ==> {
            let o = cur.insts[i].operands[k];
            let o2 = #[trigger] next.insts[i].operands[k];
            ||| o2 == o
            ||| {
                &&& o == inst_operand(id)
                &&& o2 matches Operand::Value(Value::Inst(r))
                &&& cur.insts.len() <= r < next.insts.len()
                &&& next.insts[r as int].ty == replacement_ty(cur, t, id)
            }
        }
}

/// Every instruction that a rewrite adds has the type that goes with its
/// opcode: a Store produces nothing, an Alloca produces a pointer.
pub open spec fn step_fresh(cur: ModuleView, next: ModuleView) -> bool {
    forall|j: int|
        cur.insts.len() <= j < next.insts.len() ==> {
            &&& (#[trigger] next.insts[j]).op == Opcode::Store ==> next.insts[j].ty is Void
            &&& next.insts[j].op == Opcode::Alloca ==> next.insts[j].ty is Pointer
        }
}

/// What holds of one rewrite that succeeds.
pub open spec fn step_facts(
    cur: ModuleView,
    next: ModuleView,
    t: RuntimeTable,
    block: usize,
    pos: int,
) -> bool {
    &&& next.wf()
    &&& next.extends(cur)
    &&& step_layout(cur, next, block, pos)
    &&& step_uses(cur, next, t, cur.blocks[block as int].insts[pos])
    &&& step_fresh(cur, next)
    &&& (!cur.insts[cur.blocks[block as int].insts[pos] as int].op.is_memory_op() ==> next
        == cur)
    &&& (cur.insts[cur.blocks[block as int].insts[pos] as int].op.is_memory_op()
        ==> next.insts.len() > cur.insts.len())
}

proof fn lemma_load_step(mv: ModuleView, t: RuntimeTable, block: usize, pos: int)
    requires
        mv.wf(),
        t.fits(mv),
        block < mv.blocks.len(),
        0 <= pos < mv.blocks[block as int].insts.len(),
        mv.insts.len() + ROOM <= usize::MAX,
        mv.insts[mv.blocks[block as int].insts[pos] as int].op == Opcode::Load,
        load_check(mv, t, mv.blocks[block as int].insts[pos]) is Ok,
    ensures
        step_facts(
            mv,
            load_rewritten(
                mv,
                t,
                block,
                pos,
                load_check(mv, t, mv.blocks[block as int].insts[pos])->Ok_0,
            ),
            t,
            block,
            pos,
        ),
{
    let id = mv.blocks[block as int].insts[pos];
    let n = mv.insts.len() as usize;
    let inst = mv.insts[id as int];
    let op = load_check(mv, t, id)->Ok_0;
    let target = t.target(op);
    let ret = mv.funcs[target as int].ret;
    let next = load_rewritten(mv, t, block, pos, op);
    let before = mv.blocks[block as int].insts;
    let func = mv.blocks[block as int].func;
    lemma_listed(mv, block, pos);
    assert(mv.valid_operand(inst.operands[0]) && mv.local_operand(func, inst.operands[0]));
    match inst.ty {
        Ty::Vector(vt) => {
            let call = call_view(
                block,
                ret,
                seq![
                    inst.operands[0],
                    int64_operand(vt.lane_bytes),
                    int64_operand(vt.lanes as u64),
                    func_operand(target),
                ],
            );
            let m1 = mv.inserted(block, pos, call);
            lemma_inserted_wf(mv, block, pos, call);
            lemma_inserted_facts(mv, block, pos, call);
            if ret is Pointer {
                let whole = InstView {
                    op: Opcode::Load,
                    ty: inst.ty,
                    slot: Ty::Void,
                    block,
                    erased: false,
                    operands: seq![inst_operand(n)],
                };
                let m2 = m1.inserted(block, pos + 1, whole);
                lemma_inserted_wf(m1, block, pos + 1, whole);
                lemma_inserted_facts(m1, block, pos + 1, whole);
                let m3 = m2.uses_replaced(id, (n + 1) as usize);
                assert(m2.home(id as int) == func);
                lemma_uses_replaced_wf(m2, id, (n + 1) as usize);
                lemma_replaced_unused(m2, id, (n + 1) as usize);
                assert(m3.blocks[block as int].insts[pos + 2] == id);
                lemma_with_erased_wf(m3, block, pos + 2);
                assert(next == m3.with_erased(block, pos + 2));
                let after = next.blocks[block as int].insts;
                assert(after == before.insert(pos, n).insert(pos + 1, (n + 1) as usize).remove(
                    pos + 2,
                ));
                assert(after[pos] == n);
                assert(after[pos + 1] == n + 1);
                assert(next.extends(mv));
                assert(step_layout(mv, next, block, pos));
                assert(step_uses(mv, next, t, id));
                assert(step_fresh(mv, next));
            } else {
                let m2 = m1.uses_replaced(id, n);
                assert(m1.home(id as int) == func);
                lemma_uses_replaced_wf(m1, id, n);
                lemma_replaced_unused(m1, id, n);
                assert(m2.blocks[block as int].insts[pos + 1] == id);
                lemma_with_erased_wf(m2, block, pos + 1);
                assert(next == m2.with_erased(block, pos + 1));
                let after = next.blocks[block as int].insts;
                assert(after == before.insert(pos, n).remove(pos + 1));
                assert(after[pos] == n);
                assert(next.extends(mv));
                assert(step_layout(mv, next, block, pos));
                assert(step_uses(mv, next, t, id));
                assert(step_fresh(mv, next));
            }
        },
        _ => {
            let call = call_view(block, ret, seq![inst.operands[0], func_operand(target)]);
            let m1 = mv.inserted(block, pos, call);
            lemma_inserted_wf(mv, block, pos, call);
            lemma_inserted_facts(mv, block, pos, call);
            let m2 = m1.uses_replaced(id, n);
            assert(m1.home(id as int) == func);
            lemma_uses_replaced_wf(m1, id, n);
            lemma_replaced_unused(m1, id, n);
            assert(m2.blocks[block as int].insts[pos + 1] == id);
            lemma_with_erased_wf(m2, block, pos + 1);
            assert(next == m2.with_erased(block, pos + 1));
            let after = next.blocks[block as int].insts;
            assert(after == before.insert(pos, n).remove(pos + 1));
            assert(after[pos] == n);
            assert(next.extends(mv));
            assert(step_layout(mv, next, block, pos));
            assert(step_uses(mv, next, t, id));
            assert(step_fresh(mv, next));
        },
    }
}

proof fn lemma_spilled_step(
    mv: ModuleView,
    t: RuntimeTable,
    block: usize,
    pos: int,
    vt: VecTy,
    target: usize,
)
    requires
        mv.wf(),
        target < mv.funcs.len(),
        block < mv.blocks.len(),
        0 <= pos < mv.blocks[block as int].insts.len(),
        mv.insts.len() + ROOM <= usize::MAX,
        mv.insts[mv.blocks[block as int].insts[pos] as int].op == Opcode::Store,
        mv.insts[mv.blocks[block as int].insts[pos] as int].operands.len() >= 2,
        stored_ty(mv, mv.blocks[block as int].insts[pos]) == Ty::Vector(vt),
        replacement_ty(mv, t, mv.blocks[block as int].insts[pos]) == mv.funcs[target as int].ret,
    ensures
        step_facts(
            mv,
            spilled(mv, block, pos, vt, target, mv.funcs[target as int].ret),
            t,
            block,
            pos,
        ),
{
    let id = mv.blocks[block as int].insts[pos];
    let n = mv.insts.len() as usize;
    let inst = mv.insts[id as int];
    let ret = mv.funcs[target as int].ret;
    let next = spilled(mv, block, pos, vt, target, ret);
    let before = mv.blocks[block as int].insts;
    let func = mv.blocks[block as int].func;
    lemma_listed(mv, block, pos);
    assert(mv.valid_operand(inst.operands[0]) && mv.local_operand(func, inst.operands[0]));
    assert(mv.valid_operand(inst.operands[1]) && mv.local_operand(func, inst.operands[1]));
    let buffer = InstView {
        op: Opcode::Alloca,
        ty: Ty::Pointer,
        slot: Ty::Vector(vt),
        block,
        erased: false,
        operands: seq![],
    };
    let spill = InstView {
        op: Opcode::Store,
        ty: Ty::Void,
        slot: Ty::Void,
        block,
        erased: false,
        operands: seq![inst.operands[0], inst_operand(n)],
    };
    let cast = InstView {
        op: Opcode::BitCast,
        ty: Ty::Pointer,
        slot: Ty::Void,
        block,
        erased: false,
        operands: seq![inst_operand(n)],
    };
    let call = call_view(
        block,
        ret,
        seq![
            inst_operand((n + 2) as usize),
            inst.operands[1],
            int64_operand(vt.lane_bytes),
            int64_operand(vt.lanes as u64),
            func_operand(target),
        ],
    );
    let m1 = mv.inserted(block, pos, buffer);
    lemma_inserted_wf(mv, block, pos, buffer);
    lemma_inserted_facts(mv, block, pos, buffer);
    assert(m1.valid_operand(inst.operands[0]) && m1.local_operand(func, inst.operands[0]));
    assert(m1.valid_operand(inst.operands[1]) && m1.local_operand(func, inst.operands[1]));
    let m2 = m1.inserted(block, pos + 1, spill);
    lemma_inserted_wf(m1, block, pos + 1, spill);
    lemma_inserted_facts(m1, block, pos + 1, spill);
    assert(m2.valid_operand(inst.operands[1]) && m2.local_operand(func, inst.operands[1]));
    assert(m2.valid_operand(inst_operand(n)) && m2.local_operand(func, inst_operand(n)));
    let m3 = m2.inserted(block, pos + 2, cast);
    lemma_inserted_wf(m2, block, pos + 2, cast);
    lemma_inserted_facts(m2, block, pos + 2, cast);
    assert(m3.valid_operand(inst.operands[1]) && m3.local_operand(func, inst.operands[1]));
    let m4 = m3.inserted(block, pos + 3, call);
    lemma_inserted_wf(m3, block, pos + 3, call);
    lemma_inserted_facts(m3, block, pos + 3, call);
    let m5 = m4.uses_replaced(id, (n + 3) as usize);
    assert(m4.insts[id as int] == mv.insts[id as int]);
    assert(m4.home(id as int) == func);
    lemma_uses_replaced_wf(m4, id, (n + 3) as usize);
    lemma_replaced_unused(m4, id, (n + 3) as usize);
    assert(m5.blocks[block as int].insts[pos + 4] == id);
    lemma_with_erased_wf(m5, block, pos + 4);
    assert(next == m5.with_erased(block, pos + 4));
    let after = next.blocks[block as int].insts;
    assert(after == before.insert(pos, n).insert(pos + 1, (n + 1) as usize).insert(
        pos + 2,
        (n + 2) as usize,
    ).insert(pos + 3, (n + 3) as usize).remove(pos + 4));
    assert(after[pos] == n);
    assert(after[pos + 1] == n + 1);
    assert(after[pos + 2] == n + 2);
    assert(after[pos + 3] == n + 3);
    assert(bridges_memory(mv, id));
    assert(next.extends(mv));
    assert(step_layout(mv, next, block, pos));
    assert(step_uses(mv, next, t, id));
    assert(step_fresh(mv, next));
}

proof fn lemma_store_step(mv: ModuleView, t: RuntimeTable, block: usize, pos: int)
    requires
        mv.wf(),
        t.fits(mv),
        block < mv.blocks.len(),
        0 <= pos < mv.blocks[block as int].insts.len(),
        mv.insts.len() + ROOM <= usize::MAX,
        mv.insts[mv.blocks[block as int].insts[pos] as int].op == Opcode::Store,
        store_check(mv, t, mv.blocks[block as int].insts[pos]) is Ok,
    ensures
        step_facts(
            mv,
            store_rewritten(
                mv,
                t,
                block,
                pos,
                store_check(mv, t, mv.blocks[block as int].insts[pos])->Ok_0,
            ),
            t,
            block,
            pos,
        ),
{
    let id = mv.blocks[block as int].insts[pos];
    let n = mv.insts.len() as usize;
    let inst = mv.insts[id as int];
    let op = store_check(mv, t, id)->Ok_0;
    let target = t.target(op);
    let ret = mv.funcs[target as int].ret;
    let next = store_rewritten(mv, t, block, pos, op);
    let before = mv.blocks[block as int].insts;
    let func = mv.blocks[block as int].func;
    lemma_listed(mv, block, pos);
    assert(mv.valid_operand(inst.operands[0]) && mv.local_operand(func, inst.operands[0]));
    assert(mv.valid_operand(inst.operands[1]) && mv.local_operand(func, inst.operands[1]));
    match stored_ty(mv, id) {
        Ty::Vector(vt) => {
            lemma_spilled_step(mv, t, block, pos, vt, target);
        },
        _ => {
            let call = call_view(
                block,
                ret,
                seq![inst.operands[0], inst.operands[1], func_operand(target)],
            );
            let m1 = mv.inserted(block, pos, call);
            lemma_inserted_wf(mv, block, pos, call);
            lemma_inserted_facts(mv, block, pos, call);
            let m2 = m1.uses_replaced(id, n);
            assert(m1.home(id as int) == func);
            lemma_uses_replaced_wf(m1, id, n);
            lemma_replaced_unused(m1, id, n);
            assert(m2.blocks[block as int].insts[pos + 1] == id);
            lemma_with_erased_wf(m2, block, pos + 1);
            assert(next == m2.with_erased(block, pos + 1));
            let after = next.blocks[block as int].insts;
            assert(after == before.insert(pos, n).remove(pos + 1));
            assert(after[pos] == n);
            assert(next.extends(mv));
            assert(step_layout(mv, next, block, pos));
            assert(step_uses(mv, next, t, id));
            assert(step_fresh(mv, next));
        },
    }
}

proof fn lemma_alloca_step(mv: ModuleView, t: RuntimeTable, block: usize, pos: int)
    requires
        mv.wf(),
        t.fits(mv),
        block < mv.blocks.len(),
        0 <= pos < mv.blocks[block as int].insts.len(),
        mv.insts.len() + ROOM <= usize::MAX,
        mv.insts[mv.blocks[block as int].insts[pos] as int].op == Opcode::Alloca,
    ensures
        step_facts(mv, alloca_rewritten(mv, t, block, pos), t, block, pos),
{
    let id = mv.blocks[block as int].insts[pos];
    let n = mv.insts.len() as usize;
    let target = t.globalify;
    assert(t.target(RuntimeOp::Globalify) < mv.funcs.len());
    let next = alloca_rewritten(mv, t, block, pos);
    let before = mv.blocks[block as int].insts;
    let func = mv.blocks[block as int].func;
    lemma_listed(mv, block, pos);
    let call = call_view(
        block,
        mv.funcs[target as int].ret,
        seq![inst_operand(id), func_operand(target)],
    );
    let m1 = mv.inserted(block, pos + 1, call);
    lemma_inserted_wf(mv, block, pos + 1, call);
    lemma_inserted_facts(mv, block, pos + 1, call);
    let m2 = m1.uses_replaced(id, n);
    assert(m1.home(id as int) == func);
    lemma_uses_replaced_wf(m1, id, n);
    assert(m2.valid_operand(inst_operand(id)));
    assert(m2.home(n as int) == func);
    assert(m2.home(id as int) == func);
    lemma_operand_set_wf(m2, n, 0, inst_operand(id));
    assert(next == m2.operand_set(n, 0, inst_operand(id)));
    let after = next.blocks[block as int].insts;
    assert(after == before.insert(pos + 1, n));
    assert(after[pos] == id);
    assert(after[pos + 1] == n);
    assert(bridges_memory(mv, id));
    assert(next.extends(mv));
    assert(step_layout(mv, next, block, pos));
    assert(step_uses(mv, next, t, id));
    assert(step_fresh(mv, next));
}

/// One rewrite that succeeds keeps the module well-formed and changes it as
/// [`step_facts`] says.
pub proof fn lemma_rewritten_step(mv: ModuleView, t: RuntimeTable, block: usize, pos: int)
    requires
        mv.wf(),
        t.fits(mv),
        block < mv.blocks.len(),
        0 <= pos < mv.blocks[block as int].insts.len(),
        rewritten(mv, t, block, pos) is Ok,
    ensures
        step_facts(mv, rewritten(mv, t, block, pos)->Ok_0, t, block, pos),
{
    reveal(rewritten);
    let id = mv.blocks[block as int].insts[pos];
    match mv.insts[id as int].op {
        Opcode::Load => {
            lemma_load_step(mv, t, block, pos);
        },
        Opcode::Store => {
            lemma_store_step(mv, t, block, pos);
        },
        Opcode::Alloca => {
            lemma_alloca_step(mv, t, block, pos);
        },
        _ => {
            assert(rewritten(mv, t, block, pos)->Ok_0 == mv);
            assert(step_layout(mv, mv, block, pos));
            assert(step_uses(mv, mv, t, id));
        },
    }
}

/// The basic value category of an operand; a block has none.
pub open spec fn operand_category(mv: ModuleView, o: Operand) -> Option<Category> {
    match o {
        Operand::Value(v) => Some(mv.value_ty(v).category()),
        Operand::Block(_) => None,
    }
}

/// True when every operand that a live instruction of `later` had in
/// `earlier` still has the basic value category it had there.
pub open spec fn keeps_categories(later: ModuleView, earlier: ModuleView) -> bool {
    forall|i: int, k: int|
        0 <= i < earlier.insts.len() && !later.insts[i].erased && 0 <= k
            < earlier.insts[i].operands.len() ==> operand_category(
            later,
            #[trigger] later.insts[i].operands[k],
        ) == operand_category(earlier, earlier.insts[i].operands[k])
}

/// True when the runtime functions are declared with the result types of
/// the runtime library: a load function hands back what it loads, the
/// vector load and `globalify` hand back a pointer, and a store function
/// hands back nothing.
pub open spec fn typed(mv: ModuleView, t: RuntimeTable) -> bool {
    &&& mv.funcs[t.globalify as int].ret is Pointer
    &&& mv.funcs[t.load_ptr as int].ret is Pointer
    &&& mv.funcs[t.load_int8 as int].ret is Int
    &&& mv.funcs[t.load_int32 as int].ret is Int
    &&& mv.funcs[t.load_int64 as int].ret is Int
    &&& mv.funcs[t.load_float32 as int].ret is Float
    &&& mv.funcs[t.load_vector as int].ret is Pointer
    &&& mv.funcs[t.store_ptr as int].ret is Void
    &&& mv.funcs[t.store_int8 as int].ret is Void
    &&& mv.funcs[t.store_int32 as int].ret is Void
    &&& mv.funcs[t.store_int64 as int].ret is Void
    &&& mv.funcs[t.store_float32 as int].ret is Void
    &&& mv.funcs[t.store_vector as int].ret is Void
}

/// True when every Store produces nothing and every Alloca produces a
/// pointer.
pub open spec fn typed_insts(mv: ModuleView) -> bool {
    forall|i: int|
        0 <= i < mv.insts.len() ==> {
            &&& (#[trigger] mv.insts[i]).op == Opcode::Store ==> mv.insts[i].ty is Void
            &&& mv.insts[i].op == Opcode::Alloca ==> mv.insts[i].ty is Pointer
        }
}

/// How a module at a later point of the pass relates to the module at an
/// earlier point.
pub open spec fn progress(earlier: ModuleView, later: ModuleView, t: RuntimeTable) -> bool {
    &&& later.wf()
    &&& later.extends(earlier)
    &&& (typed(earlier, t) && typed_insts(earlier) ==> keeps_categories(later, earlier)
        && typed_insts(later))
}

/// With the runtime functions declared as the runtime library has them,
/// what takes over the uses of a rewritten instruction has the basic value
/// category of that instruction.
proof fn lemma_replacement_category(mv: ModuleView, t: RuntimeTable, block: usize, pos: int)
    requires
        mv.wf(),
        t.fits(mv),
        typed(mv, t),
        typed_insts(mv),
        block < mv.blocks.len(),
        0 <= pos < mv.blocks[block as int].insts.len(),
        rewritten(mv, t, block, pos) is Ok,
        mv.insts[mv.blocks[block as int].insts[pos] as int].op.is_memory_op(),
    ensures
        replacement_ty(mv, t, mv.blocks[block as int].insts[pos]).category()
            == mv.insts[mv.blocks[block as int].insts[pos] as int].ty.category(),
{
    reveal(ModuleView::wf);
    reveal(rewritten);
}

proof fn lemma_step_progress(cur: ModuleView, t: RuntimeTable, block: usize, pos: int)
    requires
        cur.wf(),
        t.fits(cur),
        block < cur.blocks.len(),
        0 <= pos < cur.blocks[block as int].insts.len(),
        rewritten(cur, t, block, pos) is Ok,
    ensures
        progress(cur, rewritten(cur, t, block, pos)->Ok_0, t),
        step_facts(cur, rewritten(cur, t, block, pos)->Ok_0, t, block, pos),
{
    reveal(ModuleView::wf);
    let next = rewritten(cur, t, block, pos)->Ok_0;
    let id = cur.blocks[block as int].insts[pos];
    lemma_rewritten_step(cur, t, block, pos);
    if typed(cur, t) && typed_insts(cur) {
        if cur.insts[id as int].op.is_memory_op() {
            lemma_replacement_category(cur, t, block, pos);
            assert forall|i: int, k: int|
                0 <= i < cur.insts.len() && !next.insts[i].erased && 0 <= k
                    < cur.insts[i].operands.len() implies operand_category(
                next,
                #[trigger] next.insts[i].operands[k],
            ) == operand_category(cur, cur.insts[i].operands[k]) by {
                let o = cur.insts[i].operands[k];
                let o2 = next.insts[i].operands[k];
                assert(!cur.insts[i].erased);
                assert(cur.valid_operand(o));
                if o2 == o {
                    match o {
                        Operand::Value(Value::Inst(j)) => {
                            assert(next.insts[j as int].ty == cur.insts[j as int].ty);
                        },
                        _ => {},
                    }
                } else {
                    assert(cur.value_ty(Value::Inst(id)) == cur.insts[id as int].ty);
                }
            }
            assert(typed_insts(next)) by {
                assert forall|i: int| 0 <= i < next.insts.len() implies {
                    &&& (#[trigger] next.insts[i]).op == Opcode::Store ==> next.insts[i].ty is Void
                    &&& next.insts[i].op == Opcode::Alloca ==> next.insts[i].ty is Pointer
                } by {
                    if i < cur.insts.len() {
                        assert(next.insts[i].op == cur.insts[i].op);
                    }
                }
            }
        } else {
            assert(next == cur);
        }
    }
}

proof fn lemma_progress_trans(a: ModuleView, b: ModuleView, c: ModuleView, t: RuntimeTable)
    requires
        progress(a, b, t),
        progress(b, c, t),
    ensures
        progress(a, c, t),
{
    if typed(a, t) && typed_insts(a) {
        assert(typed(b, t));
        assert forall|i: int, k: int|
            0 <= i < a.insts.len() && !c.insts[i].erased && 0 <= k
                < a.insts[i].operands.len() implies operand_category(
            c,
            #[trigger] c.insts[i].operands[k],
        ) == operand_category(a, a.insts[i].operands[k]) by {
            assert(!b.insts[i].erased);
            assert(operand_category(b, b.insts[i].operands[k]) == operand_category(
                a,
                a.insts[i].operands[k],
            ));
        }
    }
}

/// True when, at the positions before `upto` of block `b`, no instruction
/// that was in the arena below slot `base` is a Load or a Store.
pub open spec fn settled(mv: ModuleView, base: nat, b: usize, upto: int) -> bool {
    forall|q: int|
        0 <= q < upto && q < mv.blocks[b as int].insts.len() ==> {
            let id = #[trigger] mv.blocks[b as int].insts[q];
            id < base ==> mv.insts[id as int].op != Opcode::Load && mv.insts[id as int].op
                != Opcode::Store
        }
}

proof fn lemma_settled_stable(cur: ModuleView, out: ModuleView, base: nat, b: usize, upto: int)
    requires
        cur.wf(),
        b < cur.blocks.len(),
        out.extends(cur),
        out.blocks[b as int] == cur.blocks[b as int],
        settled(cur, base, b, upto),
    ensures
        settled(out, base, b, upto),
{
    reveal(ModuleView::wf);
    assert forall|q: int| 0 <= q < upto && q < out.blocks[b as int].insts.len() implies {
        let id = #[trigger] out.blocks[b as int].insts[q];
        id < base ==> out.insts[id as int].op != Opcode::Load && out.insts[id as int].op
            != Opcode::Store
    } by {
        let id = cur.blocks[b as int].insts[q];
        assert(id < cur.insts.len());
        assert(out.insts[id as int].op == cur.insts[id as int].op);
    }
}

proof fn lemma_lowered_from(
    cur: ModuleView,
    t: RuntimeTable,
    block: usize,
    pos: int,
    count: nat,
    base: nat,
)
    requires
        cur.wf(),
        t.fits(cur),
        block < cur.blocks.len(),
        0 <= pos,
        pos + count == cur.blocks[block as int].insts.len(),
        base <= cur.insts.len(),
        settled(cur, base, block, pos),
        lowered_from(cur, t, block, pos, count) is Ok,
    ensures
        ({
            let out = lowered_from(cur, t, block, pos, count)->Ok_0;
            &&& progress(cur, out, t)
            &&& settled(out, base, block, out.blocks[block as int].insts.len() as int)
            &&& forall|b: int|
                0 <= b < cur.blocks.len() && b != block ==> #[trigger] out.blocks[b]
                    == cur.blocks[b]
        }),
    decreases count,
{
    reveal(ModuleView::wf);
    if count > 0 {
        let next = rewritten(cur, t, block, pos)->Ok_0;
        let before = cur.blocks[block as int].insts;
        let after = next.blocks[block as int].insts;
        let stride = 1 + after.len() - before.len();
        lemma_step_progress(cur, t, block, pos);
        assert forall|q: int| 0 <= q < pos + stride && q < after.len() implies {
            let id = #[trigger] next.blocks[block as int].insts[q];
            id < base ==> next.insts[id as int].op != Opcode::Load && next.insts[id as int].op
                != Opcode::Store
        } by {
            if q < pos {
                assert(after[q] == before[q]);
                assert(before[q] < cur.insts.len());
                assert(next.insts[before[q] as int].op == cur.insts[before[q] as int].op);
            } else {
                let id = before[pos];
                assert(id < cur.insts.len());
                assert(next.insts[id as int].op == cur.insts[id as int].op);
            }
        }
        let out = lowered_from(next, t, block, pos + stride, (count - 1) as nat)->Ok_0;
        lemma_lowered_from(next, t, block, pos + stride, (count - 1) as nat, base);
        lemma_progress_trans(cur, next, out, t);
    } else {
        assert(progress(cur, cur, t));
    }
}

proof fn lemma_lowered_blocks(
    cur: ModuleView,
    t: RuntimeTable,
    blocks: Seq<usize>,
    k: int,
    base: nat,
)
    requires
        cur.wf(),
        t.fits(cur),
        0 <= k <= blocks.len(),
        forall|j: int| 0 <= j < blocks.len() ==> (#[trigger] blocks[j]) < cur.blocks.len(),
        forall|j: int, l: int| 0 <= j < l < blocks.len() ==> #[trigger] blocks[j] != #[trigger] blocks[l],
        base <= cur.insts.len(),
        forall|j: int|
            0 <= j < k ==> settled(
                cur,
                base,
                #[trigger] blocks[j],
                cur.blocks[blocks[j] as int].insts.len() as int,
            ),
        lowered_blocks(cur, t, blocks, k) is Ok,
    ensures
        ({
            let out = lowered_blocks(cur, t, blocks, k)->Ok_0;
            &&& progress(cur, out, t)
            &&& forall|j: int|
                0 <= j < blocks.len() ==> settled(
                    out,
                    base,
                    #[trigger] blocks[j],
                    out.blocks[blocks[j] as int].insts.len() as int,
                )
            &&& forall|b: int|
                0 <= b < cur.blocks.len() && (forall|j: int|
                    0 <= j < blocks.len() ==> #[trigger] blocks[j] != b) ==> #[trigger] out.blocks[b]
                    == cur.blocks[b]
        }),
    decreases blocks.len() - k,
{
    reveal(ModuleView::wf);
    if k < blocks.len() {
        let block = blocks[k];
        let next = lowered_block(cur, t, block)->Ok_0;
        lemma_lowered_from(cur, t, block, 0, cur.blocks[block as int].insts.len(), base);
        assert forall|j: int| 0 <= j < k + 1 implies settled(
            next,
            base,
            #[trigger] blocks[j],
            next.blocks[blocks[j] as int].insts.len() as int,
        ) by {
            if j < k {
                assert(blocks[j] != blocks[k]);
                lemma_settled_stable(
                    cur,
                    next,
                    base,
                    blocks[j],
                    cur.blocks[blocks[j] as int].insts.len() as int,
                );
            }
        }
        let out = lowered_blocks(next, t, blocks, k + 1)->Ok_0;
        lemma_lowered_blocks(next, t, blocks, k + 1, base);
        lemma_progress_trans(cur, next, out, t);
        assert forall|b: int|
            0 <= b < cur.blocks.len() && (forall|j: int|
                0 <= j < blocks.len() ==> #[trigger] blocks[j] != b) implies #[trigger] out.blocks[b]
            == cur.blocks[b] by {
            assert(blocks[k] != b);
            assert(next.blocks[b] == cur.blocks[b]);
        }
    } else {
        assert(progress(cur, cur, t));
    }
}

/// True when, in every function before `upto` that is not a runtime
/// function, no instruction that was in the arena below slot `base` is a
/// Load or a Store.
pub open spec fn settled_functions(mv: ModuleView, base: nat, upto: int) -> bool {
    forall|f: int, j: int|
        0 <= f < upto && f < mv.funcs.len() && !is_runtime_name(mv.funcs[f].name) && 0 <= j
            < mv.funcs[f].blocks.len() ==> settled(
            mv,
            base,
            #[trigger] mv.funcs[f].blocks[j],
            mv.blocks[mv.funcs[f].blocks[j] as int].insts.len() as int,
        )
}

proof fn lemma_lowered_functions(cur: ModuleView, t: RuntimeTable, f: int, count: nat, base: nat)
    requires
        cur.wf(),
        t.fits(cur),
        0 <= f,
        f + count == cur.funcs.len(),
        base <= cur.insts.len(),
        settled_functions(cur, base, f),
        lowered_functions(cur, t, f, count) is Ok,
    ensures
        ({
            let out = lowered_functions(cur, t, f, count)->Ok_0;
            &&& progress(cur, out, t)
            &&& settled_functions(out, base, out.funcs.len() as int)
        }),
    decreases count,
{
    reveal(ModuleView::wf);
    if count > 0 {
        let next = lowered_function(cur, t, f)->Ok_0;
        if is_runtime_name(cur.funcs[f].name) {
            assert(next == cur);
            assert(progress(cur, cur, t));
        } else {
            lemma_lowered_blocks(cur, t, cur.funcs[f].blocks, 0, base);
        }
        assert(settled_functions(next, base, f + 1)) by {
            assert forall|g: int, j: int|
                0 <= g < f + 1 && g < next.funcs.len() && !is_runtime_name(next.funcs[g].name) && 0
                    <= j < next.funcs[g].blocks.len() implies settled(
                next,
                base,
                #[trigger] next.funcs[g].blocks[j],
                next.blocks[next.funcs[g].blocks[j] as int].insts.len() as int,
            ) by {
                let b = cur.funcs[g].blocks[j];
                if g < f {
                    if !is_runtime_name(cur.funcs[f].name) {
                        assert(cur.blocks[b as int].func == g);
                        assert forall|l: int|
                            0 <= l < cur.funcs[f].blocks.len() implies #[trigger] cur.funcs[f].blocks[l]
                            != b by {
                            assert(cur.blocks[cur.funcs[f].blocks[l] as int].func == f);
                        }
                        assert(next.blocks[b as int] == cur.blocks[b as int]);
                    }
                    lemma_settled_stable(
                        cur,
                        next,
                        base,
                        b,
                        cur.blocks[b as int].insts.len() as int,
                    );
                }
            }
        }
        let out = lowered_functions(next, t, f + 1, (count - 1) as nat)->Ok_0;
        lemma_lowered_functions(next, t, f + 1, (count - 1) as nat, base);
        lemma_progress_trans(cur, next, out, t);
    } else {
        assert(progress(cur, cur, t));
    }
}

/// The table of a module that declares every runtime function holds
/// functions of that module only.
pub proof fn lemma_resolved_fits(mv: ModuleView)
    requires
        mv.wf(),
        resolved(mv) is Ok,
    ensures
        resolved(mv)->Ok_0.fits(mv),
        resolved(mv)->Ok_0.resolves(mv),
{
    reveal(ModuleView::wf);
    reveal_with_fuel(first_missing_from, 16);
    let t = table_of(mv);
    assert forall|op: RuntimeOp|
        mv.lookup_function(op.name()) == Some(#[trigger] t.target(op)) && t.target(op)
            < mv.funcs.len() by {
        lemma_first_named(mv.funcs, op.name(), 0);
        match op {
            RuntimeOp::Globalify => {},
            RuntimeOp::Deglobalify => {},
            RuntimeOp::CheckIfGlobal => {},
            RuntimeOp::LoadInt8 => {},
            RuntimeOp::LoadInt32 => {},
            RuntimeOp::LoadInt64 => {},
            RuntimeOp::LoadFloat32 => {},
            RuntimeOp::LoadPtr => {},
            RuntimeOp::LoadVector => {},
            RuntimeOp::StoreInt8 => {},
            RuntimeOp::StoreInt32 => {},
            RuntimeOp::StoreInt64 => {},
            RuntimeOp::StoreFloat32 => {},
            RuntimeOp::StorePtr => {},
            RuntimeOp::StoreVector => {},
        }
    }
}

/// After the lowering pass, no function other than the runtime functions
/// holds a Load or a Store that the module held before: every such
/// instruction has been erased. What is left of these opcodes was put there
/// by the pass to bridge a vector through memory.
pub proof fn lemma_lowering_replaces_loads_and_stores(mv: ModuleView)
    requires
        mv.wf(),
        lowering(mv) is Ok,
    ensures
        ({
            let out = lowering(mv)->Ok_0;
            &&& out.wf()
            &&& out.extends(mv)
            &&& forall|f: int, j: int, q: int|
                0 <= f < out.funcs.len() && !is_runtime_name(out.funcs[f].name) && 0 <= j
                    < out.funcs[f].blocks.len() && 0 <= q
                    < out.blocks[out.funcs[f].blocks[j] as int].insts.len() ==> {
                    let id = #[trigger] out.blocks[out.funcs[f].blocks[j] as int].insts[q];
                    id < mv.insts.len() ==> out.insts[id as int].op != Opcode::Load
                        && out.insts[id as int].op != Opcode::Store
                }
        }),
{
    let t = resolved(mv)->Ok_0;
    lemma_resolved_fits(mv);
    lemma_lowered_functions(mv, t, 0, mv.funcs.len(), mv.insts.len());
    let out = lowering(mv)->Ok_0;
    assert forall|f: int, j: int, q: int|
        0 <= f < out.funcs.len() && !is_runtime_name(out.funcs[f].name) && 0 <= j
            < out.funcs[f].blocks.len() && 0 <= q
            < out.blocks[out.funcs[f].blocks[j] as int].insts.len() implies {
        let id = #[trigger] out.blocks[out.funcs[f].blocks[j] as int].insts[q];
        id < mv.insts.len() ==> out.insts[id as int].op != Opcode::Load && out.insts[id as int].op
            != Opcode::Store
    } by {
        let b = out.funcs[f].blocks[j];
        assert(settled(out, mv.insts.len(), b, out.blocks[b as int].insts.len() as int));
    }
}

/// With the runtime functions declared as the runtime library has them, the
/// lowering pass keeps the basic value category of every use: each operand
/// of an instruction that is still live afterwards is a pointer, an
/// integer, a floating-point number or a vector exactly if it was one
/// before.
pub proof fn lemma_lowering_keeps_categories(mv: ModuleView)
    requires
        mv.wf(),
        lowering(mv) is Ok,
        typed(mv, resolved(mv)->Ok_0),
        typed_insts(mv),
    ensures
        keeps_categories(lowering(mv)->Ok_0, mv),
{
    let t = resolved(mv)->Ok_0;
    lemma_resolved_fits(mv);
    lemma_lowered_functions(mv, t, 0, mv.funcs.len(), mv.insts.len());
}

/// True when no instruction that is live in `later` bridges through
/// memory unless it did so in `earlier`.
pub open spec fn calm(later: ModuleView, earlier: ModuleView) -> bool {
    forall|i: int|
        0 <= i < earlier.insts.len() && !(#[trigger] later.insts[i]).erased && bridges_memory(
            later,
            i as usize,
        ) ==> bridges_memory(earlier, i as usize)
}

/// True when, from position `from` of block `b` on, no instruction bridges
/// through memory when it is rewritten.
pub open spec fn plain_from(mv: ModuleView, b: usize, from: int) -> bool {
    forall|q: int|
        from <= q < mv.blocks[b as int].insts.len() ==> !bridges_memory(
            mv,
            #[trigger] mv.blocks[b as int].insts[q],
        )
}

/// True when, before position `upto` of block `b`, there is no Load, no
/// Store and no Alloca.
pub open spec fn clear_to(mv: ModuleView, b: usize, upto: int) -> bool {
    forall|q: int|
        0 <= q < upto && q < mv.blocks[b as int].insts.len() ==> !mv.insts[(
        #[trigger] mv.blocks[b as int].insts[q]) as int].op.is_memory_op()
}

proof fn lemma_step_calm(cur: ModuleView, t: RuntimeTable, block: usize, pos: int)
    requires
        cur.wf(),
        t.fits(cur),
        block < cur.blocks.len(),
        0 <= pos < cur.blocks[block as int].insts.len(),
        rewritten(cur, t, block, pos) is Ok,
        !bridges_memory(cur, cur.blocks[block as int].insts[pos]),
    ensures
        calm(rewritten(cur, t, block, pos)->Ok_0, cur),
{
    reveal(ModuleView::wf);
    let next = rewritten(cur, t, block, pos)->Ok_0;
    let id = cur.blocks[block as int].insts[pos];
    lemma_rewritten_step(cur, t, block, pos);
    if cur.insts[id as int].op.is_memory_op() {
        assert(!(replacement_ty(cur, t, id) is Vector)) by {
            reveal(rewritten);
        }
        assert forall|i: int|
            0 <= i < cur.insts.len() && !(#[trigger] next.insts[i]).erased && bridges_memory(
                next,
                i as usize,
            ) implies bridges_memory(cur, i as usize) by {
            assert(!cur.insts[i].erased);
            assert(next.insts[i].op == cur.insts[i].op);
            if cur.insts[i].op == Opcode::Store {
                assert(cur.insts[i].operands.len() == next.insts[i].operands.len());
                if cur.insts[i].operands.len() > 0 {
                    let o = cur.insts[i].operands[0];
                    let o2 = next.insts[i].operands[0];
                    assert(cur.valid_operand(o));
                    if o2 == o {
                        match o {
                            Operand::Value(Value::Inst(j)) => {
                                assert(next.insts[j as int].ty == cur.insts[j as int].ty);
                            },
                            _ => {},
                        }
                    }
                }
            }
        }
    } else {
        assert(next == cur);
    }
}

proof fn lemma_calm_trans(a: ModuleView, b: ModuleView, c: ModuleView)
    requires
        b.extends(a),
        c.extends(b),
        calm(b, a),
        calm(c, b),
    ensures
        calm(c, a),
{
    assert forall|i: int|
        0 <= i < a.insts.len() && !(#[trigger] c.insts[i]).erased && bridges_memory(
            c,
            i as usize,
        ) implies bridges_memory(a, i as usize) by {
        assert(!b.insts[i].erased);
        assert(bridges_memory(b, i as usize));
    }
}

proof fn lemma_plain_stable(cur: ModuleView, out: ModuleView, b: usize)
    requires
        cur.wf(),
        out.wf(),
        b < cur.blocks.len(),
        out.extends(cur),
        calm(out, cur),
        out.blocks[b as int] == cur.blocks[b as int],
        plain_from(cur, b, 0),
    ensures
        plain_from(out, b, 0),
{
    reveal(ModuleView::wf);
    assert forall|q: int| 0 <= q < out.blocks[b as int].insts.len() implies !bridges_memory(
        out,
        #[trigger] out.blocks[b as int].insts[q],
    ) by {
        let id = cur.blocks[b as int].insts[q];
        assert(id < cur.insts.len());
        assert(!out.insts[id as int].erased);
    }
}

proof fn lemma_clear_stable(cur: ModuleView, out: ModuleView, b: usize)
    requires
        cur.wf(),
        b < cur.blocks.len(),
        out.extends(cur),
        out.blocks[b as int] == cur.blocks[b as int],
        clear_to(cur, b, cur.blocks[b as int].insts.len() as int),
    ensures
        clear_to(out, b, out.blocks[b as int].insts.len() as int),
{
    reveal(ModuleView::wf);
    assert forall|q: int| 0 <= q < out.blocks[b as int].insts.len() implies !out.insts[(
    #[trigger] out.blocks[b as int].insts[q]) as int].op.is_memory_op() by {
        let id = cur.blocks[b as int].insts[q];
        assert(id < cur.insts.len());
        assert(out.insts[id as int].op == cur.insts[id as int].op);
    }
}

proof fn lemma_plain_from(cur: ModuleView, t: RuntimeTable, block: usize, pos: int, count: nat)
    requires
        cur.wf(),
        t.fits(cur),
        block < cur.blocks.len(),
        0 <= pos,
        pos + count == cur.blocks[block as int].insts.len(),
        clear_to(cur, block, pos),
        plain_from(cur, block, pos),
        lowered_from(cur, t, block, pos, count) is Ok,
    ensures
        ({
            let out = lowered_from(cur, t, block, pos, count)->Ok_0;
            &&& out.wf()
            &&& out.extends(cur)
            &&& calm(out, cur)
            &&& clear_to(out, block, out.blocks[block as int].insts.len() as int)
            &&& forall|b: int|
                0 <= b < cur.blocks.len() && b != block ==> #[trigger] out.blocks[b]
                    == cur.blocks[b]
        }),
    decreases count,
{
    reveal(ModuleView::wf);
    if count > 0 {
        let next = rewritten(cur, t, block, pos)->Ok_0;
        let before = cur.blocks[block as int].insts;
        let after = next.blocks[block as int].insts;
        let stride = 1 + after.len() - before.len();
        let id = before[pos];
        lemma_rewritten_step(cur, t, block, pos);
        lemma_step_calm(cur, t, block, pos);
        assert(id < cur.insts.len());
        assert forall|q: int| 0 <= q < pos + stride && q < after.len() implies !next.insts[(
        #[trigger] next.blocks[block as int].insts[q]) as int].op.is_memory_op() by {
            if q < pos {
                assert(after[q] == before[q]);
                assert(before[q] < cur.insts.len());
                assert(next.insts[before[q] as int].op == cur.insts[before[q] as int].op);
            } else {
                assert(next.insts[id as int].op == cur.insts[id as int].op);
            }
        }
        assert forall|q: int| pos + stride <= q < after.len() implies !bridges_memory(
            next,
            #[trigger] next.blocks[block as int].insts[q],
        ) by {
            let other = before[q - stride + 1];
            assert(after[q] == other);
            assert(other < cur.insts.len());
            assert(!next.insts[other as int].erased);
            assert(!bridges_memory(cur, other));
        }
        let out = lowered_from(next, t, block, pos + stride, (count - 1) as nat)->Ok_0;
        lemma_plain_from(next, t, block, pos + stride, (count - 1) as nat);
        lemma_calm_trans(cur, next, out);
    }
}

proof fn lemma_plain_blocks(cur: ModuleView, t: RuntimeTable, blocks: Seq<usize>, k: int)
    requires
        cur.wf(),
        t.fits(cur),
        0 <= k <= blocks.len(),
        forall|j: int| 0 <= j < blocks.len() ==> (#[trigger] blocks[j]) < cur.blocks.len(),
        forall|j: int, l: int| 0 <= j < l < blocks.len() ==> #[trigger] blocks[j] != #[trigger] blocks[l],
        forall|j: int|
            0 <= j < k ==> clear_to(
                cur,
                #[trigger] blocks[j],
                cur.blocks[blocks[j] as int].insts.len() as int,
            ),
        forall|j: int| k <= j < blocks.len() ==> plain_from(cur, #[trigger] blocks[j], 0),
        lowered_blocks(cur, t, blocks, k) is Ok,
    ensures
        ({
            let out = lowered_blocks(cur, t, blocks, k)->Ok_0;
            &&& out.wf()
            &&& out.extends(cur)
            &&& calm(out, cur)
            &&& forall|j: int|
                0 <= j < blocks.len() ==> clear_to(
                    out,
                    #[trigger] blocks[j],
                    out.blocks[blocks[j] as int].insts.len() as int,
                )
            &&& forall|b: int|
                0 <= b < cur.blocks.len() && (forall|j: int|
                    0 <= j < blocks.len() ==> #[trigger] blocks[j] != b) ==> #[trigger] out.blocks[b]
                    == cur.blocks[b]
        }),
    decreases blocks.len() - k,
{
    reveal(ModuleView::wf);
    if k < blocks.len() {
        let block = blocks[k];
        let next = lowered_block(cur, t, block)->Ok_0;
        assert(plain_from(cur, blocks[k], 0));
        lemma_plain_from(cur, t, block, 0, cur.blocks[block as int].insts.len());
        assert forall|j: int| 0 <= j < k + 1 implies clear_to(
            next,
            #[trigger] blocks[j],
            next.blocks[blocks[j] as int].insts.len() as int,
        ) by {
            if j < k {
                assert(blocks[j] != blocks[k]);
                lemma_clear_stable(cur, next, blocks[j]);
            }
        }
        assert forall|j: int| k + 1 <= j < blocks.len() implies plain_from(
            next,
            #[trigger] blocks[j],
            0,
        ) by {
            assert(blocks[k] != blocks[j]);
            lemma_plain_stable(cur, next, blocks[j]);
        }
        let out = lowered_blocks(next, t, blocks, k + 1)->Ok_0;
        lemma_plain_blocks(next, t, blocks, k + 1);
        lemma_calm_trans(cur, next, out);
        assert forall|b: int|
            0 <= b < cur.blocks.len() && (forall|j: int|
                0 <= j < blocks.len() ==> #[trigger] blocks[j] != b) implies #[trigger] out.blocks[b]
            == cur.blocks[b] by {
            assert(blocks[k] != b);
            assert(next.blocks[b] == cur.blocks[b]);
        }
    }
}

/// True when, in the functions from `from` on that are not runtime
/// functions, no instruction bridges through memory when it is rewritten:
/// none is an Alloca, and none loads or stores a vector.
pub open spec fn plain_functions(mv: ModuleView, from: int) -> bool {
    forall|f: int, j: int|
        from <= f < mv.funcs.len() && !is_runtime_name(mv.funcs[f].name) && 0 <= j
            < mv.funcs[f].blocks.len() ==> plain_from(mv, #[trigger] mv.funcs[f].blocks[j], 0)
}

/// True when the functions before `upto` that are not runtime functions
/// hold no Load, no Store and no Alloca.
pub open spec fn clear_functions(mv: ModuleView, upto: int) -> bool {
    forall|f: int, j: int|
        0 <= f < upto && f < mv.funcs.len() && !is_runtime_name(mv.funcs[f].name) && 0 <= j
            < mv.funcs[f].blocks.len() ==> clear_to(
            mv,
            #[trigger] mv.funcs[f].blocks[j],
            mv.blocks[mv.funcs[f].blocks[j] as int].insts.len() as int,
        )
}

proof fn lemma_plain_functions(cur: ModuleView, t: RuntimeTable, f: int, count: nat)
    requires
        cur.wf(),
        t.fits(cur),
        0 <= f,
        f + count == cur.funcs.len(),
        clear_functions(cur, f),
        plain_functions(cur, f),
        lowered_functions(cur, t, f, count) is Ok,
    ensures
        ({
            let out = lowered_functions(cur, t, f, count)->Ok_0;
            &&& out.wf()
            &&& out.extends(cur)
            &&& clear_functions(out, out.funcs.len() as int)
        }),
    decreases count,
{
    reveal(ModuleView::wf);
    if count > 0 {
        let next = lowered_function(cur, t, f)->Ok_0;
        if is_runtime_name(cur.funcs[f].name) {
            assert(next == cur);
        } else {
            assert forall|j: int| 0 <= j < cur.funcs[f].blocks.len() implies plain_from(
                cur,
                #[trigger] cur.funcs[f].blocks[j],
                0,
            ) by {}
            lemma_plain_blocks(cur, t, cur.funcs[f].blocks, 0);
        }
        assert forall|g: int, j: int|
            0 <= g < next.funcs.len() && !is_runtime_name(next.funcs[g].name) && 0 <= j
                < next.funcs[g].blocks.len() && g != f implies next.blocks[(
        #[trigger] next.funcs[g].blocks[j]) as int] == cur.blocks[cur.funcs[g].blocks[j] as int] by {
            let b = cur.funcs[g].blocks[j];
            if !is_runtime_name(cur.funcs[f].name) {
                assert(cur.blocks[b as int].func == g);
                assert forall|l: int|
                    0 <= l < cur.funcs[f].blocks.len() implies #[trigger] cur.funcs[f].blocks[l]
                    != b by {
                    assert(cur.blocks[cur.funcs[f].blocks[l] as int].func == f);
                }
            }
        }
        assert(clear_functions(next, f + 1)) by {
            assert forall|g: int, j: int|
                0 <= g < f + 1 && g < next.funcs.len() && !is_runtime_name(next.funcs[g].name) && 0
                    <= j < next.funcs[g].blocks.len() implies clear_to(
                next,
                #[trigger] next.funcs[g].blocks[j],
                next.blocks[next.funcs[g].blocks[j] as int].insts.len() as int,
            ) by {
                if g < f {
                    let b = cur.funcs[g].blocks[j];
                    assert(next.blocks[next.funcs[g].blocks[j] as int] == cur.blocks[b as int]);
                    lemma_clear_stable(cur, next, b);
                }
            }
        }
        assert(plain_functions(next, f + 1)) by {
            assert forall|g: int, j: int|
                f + 1 <= g < next.funcs.len() && !is_runtime_name(next.funcs[g].name) && 0 <= j
                    < next.funcs[g].blocks.len() implies plain_from(
                next,
                #[trigger] next.funcs[g].blocks[j],
                0,
            ) by {
                let b = cur.funcs[g].blocks[j];
                assert(next.blocks[next.funcs[g].blocks[j] as int] == cur.blocks[b as int]);
                assert(plain_from(cur, b, 0));
                if !is_runtime_name(cur.funcs[f].name) {
                    lemma_plain_stable(cur, next, b);
                }
            }
        }
        lemma_plain_functions(next, t, f + 1, (count - 1) as nat);
    }
}

/// Where no function other than the runtime functions holds an Alloca or
/// loads or stores a vector, the lowering pass leaves no Load, no Store and
/// no Alloca in any function other than the runtime functions.
pub proof fn lemma_lowering_clears_memory_ops(mv: ModuleView)
    requires
        mv.wf(),
        lowering(mv) is Ok,
        plain_functions(mv, 0),
    ensures
        ({
            let out = lowering(mv)->Ok_0;
            forall|f: int, j: int, q: int|
                0 <= f < out.funcs.len() && !is_runtime_name(out.funcs[f].name) && 0 <= j
                    < out.funcs[f].blocks.len() && 0 <= q
                    < out.blocks[out.funcs[f].blocks[j] as int].insts.len() ==> !out.insts[(
                #[trigger] out.blocks[out.funcs[f].blocks[j] as int].insts[q]) as int].op.is_memory_op()
        }),
{
    let t = resolved(mv)->Ok_0;
    lemma_resolved_fits(mv);
    lemma_plain_functions(mv, t, 0, mv.funcs.len());
    let out = lowering(mv)->Ok_0;
    assert forall|f: int, j: int, q: int|
        0 <= f < out.funcs.len() && !is_runtime_name(out.funcs[f].name) && 0 <= j
            < out.funcs[f].blocks.len() && 0 <= q
            < out.blocks[out.funcs[f].blocks[j] as int].insts.len() implies !out.insts[(
    #[trigger] out.blocks[out.funcs[f].blocks[j] as int].insts[q]) as int].op.is_memory_op() by {
        let b = out.funcs[f].blocks[j];
        assert(clear_to(out, b, out.blocks[b as int].insts.len() as int));
    }
}

/// Every Alloca is handed to `globalify`, whether anything uses it or not:
/// the call stands immediately behind the Alloca and takes the address of
/// the slot, every earlier use of the Alloca has become a use of the call,
/// and the Alloca itself stays.
pub proof fn lemma_alloca_is_globalified(mv: ModuleView, t: RuntimeTable, block: usize, pos: int)
    requires
        mv.wf(),
        t.fits(mv),
        block < mv.blocks.len(),
        0 <= pos < mv.blocks[block as int].insts.len(),
        mv.insts[mv.blocks[block as int].insts[pos] as int].op == Opcode::Alloca,
        rewritten(mv, t, block, pos) is Ok,
    ensures
        ({
            let out = rewritten(mv, t, block, pos)->Ok_0;
            let id = mv.blocks[block as int].insts[pos];
            let n = mv.insts.len() as usize;
            &&& out.insts.len() == n + 1
            &&& out.blocks[block as int].insts == mv.blocks[block as int].insts.insert(pos + 1, n)
            &&& out.insts[n as int] == call_view(
                block,
                mv.funcs[t.globalify as int].ret,
                seq![inst_operand(id), func_operand(t.globalify)],
            )
            &&& !out.insts[id as int].erased
            &&& out.insts[id as int].op == Opcode::Alloca
            &&& forall|i: int, k: int|
                0 <= i < n && 0 <= k < mv.insts[i].operands.len() ==> #[trigger] out.insts[i].operands[k]
                    == redirected(mv.insts[i].operands[k], id, n)
        }),
{
    reveal(rewritten);
    lemma_listed(mv, block, pos);
    let id = mv.blocks[block as int].insts[pos];
    let n = mv.insts.len() as usize;
    let call = call_view(
        block,
        mv.funcs[t.globalify as int].ret,
        seq![inst_operand(id), func_operand(t.globalify)],
    );
    let m1 = mv.inserted(block, pos + 1, call);
    lemma_inserted_facts(mv, block, pos + 1, call);
    let m2 = m1.uses_replaced(id, n);
    let out = m2.operand_set(n, 0, inst_operand(id));
    assert(out == rewritten(mv, t, block, pos)->Ok_0);
    assert(m2.insts[n as int].operands == seq![inst_operand(n), func_operand(t.globalify)]);
    assert(out.insts[n as int].operands == call.operands);
    assert forall|i: int, k: int|
        0 <= i < n && 0 <= k < mv.insts[i].operands.len() implies #[trigger] out.insts[i].operands[k]
        == redirected(mv.insts[i].operands[k], id, n) by {
        assert(m1.insts[i] == mv.insts[i]);
    }
}

/// A vector that is stored and a vector of the same type that is loaded are
/// bridged through memory alike: the store call and the load call are told
/// the same size of one element and the same number of elements, the spill
/// slot has the type of the vector, and the Load that follows the load call
/// produces a vector of that type.
pub proof fn lemma_vector_bridges_agree(
    storing: ModuleView,
    store_block: usize,
    store_pos: int,
    loading: ModuleView,
    load_block: usize,
    load_pos: int,
    t: RuntimeTable,
    vt: VecTy,
)
    requires
        storing.wf(),
        loading.wf(),
        t.fits(storing),
        t.fits(loading),
        store_block < storing.blocks.len(),
        0 <= store_pos < storing.blocks[store_block as int].insts.len(),
        load_block < loading.blocks.len(),
        0 <= load_pos < loading.blocks[load_block as int].insts.len(),
        storing.insts[storing.blocks[store_block as int].insts[store_pos] as int].op
            == Opcode::Store,
        stored_ty(storing, storing.blocks[store_block as int].insts[store_pos]) == Ty::Vector(vt),
        loading.insts[loading.blocks[load_block as int].insts[load_pos] as int].op == Opcode::Load,
        loading.insts[loading.blocks[load_block as int].insts[load_pos] as int].ty == Ty::Vector(
            vt,
        ),
        loading.funcs[t.load_vector as int].ret is Pointer,
        rewritten(storing, t, store_block, store_pos) is Ok,
        rewritten(loading, t, load_block, load_pos) is Ok,
    ensures
        ({
            let stored = rewritten(storing, t, store_block, store_pos)->Ok_0;
            let loaded = rewritten(loading, t, load_block, load_pos)->Ok_0;
            let slot = stored.insts[storing.insts.len() as int];
            let store_call = stored.insts[storing.insts.len() as int + 3];
            let load_call = loaded.insts[loading.insts.len() as int];
            let whole = loaded.insts[loading.insts.len() as int + 1];
            &&& slot.op == Opcode::Alloca && slot.slot == Ty::Vector(vt)
            &&& store_call.op == Opcode::Call && store_call.operands.len() == 5
            &&& store_call.operands[4] == func_operand(t.store_vector)
            &&& load_call.op == Opcode::Call && load_call.operands.len() == 4
            &&& load_call.operands[3] == func_operand(t.load_vector)
            &&& store_call.operands[2] == int64_operand(vt.lane_bytes)
            &&& store_call.operands[2] == load_call.operands[1]
            &&& store_call.operands[3] == int64_operand(vt.lanes as u64)
            &&& store_call.operands[3] == load_call.operands[2]
            &&& whole.op == Opcode::Load && whole.ty == Ty::Vector(vt)
            &&& whole.operands == seq![inst_operand(loading.insts.len() as usize)]
        }),
{
    reveal(rewritten);
    lemma_listed(storing, store_block, store_pos);
    lemma_listed(loading, load_block, load_pos);
}

/// True when block `b` holds no Load, no Store and no Alloca from position
/// `from` on.
pub open spec fn quiet_from(mv: ModuleView, b: usize, from: int) -> bool {
    forall|q: int|
        from <= q < mv.blocks[b as int].insts.len() ==> !mv.insts[(
        #[trigger] mv.blocks[b as int].insts[q]) as int].op.is_memory_op()
}

/// True when no function from `from` on, other than the runtime functions,
/// holds a Load, a Store or an Alloca.
pub open spec fn quiet_functions(mv: ModuleView, from: int) -> bool {
    forall|f: int, j: int|
        from <= f < mv.funcs.len() && !is_runtime_name(mv.funcs[f].name) && 0 <= j
            < mv.funcs[f].blocks.len() ==> quiet_from(mv, #[trigger] mv.funcs[f].blocks[j], 0)
}

proof fn lemma_unchanged_from(cur: ModuleView, t: RuntimeTable, block: usize, pos: int, count: nat)
    requires
        cur.wf(),
        t.fits(cur),
        block < cur.blocks.len(),
        0 <= pos,
        pos + count == cur.blocks[block as int].insts.len(),
        lowered_from(cur, t, block, pos, count) is Ok,
    ensures
        ({
            let out = lowered_from(cur, t, block, pos, count)->Ok_0;
            &&& out.wf()
            &&& out.extends(cur)
            &&& (out.insts.len() == cur.insts.len() <==> quiet_from(cur, block, pos))
            &&& (out.insts.len() == cur.insts.len() ==> out == cur)
        }),
    decreases count,
{
    if count > 0 {
        let next = rewritten(cur, t, block, pos)->Ok_0;
        let id = cur.blocks[block as int].insts[pos];
        lemma_rewritten_step(cur, t, block, pos);
        let before = cur.blocks[block as int].insts;
        let stride = 1 + next.blocks[block as int].insts.len() - before.len();
        lemma_unchanged_from(next, t, block, pos + stride, (count - 1) as nat);
        if cur.insts[id as int].op.is_memory_op() {
            assert(!quiet_from(cur, block, pos));
        } else {
            assert(next == cur);
            assert(quiet_from(cur, block, pos) <==> quiet_from(cur, block, pos + 1)) by {
                if quiet_from(cur, block, pos + 1) {
                    assert forall|q: int|
                        pos <= q < cur.blocks[block as int].insts.len() implies !cur.insts[(
                    #[trigger] cur.blocks[block as int].insts[q]) as int].op.is_memory_op() by {}
                }
            }
        }
    }
}

proof fn lemma_unchanged_blocks(cur: ModuleView, t: RuntimeTable, blocks: Seq<usize>, k: int)
    requires
        cur.wf(),
        t.fits(cur),
        0 <= k <= blocks.len(),
        forall|j: int| 0 <= j < blocks.len() ==> (#[trigger] blocks[j]) < cur.blocks.len(),
        lowered_blocks(cur, t, blocks, k) is Ok,
    ensures
        ({
            let out = lowered_blocks(cur, t, blocks, k)->Ok_0;
            &&& out.wf()
            &&& out.extends(cur)
            &&& (out.insts.len() == cur.insts.len() <==> forall|j: int|
                k <= j < blocks.len() ==> quiet_from(cur, #[trigger] blocks[j], 0))
            &&& (out.insts.len() == cur.insts.len() ==> out == cur)
        }),
    decreases blocks.len() - k,
{
    if k < blocks.len() {
        let next = lowered_block(cur, t, blocks[k])->Ok_0;
        lemma_unchanged_from(cur, t, blocks[k], 0, cur.blocks[blocks[k] as int].insts.len());
        lemma_unchanged_blocks(next, t, blocks, k + 1);
        if next.insts.len() == cur.insts.len() {
            assert(next == cur);
        } else {
            assert(!quiet_from(cur, blocks[k], 0));
        }
    }
}

proof fn lemma_unchanged_functions(cur: ModuleView, t: RuntimeTable, f: int, count: nat)
    requires
        cur.wf(),
        t.fits(cur),
        0 <= f,
        f + count == cur.funcs.len(),
        lowered_functions(cur, t, f, count) is Ok,
    ensures
        ({
            let out = lowered_functions(cur, t, f, count)->Ok_0;
            &&& out.wf()
            &&& out.extends(cur)
            &&& (out.insts.len() == cur.insts.len() <==> quiet_functions(cur, f))
            &&& (out.insts.len() == cur.insts.len() ==> out == cur)
        }),
    decreases count,
{
    reveal(ModuleView::wf);
    if count > 0 {
        let next = lowered_function(cur, t, f)->Ok_0;
        if !is_runtime_name(cur.funcs[f].name) {
            lemma_unchanged_blocks(cur, t, cur.funcs[f].blocks, 0);
        }
        lemma_unchanged_functions(next, t, f + 1, (count - 1) as nat);
        if next.insts.len() == cur.insts.len() {
            assert(next == cur);
            assert(quiet_functions(cur, f) <==> quiet_functions(cur, f + 1)) by {
                let here = forall|j: int|
                    0 <= j < cur.funcs[f].blocks.len() ==> quiet_from(
                        cur,
                        #[trigger] cur.funcs[f].blocks[j],
                        0,
                    );
                if quiet_functions(cur, f + 1) && (is_runtime_name(cur.funcs[f].name) || here) {
                    assert(quiet_functions(cur, f));
                }
            }
        } else {
            assert(!quiet_functions(cur, f));
        }
    }
}

/// The lowering pass changes a module exactly if a function other than the
/// runtime functions holds a Load, a Store or an Alloca; where none does,
/// the module is left as it is.
pub proof fn lemma_lowering_changes_memory_ops_only(mv: ModuleView)
    requires
        mv.wf(),
        lowering(mv) is Ok,
    ensures
        lowering(mv)->Ok_0.insts.len() > mv.insts.len() <==> !quiet_functions(mv, 0),
        quiet_functions(mv, 0) ==> lowering(mv)->Ok_0 == mv,
{
    let t = resolved(mv)->Ok_0;
    lemma_resolved_fits(mv);
    lemma_unchanged_functions(mv, t, 0, mv.funcs.len());
}

} // verus!
