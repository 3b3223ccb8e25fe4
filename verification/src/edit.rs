//! The primitive changes that a pass makes to a module, what each of them
//! does to the model, and why each of them keeps a module well-formed.

use vstd::prelude::*;
use crate::model::{BlockView, InstView, ModuleView};
use crate::types::{inst_operand, Opcode, Operand, Ty, Value};

verus! {

/// The operand after every use of `from` has become a use of `to`.
pub open spec fn redirected(o: Operand, from: usize, to: usize) -> Operand {
    if o == inst_operand(from) {
        inst_operand(to)
    } else {
        o
    }
}

/// One primitive change of a module. A pass records every change it makes,
/// in order, so that the same changes can be made elsewhere.
#[derive(Debug, PartialEq, Eq)]
pub enum Edit {
    /// A new instruction takes the next free arena slot and position `pos`
    /// of `block`; what stood at `pos` and behind moves back by one.
    Insert { block: usize, pos: usize, op: Opcode, ty: Ty, slot: Ty, operands: Vec<Operand> },
    /// Every operand that names the result of `from` names that of `to`.
    ReplaceUses { from: usize, to: usize },
    /// Operand `index` of `inst` becomes `operand`.
    SetOperand { inst: usize, index: usize, operand: Operand },
    /// The instruction at position `pos` of `block` leaves the program.
    Erase { block: usize, pos: usize },
}

impl ModuleView {
    /// The module with a new instruction at position `pos` of `block`.
    pub open spec fn inserted(self, block: usize, pos: int, inst: InstView) -> ModuleView {
        ModuleView {
            insts: self.insts.push(inst),
            blocks: self.blocks.update(
                block as int,
                BlockView {
                    insts: self.blocks[block as int].insts.insert(pos, self.insts.len() as usize),
                    ..self.blocks[block as int]
                },
            ),
            ..self
        }
    }

    /// The module in which every use of `from` has become a use of `to`.
    pub open spec fn uses_replaced(self, from: usize, to: usize) -> ModuleView {
        ModuleView {
            insts: self.insts.map_values(
                |x: InstView|
                    InstView {
                        operands: x.operands.map_values(|o: Operand| redirected(o, from, to)),
                        ..x
                    },
            ),
            ..self
        }
    }

    /// The module in which operand `k` of instruction `i` is `o`.
    pub open spec fn operand_set(self, i: usize, k: int, o: Operand) -> ModuleView {
        ModuleView {
            insts: self.insts.update(
                i as int,
                InstView {
                    operands: self.insts[i as int].operands.update(k, o),
                    ..self.insts[i as int]
                },
            ),
            ..self
        }
    }

    /// The module without the instruction at position `pos` of `block`.
    pub open spec fn with_erased(self, block: usize, pos: int) -> ModuleView {
        let id = self.blocks[block as int].insts[pos];
        ModuleView {
            insts: self.insts.update(
                id as int,
                InstView { erased: true, ..self.insts[id as int] },
            ),
            blocks: self.blocks.update(
                block as int,
                BlockView {
                    insts: self.blocks[block as int].insts.remove(pos),
                    ..self.blocks[block as int]
                },
            ),
            ..self
        }
    }

    /// True when instruction `id` has no use in a live instruction other
    /// than itself.
    pub open spec fn unused(self, id: usize) -> bool {
        forall|i: int, k: int|
            0 <= i < self.insts.len() && !self.insts[i].erased && i != id && 0 <= k
                < self.insts[i].operands.len() ==> #[trigger] self.insts[i].operands[k]
                != inst_operand(id)
    }

    /// True when the edit can be made: what it names exists, and an erased
    /// instruction has no use left.
    pub open spec fn admits(self, e: Edit) -> bool {
        match e {
            Edit::Insert { block, pos, op, ty, slot, operands } => {
                &&& block < self.blocks.len()
                &&& pos <= self.blocks[block as int].insts.len()
                &&& self.insts.len() < usize::MAX
                &&& forall|k: int|
                    0 <= k < operands@.len() ==> self.valid_operand(#[trigger] operands@[k])
                        && self.local_operand(self.blocks[block as int].func, operands@[k])
            },
            Edit::ReplaceUses { from, to } => {
                &&& from < self.insts.len()
                &&& to < self.insts.len()
                &&& !self.insts[to as int].erased
                &&& self.home(to as int) == self.home(from as int)
            },
            Edit::SetOperand { inst, index, operand } => {
                &&& inst < self.insts.len()
                &&& index < self.insts[inst as int].operands.len()
                &&& self.valid_operand(operand)
                &&& self.local_operand(self.home(inst as int), operand)
            },
            Edit::Erase { block, pos } => {
                &&& block < self.blocks.len()
                &&& pos < self.blocks[block as int].insts.len()
                &&& self.unused(self.blocks[block as int].insts[pos as int])
            },
        }
    }

    /// The module after one edit.
    pub open spec fn apply(self, e: Edit) -> ModuleView {
        match e {
            Edit::Insert { block, pos, op, ty, slot, operands } => self.inserted(
                block,
                pos as int,
                InstView { op, ty, slot, block, erased: false, operands: operands@ },
            ),
            Edit::ReplaceUses { from, to } => self.uses_replaced(from, to),
            Edit::SetOperand { inst, index, operand } => self.operand_set(
                inst,
                index as int,
                operand,
            ),
            Edit::Erase { block, pos } => self.with_erased(block, pos as int),
        }
    }

    /// The module after a sequence of edits, made in order.
    pub open spec fn replay(self, edits: Seq<Edit>) -> ModuleView
        decreases edits.len(),
    {
        if edits.len() == 0 {
            self
        } else {
            self.replay(edits.drop_last()).apply(edits.last())
        }
    }

    /// True when the edits can be made one after the other: each is
    /// admitted by the module that the edits before it have led to.
    pub open spec fn admits_all(self, edits: Seq<Edit>) -> bool
        decreases edits.len(),
    {
        edits.len() == 0 || (self.admits_all(edits.drop_last()) && self.replay(
            edits.drop_last(),
        ).admits(edits.last()))
    }
}

/// True when a pass that found the module as `before`, with the edits
/// `before_log` on record, has left it as `after` and the record as
/// `after_log`: the module has grown out of what it was, the record has
/// grown exactly if instructions were added, and the record still leads
/// from wherever it started to the module, by edits that can be made one
/// after the other.
pub open spec fn journaled(
    before: ModuleView,
    before_log: Seq<Edit>,
    after: ModuleView,
    after_log: Seq<Edit>,
) -> bool {
    &&& after.extends(before)
    &&& after_log.len() >= before_log.len()
    &&& (after_log.len() > before_log.len()) == (after.insts.len() > before.insts.len())
    &&& forall|start: ModuleView|
        before == #[trigger] start.replay(before_log) ==> after == start.replay(after_log) && (
        start.admits_all(before_log) ==> start.admits_all(after_log))
}

/// An operand that exists and stays within a function still does so when a
/// new instruction has been put into the module.
pub proof fn lemma_operand_after_insert(
    mv: ModuleView,
    block: usize,
    pos: int,
    inst: InstView,
    func: usize,
    o: Operand,
)
    requires
        mv.wf(),
        block < mv.blocks.len(),
        mv.valid_operand(o),
        mv.local_operand(func, o),
    ensures
        mv.inserted(block, pos, inst).valid_operand(o),
        mv.inserted(block, pos, inst).local_operand(func, o),
{
    reveal(ModuleView::wf);
    let out = mv.inserted(block, pos, inst);
    match o {
        Operand::Value(Value::Inst(j)) => {
            assert(out.insts[j as int] == mv.insts[j as int]);
            let b = mv.insts[j as int].block as int;
            assert(0 <= b < mv.blocks.len());
            assert(out.blocks[b].func == mv.blocks[b].func);
        },
        Operand::Block(b) => {
            assert(out.blocks[b as int].func == mv.blocks[b as int].func);
        },
        _ => {},
    }
}

/// What putting a new instruction into a well-formed module changes, and
/// what it keeps.
pub proof fn lemma_inserted_facts(mv: ModuleView, block: usize, pos: int, inst: InstView)
    requires
        mv.wf(),
        block < mv.blocks.len(),
        0 <= pos <= mv.blocks[block as int].insts.len(),
        mv.insts.len() < usize::MAX,
        inst.block == block,
        !inst.erased,
    ensures
        ({
            let out = mv.inserted(block, pos, inst);
            let n = mv.insts.len() as int;
            &&& out.insts.len() == n + 1
            &&& out.insts[n] == inst
            &&& out.funcs == mv.funcs
            &&& out.consts == mv.consts
            &&& out.globals == mv.globals
            &&& out.blocks.len() == mv.blocks.len()
            &&& out.blocks[block as int].insts == mv.blocks[block as int].insts.insert(
                pos,
                n as usize,
            )
            &&& out.blocks[block as int].func == mv.blocks[block as int].func
            &&& out.home(n) == mv.blocks[block as int].func
            &&& out.valid_operand(inst_operand(n as usize))
            &&& out.local_operand(mv.blocks[block as int].func, inst_operand(n as usize))
            &&& forall|i: int| 0 <= i < n ==> #[trigger] out.insts[i] == mv.insts[i]
            &&& forall|i: int|
                0 <= i < n && !mv.insts[i].erased ==> #[trigger] out.home(i) == mv.home(i)
            &&& forall|b: int|
                0 <= b < mv.blocks.len() && b != block ==> #[trigger] out.blocks[b] == mv.blocks[b]
            &&& forall|o: Operand, func: usize|
                mv.valid_operand(o) && mv.local_operand(func, o) ==> #[trigger] out.valid_operand(o)
                    && #[trigger] out.local_operand(func, o)
        }),
{
    reveal(ModuleView::wf);
    let out = mv.inserted(block, pos, inst);
    let n = mv.insts.len() as int;
    assert forall|i: int| 0 <= i < n && !mv.insts[i].erased implies #[trigger] out.home(i)
        == mv.home(i) by {
        let b = mv.insts[i].block as int;
        assert(0 <= b < mv.blocks.len());
        assert(out.blocks[b].func == mv.blocks[b].func);
    }
    assert forall|o: Operand, func: usize|
        mv.valid_operand(o) && mv.local_operand(func, o) implies #[trigger] out.valid_operand(o)
        && #[trigger] out.local_operand(func, o) by {
        lemma_operand_after_insert(mv, block, pos, inst, func, o);
    }
}

/// A new instruction with valid operands keeps the module well-formed.
pub proof fn lemma_inserted_wf(mv: ModuleView, block: usize, pos: int, inst: InstView)
    requires
        mv.wf(),
        block < mv.blocks.len(),
        0 <= pos <= mv.blocks[block as int].insts.len(),
        mv.insts.len() < usize::MAX,
        inst.block == block,
        !inst.erased,
        forall|k: int|
            0 <= k < inst.operands.len() ==> mv.valid_operand(#[trigger] inst.operands[k])
                && mv.local_operand(mv.blocks[block as int].func, inst.operands[k]),
    ensures
        mv.inserted(block, pos, inst).wf(),
{
    reveal(ModuleView::wf);
    let out = mv.inserted(block, pos, inst);
    let n = mv.insts.len() as usize;
    let old_list = mv.blocks[block as int].insts;
    let new_list = out.blocks[block as int].insts;
    assert(out.funcs_wf());
    assert forall|b: int| 0 <= b < out.blocks.len() implies (#[trigger] out.blocks[b]).func
        < out.funcs.len() && out.funcs[out.blocks[b].func as int].blocks.contains(b as usize) by {
        assert(out.blocks[b].func == mv.blocks[b].func);
    }
    assert forall|i: int|
        0 <= i < out.insts.len() && !(#[trigger] out.insts[i]).erased implies out.insts[i].block
        < out.blocks.len() && out.blocks[out.insts[i].block as int].insts.contains(i as usize) by {
        if i < n {
            let b = mv.insts[i].block;
            assert(mv.blocks[b as int].insts.contains(i as usize));
            let p = choose|p: int|
                0 <= p < mv.blocks[b as int].insts.len() && mv.blocks[b as int].insts[p] == i;
            if b == block {
                let pp = if p < pos { p } else { p + 1 };
                assert(new_list[pp] == i);
            } else {
                assert(out.blocks[b as int].insts[p] == i);
            }
        } else {
            assert(new_list[pos] == n);
        }
    }
    assert forall|i: int| 0 <= i < out.insts.len() && !out.insts[i].erased implies out.home(i)
        == (if i < n {
        mv.home(i)
    } else {
        mv.blocks[block as int].func
    }) by {
        if i < n {
            let b = mv.insts[i].block as int;
            assert(0 <= b < mv.blocks.len());
            assert(out.blocks[b].func == mv.blocks[b].func);
        }
    }
    assert forall|i: int, k: int|
        0 <= i < out.insts.len() && !out.insts[i].erased && 0 <= k
            < out.insts[i].operands.len() implies out.local_operand(
        out.home(i),
        #[trigger] out.insts[i].operands[k],
    ) by {
        let o = out.insts[i].operands[k];
        if i < n {
            assert(mv.valid_operand(mv.insts[i].operands[k]));
            assert(mv.local_operand(mv.home(i), mv.insts[i].operands[k]));
        } else {
            assert(mv.valid_operand(inst.operands[k]));
            assert(mv.local_operand(mv.blocks[block as int].func, inst.operands[k]));
        }
        match o {
            Operand::Value(Value::Inst(j)) => {
                assert(out.home(j as int) == mv.home(j as int));
            },
            Operand::Block(b) => {
                assert(out.blocks[b as int].func == mv.blocks[b as int].func);
            },
            _ => {},
        }
    }
    assert forall|b: int, p: int|
        0 <= b < out.blocks.len() && 0 <= p < out.blocks[b].insts.len() implies {
        &&& (#[trigger] out.blocks[b].insts[p]) < out.insts.len()
        &&& !out.insts[out.blocks[b].insts[p] as int].erased
        &&& out.insts[out.blocks[b].insts[p] as int].block == b
    } by {
        if b == block {
            if p < pos {
                assert(new_list[p] == old_list[p]);
            } else if p == pos {
                assert(new_list[p] == n);
            } else {
                assert(new_list[p] == old_list[p - 1]);
            }
        } else {
            assert(out.blocks[b].insts[p] == mv.blocks[b].insts[p]);
        }
    }
    assert forall|b: int, p: int, q: int|
        0 <= b < out.blocks.len() && 0 <= p < q < out.blocks[b].insts.len()
        implies #[trigger] out.blocks[b].insts[p] != #[trigger] out.blocks[b].insts[q] by {
        if b == block {
            let pp = if p < pos { p } else { p - 1 };
            let qq = if q < pos { q } else { q - 1 };
            if p != pos {
                assert(new_list[p] == old_list[pp]);
                assert(old_list[pp] < n);
            }
            if q != pos {
                assert(new_list[q] == old_list[qq]);
                assert(old_list[qq] < n);
            }
        } else {
            assert(out.blocks[b].insts[p] == mv.blocks[b].insts[p]);
            assert(out.blocks[b].insts[q] == mv.blocks[b].insts[q]);
        }
    }
    assert forall|i: int, k: int|
        0 <= i < out.insts.len() && !out.insts[i].erased && 0 <= k
            < out.insts[i].operands.len() implies out.valid_operand(
        #[trigger] out.insts[i].operands[k],
    ) by {
        if i < n {
            assert(mv.valid_operand(mv.insts[i].operands[k]));
        } else {
            assert(mv.valid_operand(inst.operands[k]));
        }
    }
}

/// Handing the uses of an instruction over to a live instruction keeps the
/// module well-formed.
pub proof fn lemma_uses_replaced_wf(mv: ModuleView, from: usize, to: usize)
    requires
        mv.wf(),
        from < mv.insts.len(),
        to < mv.insts.len(),
        !mv.insts[to as int].erased,
        mv.home(to as int) == mv.home(from as int),
    ensures
        mv.uses_replaced(from, to).wf(),
{
    reveal(ModuleView::wf);
    let out = mv.uses_replaced(from, to);
    assert(out.funcs_wf());
    assert(out.blocks_wf());
    assert(out.owners_wf()) by {
        assert forall|i: int|
            0 <= i < out.insts.len() && !(#[trigger] out.insts[i]).erased implies out.insts[i].block
            < out.blocks.len() && out.blocks[out.insts[i].block as int].insts.contains(
            i as usize,
        ) by {
            assert(!mv.insts[i].erased);
        }
    }
    assert forall|i: int| 0 <= i < out.insts.len() implies out.home(i) == mv.home(i) by {}
    assert forall|i: int, k: int|
        0 <= i < out.insts.len() && !out.insts[i].erased && 0 <= k
            < out.insts[i].operands.len() implies out.local_operand(
        out.home(i),
        #[trigger] out.insts[i].operands[k],
    ) by {
        assert(mv.valid_operand(mv.insts[i].operands[k]));
        assert(mv.local_operand(mv.home(i), mv.insts[i].operands[k]));
        match out.insts[i].operands[k] {
            Operand::Value(Value::Inst(j)) => {
                assert(out.home(j as int) == mv.home(j as int));
            },
            _ => {},
        }
    }
    assert forall|i: int, k: int|
        0 <= i < out.insts.len() && !out.insts[i].erased && 0 <= k
            < out.insts[i].operands.len() implies out.valid_operand(
        #[trigger] out.insts[i].operands[k],
    ) by {
        assert(mv.valid_operand(mv.insts[i].operands[k]));
    }
}

/// Setting an operand to a valid one keeps the module well-formed.
pub proof fn lemma_operand_set_wf(mv: ModuleView, inst: usize, index: int, operand: Operand)
    requires
        mv.wf(),
        inst < mv.insts.len(),
        0 <= index < mv.insts[inst as int].operands.len(),
        mv.valid_operand(operand),
        mv.local_operand(mv.home(inst as int), operand),
    ensures
        mv.operand_set(inst, index, operand).wf(),
{
    reveal(ModuleView::wf);
    let out = mv.operand_set(inst, index, operand);
    assert(out.funcs_wf());
    assert(out.blocks_wf());
    assert(out.owners_wf()) by {
        assert forall|i: int|
            0 <= i < out.insts.len() && !(#[trigger] out.insts[i]).erased implies out.insts[i].block
            < out.blocks.len() && out.blocks[out.insts[i].block as int].insts.contains(
            i as usize,
        ) by {
            assert(!mv.insts[i].erased);
        }
    }
    assert forall|i: int| 0 <= i < out.insts.len() implies out.home(i) == mv.home(i) by {}
    assert forall|i: int, k: int|
        0 <= i < out.insts.len() && !out.insts[i].erased && 0 <= k
            < out.insts[i].operands.len() implies out.local_operand(
        out.home(i),
        #[trigger] out.insts[i].operands[k],
    ) by {
        if i == inst && k == index {
        } else {
            assert(mv.local_operand(mv.home(i), mv.insts[i].operands[k]));
        }
        match out.insts[i].operands[k] {
            Operand::Value(Value::Inst(j)) => {
                assert(out.home(j as int) == mv.home(j as int));
            },
            _ => {},
        }
    }
    assert forall|i: int, k: int|
        0 <= i < out.insts.len() && !out.insts[i].erased && 0 <= k
            < out.insts[i].operands.len() implies out.valid_operand(
        #[trigger] out.insts[i].operands[k],
    ) by {
        if i == inst && k == index {
        } else {
            assert(mv.valid_operand(mv.insts[i].operands[k]));
        }
    }
}

/// Erasing an instruction that has no use left keeps the module
/// well-formed.
pub proof fn lemma_with_erased_wf(mv: ModuleView, block: usize, pos: int)
    requires
        mv.wf(),
        block < mv.blocks.len(),
        0 <= pos < mv.blocks[block as int].insts.len(),
        mv.unused(mv.blocks[block as int].insts[pos]),
    ensures
        mv.with_erased(block, pos).wf(),
{
    reveal(ModuleView::wf);
    let out = mv.with_erased(block, pos);
    let id = mv.blocks[block as int].insts[pos];
    let old_list = mv.blocks[block as int].insts;
    let new_list = out.blocks[block as int].insts;
    assert(out.funcs_wf());
    assert forall|b: int| 0 <= b < out.blocks.len() implies (#[trigger] out.blocks[b]).func
        < out.funcs.len() && out.funcs[out.blocks[b].func as int].blocks.contains(b as usize) by {
        assert(out.blocks[b].func == mv.blocks[b].func);
    }
    assert forall|i: int|
        0 <= i < out.insts.len() && !(#[trigger] out.insts[i]).erased implies out.insts[i].block
        < out.blocks.len() && out.blocks[out.insts[i].block as int].insts.contains(i as usize) by {
        assert(i != id);
        assert(!mv.insts[i].erased);
        let b = mv.insts[i].block;
        assert(mv.blocks[b as int].insts.contains(i as usize));
        let p = choose|p: int|
            0 <= p < mv.blocks[b as int].insts.len() && mv.blocks[b as int].insts[p] == i;
        if b == block {
            let pp = if p < pos { p } else { p - 1 };
            assert(new_list[pp] == i);
        } else {
            assert(out.blocks[b as int].insts[p] == i);
        }
    }
    assert forall|i: int| 0 <= i < out.insts.len() && !mv.insts[i].erased implies out.home(i)
        == mv.home(i) by {
        let b = mv.insts[i].block as int;
        assert(0 <= b < mv.blocks.len());
        assert(out.blocks[b].func == mv.blocks[b].func);
    }
    assert forall|i: int, k: int|
        0 <= i < out.insts.len() && !out.insts[i].erased && 0 <= k
            < out.insts[i].operands.len() implies out.local_operand(
        out.home(i),
        #[trigger] out.insts[i].operands[k],
    ) by {
        assert(mv.valid_operand(mv.insts[i].operands[k]));
        assert(mv.local_operand(mv.home(i), mv.insts[i].operands[k]));
        match out.insts[i].operands[k] {
            Operand::Value(Value::Inst(j)) => {
                assert(out.home(j as int) == mv.home(j as int));
            },
            Operand::Block(b) => {
                assert(out.blocks[b as int].func == mv.blocks[b as int].func);
            },
            _ => {},
        }
    }
    assert forall|b: int, p: int|
        0 <= b < out.blocks.len() && 0 <= p < out.blocks[b].insts.len() implies {
        &&& (#[trigger] out.blocks[b].insts[p]) < out.insts.len()
        &&& !out.insts[out.blocks[b].insts[p] as int].erased
        &&& out.insts[out.blocks[b].insts[p] as int].block == b
    } by {
        if b == block {
            let pp = if p < pos { p } else { p + 1 };
            assert(new_list[p] == old_list[pp]);
            assert(old_list[pp] != old_list[pos]);
        } else {
            assert(out.blocks[b].insts[p] == mv.blocks[b].insts[p]);
            assert(mv.insts[mv.blocks[b].insts[p] as int].block == b);
        }
    }
    assert forall|b: int, p: int, q: int|
        0 <= b < out.blocks.len() && 0 <= p < q < out.blocks[b].insts.len()
        implies #[trigger] out.blocks[b].insts[p] != #[trigger] out.blocks[b].insts[q] by {
        if b == block {
            let pp = if p < pos { p } else { p + 1 };
            let qq = if q < pos { q } else { q + 1 };
            assert(new_list[p] == old_list[pp]);
            assert(new_list[q] == old_list[qq]);
        } else {
            assert(out.blocks[b].insts[p] == mv.blocks[b].insts[p]);
            assert(out.blocks[b].insts[q] == mv.blocks[b].insts[q]);
        }
    }
    assert forall|i: int, k: int|
        0 <= i < out.insts.len() && !out.insts[i].erased && 0 <= k
            < out.insts[i].operands.len() implies out.valid_operand(
        #[trigger] out.insts[i].operands[k],
    ) by {
        assert(mv.valid_operand(mv.insts[i].operands[k]));
        assert(mv.insts[i].operands[k] != inst_operand(id));
    }
}

/// An edit that the module admits keeps it well-formed.
pub proof fn lemma_apply_wf(mv: ModuleView, e: Edit)
    requires
        mv.wf(),
        mv.admits(e),
    ensures
        mv.apply(e).wf(),
{
    match e {
        Edit::Insert { block, pos, op, ty, slot, operands } => {
            lemma_inserted_wf(
                mv,
                block,
                pos as int,
                InstView { op, ty, slot, block, erased: false, operands: operands@ },
            );
        },
        Edit::ReplaceUses { from, to } => {
            lemma_uses_replaced_wf(mv, from, to);
        },
        Edit::SetOperand { inst, index, operand } => {
            lemma_operand_set_wf(mv, inst, index as int, operand);
        },
        Edit::Erase { block, pos } => {
            lemma_with_erased_wf(mv, block, pos as int);
        },
    }
}

/// A module extends the one it came from by an edit.
pub proof fn lemma_apply_extends(mv: ModuleView, e: Edit)
    requires
        mv.wf(),
        mv.admits(e),
    ensures
        mv.apply(e).extends(mv),
{
    reveal(ModuleView::wf);
    let out = mv.apply(e);
    match e {
        Edit::Insert { block, pos, op, ty, slot, operands } => {
            assert forall|i: int| 0 <= i < mv.insts.len() implies (#[trigger] out.insts[i])
                == mv.insts[i] by {}
        },
        Edit::ReplaceUses { from, to } => {},
        Edit::SetOperand { inst, index, operand } => {},
        Edit::Erase { block, pos } => {},
    }
}

/// Once every use of `from` has become a use of another instruction, `from`
/// has no use left.
pub proof fn lemma_replaced_unused(mv: ModuleView, from: usize, to: usize)
    requires
        from != to,
    ensures
        mv.uses_replaced(from, to).unused(from),
{
}

/// Where a script can be made edit by edit, so can each of its beginnings.
pub proof fn lemma_admits_prefix(mv: ModuleView, edits: Seq<Edit>, n: int)
    requires
        0 <= n <= edits.len(),
        mv.admits_all(edits),
    ensures
        mv.admits_all(edits.take(n)),
    decreases edits.len(),
{
    if n < edits.len() {
        lemma_admits_prefix(mv, edits.drop_last(), n);
        assert(edits.drop_last().take(n) == edits.take(n));
    } else {
        assert(edits.take(n) == edits);
    }
}

} // verus!
