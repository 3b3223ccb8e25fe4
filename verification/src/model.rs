//! The mathematical model of a module: an arena of instructions, grouped
//! into basic blocks that belong to functions, and what it means for such a
//! module to be well-formed.

use vstd::prelude::*;
use crate::types::{Opcode, Operand, Ty, Value};

verus! {

/// Mathematical model of an instruction.
pub struct InstView {
    pub op: Opcode,
    /// Type of the value that the instruction produces.
    pub ty: Ty,
    /// For an Alloca, the type of the slot it reserves.
    pub slot: Ty,
    /// The block that holds the instruction.
    pub block: usize,
    /// An erased slot stays in the arena but is no part of the program.
    pub erased: bool,
    pub operands: Seq<Operand>,
}

/// Mathematical model of a basic block: its function and its instructions
/// in program order.
pub struct BlockView {
    pub func: usize,
    pub insts: Seq<usize>,
}

/// Mathematical model of a function.
pub struct FunctionView {
    pub name: Seq<char>,
    /// Type of the value that a call to the function produces.
    pub ret: Ty,
    pub blocks: Seq<usize>,
}

/// Mathematical model of a global variable.
pub struct GlobalView {
    pub name: Seq<char>,
    pub constant: bool,
}

/// Mathematical model of an entry of the constant table. An anonymous
/// constant has the empty name.
pub struct ConstantView {
    pub name: Seq<char>,
    pub ty: Ty,
}

/// Mathematical model of a module.
pub struct ModuleView {
    pub funcs: Seq<FunctionView>,
    pub blocks: Seq<BlockView>,
    pub insts: Seq<InstView>,
    pub globals: Seq<GlobalView>,
    pub consts: Seq<ConstantView>,
}

impl ModuleView {
    /// The operand refers to something that exists: a live instruction, a
    /// block, a constant or a function of the module.
    pub open spec fn valid_operand(self, o: Operand) -> bool {
        match o {
            Operand::Value(Value::Inst(j)) => j < self.insts.len() && !self.insts[j as int].erased,
            Operand::Value(Value::Const(c)) => c < self.consts.len(),
            Operand::Value(Value::Func(f)) => f < self.funcs.len(),
            Operand::Value(_) => true,
            Operand::Block(b) => b < self.blocks.len(),
        }
    }

    /// Every function lists blocks that exist and that name it as their
    /// function, each block once.
    pub open spec fn funcs_wf(self) -> bool {
        &&& forall|f: int, k: int|
            0 <= f < self.funcs.len() && 0 <= k < self.funcs[f].blocks.len() ==> {
                &&& (#[trigger] self.funcs[f].blocks[k]) < self.blocks.len()
                &&& self.blocks[self.funcs[f].blocks[k] as int].func == f
            }
        &&& forall|f: int, k: int, l: int|
            0 <= f < self.funcs.len() && 0 <= k < l < self.funcs[f].blocks.len()
                ==> #[trigger] self.funcs[f].blocks[k] != #[trigger] self.funcs[f].blocks[l]
    }

    /// Every block lists live instructions that name it as their block, each
    /// instruction once.
    pub open spec fn blocks_wf(self) -> bool {
        &&& forall|b: int, p: int|
            0 <= b < self.blocks.len() && 0 <= p < self.blocks[b].insts.len() ==> {
                &&& (#[trigger] self.blocks[b].insts[p]) < self.insts.len()
                &&& !self.insts[self.blocks[b].insts[p] as int].erased
                &&& self.insts[self.blocks[b].insts[p] as int].block == b
            }
        &&& forall|b: int, p: int, q: int|
            0 <= b < self.blocks.len() && 0 <= p < q < self.blocks[b].insts.len()
                ==> #[trigger] self.blocks[b].insts[p] != #[trigger] self.blocks[b].insts[q]
    }

    /// Use-list integrity: no live instruction has an operand that refers to
    /// an erased instruction or to something that does not exist.
    pub open spec fn uses_wf(self) -> bool {
        forall|i: int, k: int|
            0 <= i < self.insts.len() && !self.insts[i].erased && 0 <= k
                < self.insts[i].operands.len() ==> self.valid_operand(
                #[trigger] self.insts[i].operands[k],
            )
    }

    /// The function that holds instruction `i`.
    pub open spec fn home(self, i: int) -> usize {
        self.blocks[self.insts[i].block as int].func
    }

    /// The operand stays within function `func`: an instruction or a block
    /// that it names belongs to that function.
    pub open spec fn local_operand(self, func: usize, o: Operand) -> bool {
        match o {
            Operand::Value(Value::Inst(j)) => self.home(j as int) == func,
            Operand::Block(b) => self.blocks[b as int].func == func,
            _ => true,
        }
    }

    /// Every block belongs to a function that lists it, every instruction
    /// names a block, and every live instruction is listed in the block that
    /// it names.
    pub open spec fn owners_wf(self) -> bool {
        &&& forall|b: int|
            0 <= b < self.blocks.len() ==> (#[trigger] self.blocks[b]).func < self.funcs.len()
                && self.funcs[self.blocks[b].func as int].blocks.contains(b as usize)
        &&& forall|i: int|
            0 <= i < self.insts.len() ==> (#[trigger] self.insts[i]).block < self.blocks.len()
        &&& forall|i: int|
            0 <= i < self.insts.len() && !(#[trigger] self.insts[i]).erased ==> self.insts[i].block
                < self.blocks.len() && self.blocks[self.insts[i].block as int].insts.contains(
                i as usize,
            )
    }

    /// No live instruction has an operand that leaves its function.
    pub open spec fn local_wf(self) -> bool {
        forall|i: int, k: int|
            0 <= i < self.insts.len() && !self.insts[i].erased && 0 <= k
                < self.insts[i].operands.len() ==> self.local_operand(
                self.home(i),
                #[trigger] self.insts[i].operands[k],
            )
    }

    /// Every index of the module fits a machine word.
    pub open spec fn sizes_wf(self) -> bool {
        &&& self.funcs.len() <= usize::MAX
        &&& self.blocks.len() <= usize::MAX
        &&& self.insts.len() <= usize::MAX
    }

    /// Well-formedness of the representation.
    #[verifier::opaque]
    pub open spec fn wf(self) -> bool {
        &&& self.sizes_wf()
        &&& self.funcs_wf()
        &&& self.blocks_wf()
        &&& self.uses_wf()
        &&& self.owners_wf()
        &&& self.local_wf()
    }

    /// The first function of the given name, if the module declares one.
    pub open spec fn lookup_function(self, name: Seq<char>) -> Option<usize> {
        first_named(self.funcs, name, 0)
    }

    /// True when the global table holds a variable of exactly this name.
    pub open spec fn has_global(self, name: Seq<char>) -> bool {
        exists|g: int| 0 <= g < self.globals.len() && (#[trigger] self.globals[g]).name == name
    }

    /// Type of a value.
    pub open spec fn value_ty(self, v: Value) -> Ty {
        match v {
            Value::Inst(j) => self.insts[j as int].ty,
            Value::Const(c) => self.consts[c as int].ty,
            Value::Int { bits, value } => Ty::Int(bits),
            Value::Func(_) => Ty::Pointer,
            Value::Param { index, ty } => ty,
        }
    }
}

impl ModuleView {
    /// The module with one more function, which has no blocks yet.
    pub open spec fn with_function(self, name: Seq<char>, ret: Ty) -> ModuleView {
        ModuleView {
            funcs: self.funcs.push(FunctionView { name, ret, blocks: Seq::empty() }),
            ..self
        }
    }

    /// The module with one more global variable.
    pub open spec fn with_global(self, name: Seq<char>, constant: bool) -> ModuleView {
        ModuleView { globals: self.globals.push(GlobalView { name, constant }), ..self }
    }

    /// The module with one more entry in the constant table.
    pub open spec fn with_constant(self, name: Seq<char>, ty: Ty) -> ModuleView {
        ModuleView { consts: self.consts.push(ConstantView { name, ty }), ..self }
    }

    /// The module with one more block, empty, at the end of function `f`.
    pub open spec fn with_block(self, f: usize) -> ModuleView {
        ModuleView {
            blocks: self.blocks.push(BlockView { func: f, insts: Seq::empty() }),
            funcs: self.funcs.update(
                f as int,
                FunctionView {
                    blocks: self.funcs[f as int].blocks.push(self.blocks.len() as usize),
                    ..self.funcs[f as int]
                },
            ),
            ..self
        }
    }

    /// The module in which instruction `i` has one more operand.
    pub open spec fn operand_pushed(self, i: usize, o: Operand) -> ModuleView {
        ModuleView {
            insts: self.insts.update(
                i as int,
                InstView { operands: self.insts[i as int].operands.push(o), ..self.insts[i as int] },
            ),
            ..self
        }
    }

    /// The module in which Alloca `i` reserves a slot of type `slot`.
    pub open spec fn with_slot(self, i: usize, slot: Ty) -> ModuleView {
        ModuleView {
            insts: self.insts.update(i as int, InstView { slot, ..self.insts[i as int] }),
            ..self
        }
    }

    /// True when `o` can become an operand of instruction `i`: the
    /// instruction is live, and the operand exists and stays within the
    /// function of the instruction.
    pub open spec fn accepts_operand(self, i: usize, o: Operand) -> bool {
        &&& i < self.insts.len()
        &&& !self.insts[i as int].erased
        &&& self.valid_operand(o)
        &&& self.local_operand(self.home(i as int), o)
    }

    /// True when this module has grown out of `base` by edits: the
    /// functions, globals and constants are the same, no block was added,
    /// and every instruction of `base` is still in its slot with its
    /// opcode, types and block. Only operands may differ, and instructions
    /// may have been erased or added.
    pub open spec fn extends(self, base: ModuleView) -> bool {
        &&& self.funcs == base.funcs
        &&& self.globals == base.globals
        &&& self.consts == base.consts
        &&& self.blocks.len() == base.blocks.len()
        &&& self.insts.len() >= base.insts.len()
        &&& forall|b: int|
            0 <= b < base.blocks.len() ==> (#[trigger] self.blocks[b]).func == base.blocks[b].func
        &&& forall|i: int|
            0 <= i < base.insts.len() ==> {
                &&& (#[trigger] self.insts[i]).op == base.insts[i].op
                &&& self.insts[i].ty == base.insts[i].ty
                &&& self.insts[i].slot == base.insts[i].slot
                &&& self.insts[i].block == base.insts[i].block
                &&& self.insts[i].operands.len() == base.insts[i].operands.len()
                &&& (base.insts[i].erased ==> self.insts[i].erased)
            }
    }

    /// True when this module extends `base` and has erased nothing that was
    /// live there.
    pub open spec fn keeps_live(self, base: ModuleView) -> bool {
        &&& self.extends(base)
        &&& forall|i: int|
            0 <= i < base.insts.len() ==> (#[trigger] self.insts[i]).erased == base.insts[i].erased
    }

    /// The position of instruction `id` in the block that it names.
    pub open spec fn position(self, id: usize) -> int {
        self.blocks[self.insts[id as int].block as int].insts.index_of(id)
    }
}

/// The first function at or behind index `from` that has the given name.
pub open spec fn first_named(funcs: Seq<FunctionView>, name: Seq<char>, from: int) -> Option<usize>
    decreases funcs.len() - from,
{
    if from < 0 || from >= funcs.len() {
        None
    } else if funcs[from].name == name {
        Some(from as usize)
    } else {
        first_named(funcs, name, from + 1)
    }
}

/// A function that a lookup finds exists and has the name looked up.
pub proof fn lemma_first_named(funcs: Seq<FunctionView>, name: Seq<char>, from: int)
    requires
        0 <= from,
        funcs.len() <= usize::MAX,
    ensures
        first_named(funcs, name, from) matches Some(f) ==> from <= f < funcs.len()
            && funcs[f as int].name == name,
    decreases funcs.len() - from,
{
    if from < funcs.len() && funcs[from].name != name {
        lemma_first_named(funcs, name, from + 1);
    }
}

/// What well-formedness says of the instruction at position `pos` of
/// `block`: it is live, it names `block` as its block, and each of its
/// operands exists and stays within the function of the block.
pub proof fn lemma_listed(mv: ModuleView, block: usize, pos: int)
    requires
        mv.wf(),
        block < mv.blocks.len(),
        0 <= pos < mv.blocks[block as int].insts.len(),
    ensures
        ({
            let id = mv.blocks[block as int].insts[pos];
            &&& id < mv.insts.len()
            &&& mv.insts.len() <= usize::MAX
            &&& !mv.insts[id as int].erased
            &&& mv.insts[id as int].block == block
            &&& mv.home(id as int) == mv.blocks[block as int].func
            &&& mv.blocks[block as int].func < mv.funcs.len()
            &&& forall|k: int|
                0 <= k < mv.insts[id as int].operands.len() ==> mv.valid_operand(
                    #[trigger] mv.insts[id as int].operands[k],
                ) && mv.local_operand(mv.blocks[block as int].func, mv.insts[id as int].operands[k])
        }),
{
    reveal(ModuleView::wf);
    let id = mv.blocks[block as int].insts[pos];
    assert forall|k: int| 0 <= k < mv.insts[id as int].operands.len() implies mv.valid_operand(
        #[trigger] mv.insts[id as int].operands[k],
    ) && mv.local_operand(mv.blocks[block as int].func, mv.insts[id as int].operands[k]) by {
        assert(mv.local_operand(mv.home(id as int), mv.insts[id as int].operands[k]));
    }
}

/// A live instruction stands at exactly one position of the block that it
/// names, and at no position of any other block.
pub proof fn lemma_position(mv: ModuleView, id: usize)
    requires
        mv.wf(),
        id < mv.insts.len(),
        !mv.insts[id as int].erased,
    ensures
        mv.insts[id as int].block < mv.blocks.len(),
        mv.blocks[mv.insts[id as int].block as int].func < mv.funcs.len(),
        0 <= mv.position(id) < mv.blocks[mv.insts[id as int].block as int].insts.len(),
        mv.blocks[mv.insts[id as int].block as int].insts[mv.position(id)] == id,
        forall|p: int|
            0 <= p < mv.blocks[mv.insts[id as int].block as int].insts.len()
                && mv.blocks[mv.insts[id as int].block as int].insts[p] == id ==> p == mv.position(
                id,
            ),
        mv.funcs[mv.home(id as int) as int].blocks.contains(mv.insts[id as int].block),
{
    reveal(ModuleView::wf);
    let list = mv.blocks[mv.insts[id as int].block as int].insts;
    assert(list.contains(id));
    let w = choose|p: int| 0 <= p < list.len() && list[p] == id;
    assert(list[w] == id);
    let q = list.index_of(id);
    assert(0 <= q < list.len() && list[q] == id);
    assert forall|p: int| 0 <= p < list.len() && list[p] == id implies p == q by {
        if p < q {
            assert(list[p] != list[q]);
        } else if q < p {
            assert(list[q] != list[p]);
        }
    }
}

/// What well-formedness says of block `k` of function `f`: it exists and
/// names `f` as its function, and no other place of the list holds it.
pub proof fn lemma_owned(mv: ModuleView, f: int, k: int)
    requires
        mv.wf(),
        0 <= f < mv.funcs.len(),
        0 <= k < mv.funcs[f].blocks.len(),
    ensures
        mv.funcs[f].blocks[k] < mv.blocks.len(),
        mv.blocks[mv.funcs[f].blocks[k] as int].func == f,
        forall|l: int|
            0 <= l < mv.funcs[f].blocks.len() && l != k ==> #[trigger] mv.funcs[f].blocks[l]
                != mv.funcs[f].blocks[k],
{
    reveal(ModuleView::wf);
}

/// Adding a function, a global variable or a constant keeps the module
/// well-formed.
pub proof fn lemma_declared_wf(mv: ModuleView, name: Seq<char>, ret: Ty, flag: bool)
    requires
        mv.wf(),
    ensures
        mv.funcs.len() < usize::MAX ==> mv.with_function(name, ret).wf(),
        mv.with_global(name, flag).wf(),
        mv.with_constant(name, ret).wf(),
{
    reveal(ModuleView::wf);
    let a = mv.with_function(name, ret);
    assert(a.funcs_wf());
    assert forall|i: int, k: int|
        0 <= i < a.insts.len() && !a.insts[i].erased && 0 <= k
            < a.insts[i].operands.len() implies a.valid_operand(#[trigger] a.insts[i].operands[k]) by {
        assert(mv.valid_operand(mv.insts[i].operands[k]));
    }
    assert forall|b: int| 0 <= b < a.blocks.len() implies (#[trigger] a.blocks[b]).func < a.funcs.len()
        && a.funcs[a.blocks[b].func as int].blocks.contains(b as usize) by {
        assert(a.funcs[mv.blocks[b].func as int] == mv.funcs[mv.blocks[b].func as int]);
    }
    assert forall|i: int, k: int|
        0 <= i < a.insts.len() && !a.insts[i].erased && 0 <= k
            < a.insts[i].operands.len() implies a.local_operand(
        a.home(i),
        #[trigger] a.insts[i].operands[k],
    ) by {
        assert(mv.local_operand(mv.home(i), mv.insts[i].operands[k]));
    }
    let g = mv.with_global(name, flag);
    assert(g.funcs_wf());
    assert(g.blocks_wf());
    assert forall|i: int, k: int|
        0 <= i < g.insts.len() && !g.insts[i].erased && 0 <= k
            < g.insts[i].operands.len() implies g.valid_operand(#[trigger] g.insts[i].operands[k]) by {
        assert(mv.valid_operand(mv.insts[i].operands[k]));
    }
    assert forall|i: int, k: int|
        0 <= i < g.insts.len() && !g.insts[i].erased && 0 <= k
            < g.insts[i].operands.len() implies g.local_operand(
        g.home(i),
        #[trigger] g.insts[i].operands[k],
    ) by {
        assert(mv.local_operand(mv.home(i), mv.insts[i].operands[k]));
    }
    let c = mv.with_constant(name, ret);
    assert(c.funcs_wf());
    assert(c.blocks_wf());
    assert forall|i: int, k: int|
        0 <= i < c.insts.len() && !c.insts[i].erased && 0 <= k
            < c.insts[i].operands.len() implies c.valid_operand(#[trigger] c.insts[i].operands[k]) by {
        assert(mv.valid_operand(mv.insts[i].operands[k]));
    }
    assert forall|i: int, k: int|
        0 <= i < c.insts.len() && !c.insts[i].erased && 0 <= k
            < c.insts[i].operands.len() implies c.local_operand(
        c.home(i),
        #[trigger] c.insts[i].operands[k],
    ) by {
        assert(mv.local_operand(mv.home(i), mv.insts[i].operands[k]));
    }
}

/// Adding an empty block to a function keeps the module well-formed.
pub proof fn lemma_with_block_wf(mv: ModuleView, f: usize)
    requires
        mv.wf(),
        f < mv.funcs.len(),
        mv.blocks.len() < usize::MAX,
    ensures
        mv.with_block(f).wf(),
{
    reveal(ModuleView::wf);
    let out = mv.with_block(f);
    let nb = mv.blocks.len() as usize;
    assert forall|g: int, k: int|
        0 <= g < out.funcs.len() && 0 <= k < out.funcs[g].blocks.len() implies {
        &&& (#[trigger] out.funcs[g].blocks[k]) < out.blocks.len()
        &&& out.blocks[out.funcs[g].blocks[k] as int].func == g
    } by {
        if g == f && k == mv.funcs[g].blocks.len() {
        } else {
            assert(out.funcs[g].blocks[k] == mv.funcs[g].blocks[k]);
        }
    }
    assert forall|g: int, k: int, l: int|
        0 <= g < out.funcs.len() && 0 <= k < l < out.funcs[g].blocks.len()
        implies #[trigger] out.funcs[g].blocks[k] != #[trigger] out.funcs[g].blocks[l] by {
        if g == f && l == mv.funcs[g].blocks.len() {
            assert(out.funcs[g].blocks[k] == mv.funcs[g].blocks[k]);
            assert(mv.funcs[g].blocks[k] < nb);
        } else {
            assert(out.funcs[g].blocks[k] == mv.funcs[g].blocks[k]);
            assert(out.funcs[g].blocks[l] == mv.funcs[g].blocks[l]);
        }
    }
    assert forall|b: int, p: int|
        0 <= b < out.blocks.len() && 0 <= p < out.blocks[b].insts.len() implies {
        &&& (#[trigger] out.blocks[b].insts[p]) < out.insts.len()
        &&& !out.insts[out.blocks[b].insts[p] as int].erased
        &&& out.insts[out.blocks[b].insts[p] as int].block == b
    } by {
        assert(out.blocks[b].insts[p] == mv.blocks[b].insts[p]);
    }
    assert forall|b: int, p: int, q: int|
        0 <= b < out.blocks.len() && 0 <= p < q < out.blocks[b].insts.len()
        implies #[trigger] out.blocks[b].insts[p] != #[trigger] out.blocks[b].insts[q] by {
        assert(out.blocks[b].insts[p] == mv.blocks[b].insts[p]);
        assert(out.blocks[b].insts[q] == mv.blocks[b].insts[q]);
    }
    assert forall|i: int, k: int|
        0 <= i < out.insts.len() && !out.insts[i].erased && 0 <= k
            < out.insts[i].operands.len() implies out.valid_operand(
        #[trigger] out.insts[i].operands[k],
    ) by {
        assert(mv.valid_operand(mv.insts[i].operands[k]));
    }
    assert forall|b: int| 0 <= b < out.blocks.len() implies (#[trigger] out.blocks[b]).func
        < out.funcs.len() && out.funcs[out.blocks[b].func as int].blocks.contains(b as usize) by {
        if b == nb {
            assert(out.funcs[f as int].blocks[mv.funcs[f as int].blocks.len() as int] == nb);
        } else {
            let g = mv.blocks[b].func as int;
            assert(mv.funcs[g].blocks.contains(b as usize));
            let k = choose|k: int| 0 <= k < mv.funcs[g].blocks.len() && mv.funcs[g].blocks[k] == b;
            assert(out.funcs[g].blocks[k] == b);
        }
    }
    assert forall|i: int|
        0 <= i < out.insts.len() && !(#[trigger] out.insts[i]).erased implies out.insts[i].block
        < out.blocks.len() && out.blocks[out.insts[i].block as int].insts.contains(i as usize) by {
        let b = mv.insts[i].block as int;
        assert(mv.blocks[b].insts.contains(i as usize));
        assert(out.blocks[b] == mv.blocks[b]);
    }
    assert forall|i: int, k: int|
        0 <= i < out.insts.len() && !out.insts[i].erased && 0 <= k
            < out.insts[i].operands.len() implies out.local_operand(
        out.home(i),
        #[trigger] out.insts[i].operands[k],
    ) by {
        assert(mv.valid_operand(mv.insts[i].operands[k]));
        assert(mv.local_operand(mv.home(i), mv.insts[i].operands[k]));
        let b = mv.insts[i].block as int;
        assert(out.blocks[b] == mv.blocks[b]);
        match out.insts[i].operands[k] {
            Operand::Value(Value::Inst(j)) => {
                let bj = mv.insts[j as int].block as int;
                assert(out.blocks[bj] == mv.blocks[bj]);
            },
            Operand::Block(b2) => {
                assert(out.blocks[b2 as int] == mv.blocks[b2 as int]);
            },
            _ => {},
        }
    }
}

/// Giving an instruction one more operand that it accepts, or an Alloca the
/// type of its slot, keeps the module well-formed.
pub proof fn lemma_operand_pushed_wf(mv: ModuleView, i: usize, o: Operand, slot: Ty)
    requires
        mv.wf(),
        i < mv.insts.len(),
    ensures
        mv.accepts_operand(i, o) ==> mv.operand_pushed(i, o).wf(),
        mv.with_slot(i, slot).wf(),
{
    reveal(ModuleView::wf);
    let s = mv.with_slot(i, slot);
    assert(s.funcs_wf());
    assert(s.blocks_wf());
    assert forall|x: int, k: int|
        0 <= x < s.insts.len() && !s.insts[x].erased && 0 <= k
            < s.insts[x].operands.len() implies s.valid_operand(#[trigger] s.insts[x].operands[k])
        && s.local_operand(s.home(x), s.insts[x].operands[k]) by {
        assert(mv.valid_operand(mv.insts[x].operands[k]));
        assert(mv.local_operand(mv.home(x), mv.insts[x].operands[k]));
        match s.insts[x].operands[k] {
            Operand::Value(Value::Inst(j)) => {
                assert(s.home(j as int) == mv.home(j as int));
            },
            _ => {},
        }
    }
    assert(s.owners_wf()) by {
        assert forall|x: int|
            0 <= x < s.insts.len() && !(#[trigger] s.insts[x]).erased implies s.insts[x].block
            < s.blocks.len() && s.blocks[s.insts[x].block as int].insts.contains(x as usize) by {
            assert(!mv.insts[x].erased);
        }
    }
    if mv.accepts_operand(i, o) {
        let out = mv.operand_pushed(i, o);
        assert(out.funcs_wf());
        assert(out.blocks_wf());
        assert forall|x: int, k: int|
            0 <= x < out.insts.len() && !out.insts[x].erased && 0 <= k
                < out.insts[x].operands.len() implies out.valid_operand(
            #[trigger] out.insts[x].operands[k],
        ) && out.local_operand(out.home(x), out.insts[x].operands[k]) by {
            if x == i && k == mv.insts[x].operands.len() {
            } else {
                assert(mv.valid_operand(mv.insts[x].operands[k]));
                assert(mv.local_operand(mv.home(x), mv.insts[x].operands[k]));
            }
            match out.insts[x].operands[k] {
                Operand::Value(Value::Inst(j)) => {
                    assert(out.home(j as int) == mv.home(j as int));
                },
                _ => {},
            }
        }
        assert(out.owners_wf()) by {
            assert forall|x: int|
                0 <= x < out.insts.len() && !(#[trigger] out.insts[x]).erased implies out.insts[x].block
                < out.blocks.len() && out.blocks[out.insts[x].block as int].insts.contains(
                x as usize,
            ) by {
                assert(!mv.insts[x].erased);
            }
        }
    }
}

/// Every index of a well-formed module fits a machine word.
pub proof fn lemma_sizes_fit(mv: ModuleView)
    requires
        mv.wf(),
    ensures
        mv.sizes_wf(),
{
    reveal(ModuleView::wf);
}

/// A block is listed by the function that it names.
pub proof fn lemma_block_owner(mv: ModuleView, b: usize)
    requires
        mv.wf(),
        b < mv.blocks.len(),
    ensures
        mv.blocks[b as int].func < mv.funcs.len(),
        mv.funcs[mv.blocks[b as int].func as int].blocks.contains(b),
{
    reveal(ModuleView::wf);
}

/// An instruction that is live in a module is live, in the same block and in
/// the same function, in a module that has grown out of it without erasing
/// anything.
pub proof fn lemma_home_kept(cur: ModuleView, next: ModuleView, j: usize)
    requires
        cur.wf(),
        next.keeps_live(cur),
        j < cur.insts.len(),
        !cur.insts[j as int].erased,
    ensures
        !next.insts[j as int].erased,
        next.home(j as int) == cur.home(j as int),
        next.insts[j as int].block == cur.insts[j as int].block,
{
    lemma_position(cur, j);
}

} // verus!
