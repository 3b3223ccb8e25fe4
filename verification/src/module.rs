//! A module in memory: the arena that the passes rewrite, the functions
//! that build it, and the primitive edits.

use vstd::prelude::*;
use crate::edit::{
    lemma_admits_prefix, lemma_apply_extends, lemma_apply_wf, lemma_inserted_wf, redirected, Edit,
};
use crate::model::{
    first_named, lemma_declared_wf, lemma_listed, lemma_operand_pushed_wf, lemma_with_block_wf,
    BlockView, ConstantView, FunctionView, GlobalView, InstView, ModuleView,
};
use crate::names::same_text;
use crate::types::{inst_operand, Opcode, Operand, Ty, Value};

verus! {

#[derive(Debug)]
struct Inst {
    op: Opcode,
    ty: Ty,
    slot: Ty,
    block: usize,
    erased: bool,
    operands: Vec<Operand>,
}

#[derive(Debug)]
struct Block {
    func: usize,
    insts: Vec<usize>,
}

#[derive(Debug)]
struct Function {
    name: String,
    ret: Ty,
    blocks: Vec<usize>,
}

#[derive(Debug)]
struct Global {
    name: String,
    constant: bool,
}

#[derive(Debug)]
struct Constant {
    name: String,
    ty: Ty,
}

/// A module: functions, their blocks and instructions, the global
/// variables and the constants that instructions refer to.
#[derive(Debug)]
pub struct Module {
    funcs: Vec<Function>,
    blocks: Vec<Block>,
    insts: Vec<Inst>,
    globals: Vec<Global>,
    consts: Vec<Constant>,
}

impl View for Inst {
    type V = InstView;

    closed spec fn view(&self) -> InstView {
        InstView {
            op: self.op,
            ty: self.ty,
            slot: self.slot,
            block: self.block,
            erased: self.erased,
            operands: self.operands@,
        }
    }
}

impl View for Block {
    type V = BlockView;

    closed spec fn view(&self) -> BlockView {
        BlockView { func: self.func, insts: self.insts@ }
    }
}

impl View for Function {
    type V = FunctionView;

    closed spec fn view(&self) -> FunctionView {
        FunctionView { name: self.name@, ret: self.ret, blocks: self.blocks@ }
    }
}

impl View for Global {
    type V = GlobalView;

    closed spec fn view(&self) -> GlobalView {
        GlobalView { name: self.name@, constant: self.constant }
    }
}

impl View for Constant {
    type V = ConstantView;

    closed spec fn view(&self) -> ConstantView {
        ConstantView { name: self.name@, ty: self.ty }
    }
}

impl View for Module {
    type V = ModuleView;

    closed spec fn view(&self) -> ModuleView {
        ModuleView {
            funcs: self.funcs@.map_values(|x: Function| x@),
            blocks: self.blocks@.map_values(|x: Block| x@),
            insts: self.insts@.map_values(|x: Inst| x@),
            globals: self.globals@.map_values(|x: Global| x@),
            consts: self.consts@.map_values(|x: Constant| x@),
        }
    }
}

impl Module {
    /// An empty module.
    pub fn new() -> (m: Module)
        ensures
            m@.funcs.len() == 0,
            m@.blocks.len() == 0,
            m@.insts.len() == 0,
            m@.globals.len() == 0,
            m@.consts.len() == 0,
            m@.wf(),
    {
        reveal(ModuleView::wf);
        Module {
            funcs: Vec::new(),
            blocks: Vec::new(),
            insts: Vec::new(),
            globals: Vec::new(),
            consts: Vec::new(),
        }
    }

    /// Every list of a module in memory has a length that fits a machine
    /// word.
    pub proof fn lemma_sizes(&self)
        ensures
            self@.funcs.len() <= usize::MAX,
            self@.blocks.len() <= usize::MAX,
            self@.insts.len() <= usize::MAX,
            forall|b: int|
                0 <= b < self@.blocks.len() ==> (#[trigger] self@.blocks[b]).insts.len()
                    <= usize::MAX,
            forall|i: int|
                0 <= i < self@.insts.len() ==> (#[trigger] self@.insts[i]).operands.len()
                    <= usize::MAX,
            forall|f: int|
                0 <= f < self@.funcs.len() ==> (#[trigger] self@.funcs[f]).blocks.len()
                    <= usize::MAX,
    {
        assert(self.funcs.len() <= usize::MAX);
        assert(self.blocks.len() <= usize::MAX);
        assert(self.insts.len() <= usize::MAX);
        assert forall|b: int| 0 <= b < self@.blocks.len() implies (#[trigger] self@.blocks[b]).insts.len()
            <= usize::MAX by {
            assert(self.blocks@[b].insts.len() <= usize::MAX);
        }
        assert forall|i: int| 0 <= i < self@.insts.len() implies (#[trigger] self@.insts[i]).operands.len()
            <= usize::MAX by {
            assert(self.insts@[i].operands.len() <= usize::MAX);
        }
        assert forall|f: int| 0 <= f < self@.funcs.len() implies (#[trigger] self@.funcs[f]).blocks.len()
            <= usize::MAX by {
            assert(self.funcs@[f].blocks.len() <= usize::MAX);
        }
    }

    /// Name of function `f`.
    pub(crate) fn func_name(&self, f: usize) -> (s: &str)
        requires
            f < self@.funcs.len(),
        ensures
            s@ == self@.funcs[f as int].name,
    {
        self.funcs[f].name.as_str()
    }

    /// Type of the value that a call to function `f` produces.
    pub(crate) fn func_ret(&self, f: usize) -> (ty: Ty)
        requires
            f < self@.funcs.len(),
        ensures
            ty == self@.funcs[f as int].ret,
    {
        self.funcs[f].ret
    }

    /// Number of blocks of function `f`.
    pub(crate) fn func_block_count(&self, f: usize) -> (n: usize)
        requires
            f < self@.funcs.len(),
        ensures
            n == self@.funcs[f as int].blocks.len(),
    {
        self.funcs[f].blocks.len()
    }

    /// Block `k` of function `f`.
    pub(crate) fn func_block(&self, f: usize, k: usize) -> (b: usize)
        requires
            f < self@.funcs.len(),
            k < self@.funcs[f as int].blocks.len(),
        ensures
            b == self@.funcs[f as int].blocks[k as int],
    {
        self.funcs[f].blocks[k]
    }

    /// Number of blocks.
    pub(crate) fn block_count(&self) -> (n: usize)
        ensures
            n == self@.blocks.len(),
    {
        self.blocks.len()
    }

    /// Number of instructions in block `b`.
    pub(crate) fn block_len(&self, b: usize) -> (n: usize)
        requires
            b < self@.blocks.len(),
        ensures
            n == self@.blocks[b as int].insts.len(),
    {
        self.blocks[b].insts.len()
    }

    /// The instruction at position `p` of block `b`.
    pub(crate) fn block_inst(&self, b: usize, p: usize) -> (i: usize)
        requires
            b < self@.blocks.len(),
            p < self@.blocks[b as int].insts.len(),
        ensures
            i == self@.blocks[b as int].insts[p as int],
    {
        self.blocks[b].insts[p]
    }

    /// Opcode of instruction `i`.
    pub(crate) fn inst_op(&self, i: usize) -> (op: Opcode)
        requires
            i < self@.insts.len(),
        ensures
            op == self@.insts[i as int].op,
    {
        self.insts[i].op
    }

    /// Type of the value that instruction `i` produces.
    pub(crate) fn inst_ty(&self, i: usize) -> (ty: Ty)
        requires
            i < self@.insts.len(),
        ensures
            ty == self@.insts[i as int].ty,
    {
        self.insts[i].ty
    }

    /// The block that instruction `i` names as its own.
    pub(crate) fn inst_block(&self, i: usize) -> (b: usize)
        requires
            i < self@.insts.len(),
        ensures
            b == self@.insts[i as int].block,
    {
        self.insts[i].block
    }

    /// The position of instruction `i` in block `b`, if `b` lists it.
    pub(crate) fn position_in_block(&self, b: usize, i: usize) -> (r: Option<usize>)
        requires
            b < self@.blocks.len(),
        ensures
            match r {
                Some(p) => p < self@.blocks[b as int].insts.len() && self@.blocks[b as int].insts[p as int]
                    == i,
                None => !self@.blocks[b as int].insts.contains(i),
            },
    {
        let n: usize = self.blocks[b].insts.len();
        let mut p: usize = 0;
        while p < n
            invariant
                p <= n,
                b < self@.blocks.len(),
                n == self@.blocks[b as int].insts.len(),
                forall|q: int| 0 <= q < p ==> self@.blocks[b as int].insts[q] != i,
            decreases n - p,
        {
            if self.blocks[b].insts[p] == i {
                return Some(p);
            }
            p += 1;
        }
        None
    }

    /// Number of operands of instruction `i`.
    pub(crate) fn operand_count(&self, i: usize) -> (n: usize)
        requires
            i < self@.insts.len(),
        ensures
            n == self@.insts[i as int].operands.len(),
    {
        self.insts[i].operands.len()
    }

    /// Operand `k` of instruction `i`.
    pub(crate) fn operand(&self, i: usize, k: usize) -> (o: Operand)
        requires
            i < self@.insts.len(),
            k < self@.insts[i as int].operands.len(),
        ensures
            o == self@.insts[i as int].operands[k as int],
    {
        self.insts[i].operands[k]
    }

    /// Number of entries of the constant table.
    pub(crate) fn const_count(&self) -> (n: usize)
        ensures
            n == self@.consts.len(),
    {
        self.consts.len()
    }

    /// Type of entry `c` of the constant table.
    pub(crate) fn const_ty(&self, c: usize) -> (ty: Ty)
        requires
            c < self@.consts.len(),
        ensures
            ty == self@.consts[c as int].ty,
    {
        self.consts[c].ty
    }

    /// Name of entry `c` of the constant table.
    pub(crate) fn const_name(&self, c: usize) -> (s: &str)
        requires
            c < self@.consts.len(),
        ensures
            s@ == self@.consts[c as int].name,
    {
        self.consts[c].name.as_str()
    }

    /// Type of a value that the module holds.
    pub(crate) fn value_ty(&self, v: Value) -> (ty: Ty)
        requires
            self@.valid_operand(Operand::Value(v)),
        ensures
            ty == self@.value_ty(v),
    {
        match v {
            Value::Inst(j) => self.insts[j].ty,
            Value::Const(c) => self.consts[c].ty,
            Value::Int { bits, value } => Ty::Int(bits),
            Value::Func(_) => Ty::Pointer,
            Value::Param { index, ty } => ty,
        }
    }

    /// Looks a function up by name.
    pub fn find_function(&self, name: &str) -> (r: Option<usize>)
        ensures
            r == self@.lookup_function(name@),
    {
        let n: usize = self.funcs.len();
        let mut f: usize = 0;
        while f < n
            invariant
                f <= n,
                n == self@.funcs.len(),
                first_named(self@.funcs, name@, f as int) == self@.lookup_function(name@),
            decreases n - f,
        {
            if same_text(self.funcs[f].name.as_str(), name) {
                return Some(f);
            }
            f += 1;
        }
        None
    }

    /// Tells whether a global variable of this name exists.
    pub fn has_global(&self, name: &str) -> (r: bool)
        ensures
            r == self@.has_global(name@),
    {
        let n: usize = self.globals.len();
        let mut g: usize = 0;
        while g < n
            invariant
                g <= n,
                n == self@.globals.len(),
                forall|i: int| 0 <= i < g ==> (#[trigger] self@.globals[i]).name != name@,
            decreases n - g,
        {
            if same_text(self.globals[g].name.as_str(), name) {
                assert(self@.globals[g as int].name == name@);
                return true;
            }
            g += 1;
        }
        false
    }
}

/// What a module tells about one of its instructions.
#[derive(Debug, PartialEq, Eq)]
pub struct Instruction {
    pub op: Opcode,
    pub ty: Ty,
    pub slot: Ty,
    pub block: usize,
    pub erased: bool,
    pub operands: Vec<Operand>,
}

impl View for Instruction {
    type V = InstView;

    open spec fn view(&self) -> InstView {
        InstView {
            op: self.op,
            ty: self.ty,
            slot: self.slot,
            block: self.block,
            erased: self.erased,
            operands: self.operands@,
        }
    }
}

/// Copies a list of indices.
fn copy_indices(v: &Vec<usize>) -> (r: Vec<usize>)
    ensures
        r@ == v@,
{
    let mut r: Vec<usize> = Vec::new();
    let mut k: usize = 0;
    while k < v.len()
        invariant
            k <= v.len(),
            r@ == v@.subrange(0, k as int),
        decreases v.len() - k,
    {
        r.push(v[k]);
        k += 1;
        assert(r@ == v@.subrange(0, k as int));
    }
    assert(v@.subrange(0, v.len() as int) == v@);
    r
}

impl Module {
    /// Declares a function that has no blocks yet. Returns its index.
    pub fn add_function(&mut self, name: &str, ret: Ty) -> (f: usize)
        requires
            old(self)@.wf(),
        ensures
            f == old(self)@.funcs.len(),
            final(self)@ == old(self)@.with_function(name@, ret),
            final(self)@.wf(),
    {
        let f: usize = self.funcs.len();
        self.funcs.push(Function { name: name.to_owned(), ret, blocks: Vec::new() });
        proof {
            let before = old(self)@;
            assert(self.funcs.len() == before.funcs.len() + 1);
            assert(self@.funcs == before.with_function(name@, ret).funcs);
            assert(self@.blocks == before.blocks);
            assert(self@.insts == before.insts);
            assert(self@.globals == before.globals);
            assert(self@.consts == before.consts);
            lemma_declared_wf(before, name@, ret, false);
        }
        f
    }

    /// Adds a global variable to the global table. Returns its index.
    pub fn add_global(&mut self, name: &str, constant: bool) -> (g: usize)
        requires
            old(self)@.wf(),
        ensures
            g == old(self)@.globals.len(),
            final(self)@ == old(self)@.with_global(name@, constant),
            final(self)@.wf(),
    {
        let g: usize = self.globals.len();
        self.globals.push(Global { name: name.to_owned(), constant });
        proof {
            let before = old(self)@;
            assert(self@.globals == before.with_global(name@, constant).globals);
            assert(self@.funcs == before.funcs);
            assert(self@.blocks == before.blocks);
            assert(self@.insts == before.insts);
            assert(self@.consts == before.consts);
            lemma_declared_wf(before, name@, Ty::Void, constant);
        }
        g
    }

    /// Adds an entry to the constant table; an anonymous constant has the
    /// empty name. Returns the index of the entry.
    pub fn add_constant(&mut self, name: &str, ty: Ty) -> (c: usize)
        requires
            old(self)@.wf(),
        ensures
            c == old(self)@.consts.len(),
            final(self)@ == old(self)@.with_constant(name@, ty),
            final(self)@.wf(),
    {
        let c: usize = self.consts.len();
        self.consts.push(Constant { name: name.to_owned(), ty });
        proof {
            let before = old(self)@;
            assert(self@.consts == before.with_constant(name@, ty).consts);
            assert(self@.funcs == before.funcs);
            assert(self@.blocks == before.blocks);
            assert(self@.insts == before.insts);
            assert(self@.globals == before.globals);
            lemma_declared_wf(before, name@, ty, false);
        }
        c
    }

    /// Adds an empty block at the end of function `f`. Returns the index of
    /// the block, or nothing where the module has no function `f`.
    pub fn add_block(&mut self, f: usize) -> (r: Option<usize>)
        requires
            old(self)@.wf(),
        ensures
            final(self)@.wf(),
            match r {
                Some(b) => f < old(self)@.funcs.len() && b == old(self)@.blocks.len() && final(self)@
                    == old(self)@.with_block(f),
                None => f >= old(self)@.funcs.len() && final(self)@ == old(self)@,
            },
    {
        if f >= self.funcs.len() {
            return None;
        }
        let b: usize = self.blocks.len();
        self.blocks.push(Block { func: f, insts: Vec::new() });
        self.funcs[f].blocks.push(b);
        proof {
            let before = old(self)@;
            assert(self.blocks.len() == before.blocks.len() + 1);
            assert(self@.blocks == before.with_block(f).blocks);
            assert(self@.funcs == before.with_block(f).funcs);
            assert(self@.insts == before.insts);
            assert(self@.globals == before.globals);
            assert(self@.consts == before.consts);
            lemma_with_block_wf(before, f);
        }
        Some(b)
    }

    /// Adds an instruction without operands at the end of `block`. Returns
    /// its arena slot, or nothing where the module has no such block.
    pub fn append_inst(&mut self, block: usize, op: Opcode, ty: Ty) -> (r: Option<usize>)
        requires
            old(self)@.wf(),
        ensures
            final(self)@.wf(),
            match r {
                Some(i) => {
                    &&& block < old(self)@.blocks.len()
                    &&& i == old(self)@.insts.len()
                    &&& final(self)@ == old(self)@.inserted(
                        block,
                        old(self)@.blocks[block as int].insts.len() as int,
                        (InstView {
                            op,
                            ty,
                            slot: Ty::Void,
                            block,
                            erased: false,
                            operands: Seq::empty(),
                        }),
                    )
                },
                None => block >= old(self)@.blocks.len() && final(self)@ == old(self)@,
            },
    {
        if block >= self.blocks.len() {
            return None;
        }
        let end: usize = self.blocks[block].insts.len();
        let i: usize = self.put_inst(block, end, op, ty, Ty::Void, Vec::new());
        Some(i)
    }

    /// Makes `o` the next operand of instruction `i`. Returns whether the
    /// instruction accepts the operand; where it does not, nothing changes.
    pub fn push_operand(&mut self, i: usize, o: Operand) -> (done: bool)
        requires
            old(self)@.wf(),
        ensures
            final(self)@.wf(),
            done == old(self)@.accepts_operand(i, o),
            done ==> final(self)@ == old(self)@.operand_pushed(i, o),
            !done ==> final(self)@ == old(self)@,
    {
        proof {
            reveal(ModuleView::wf);
        }
        if i >= self.insts.len() || self.insts[i].erased {
            return false;
        }
        assert(self@.insts[i as int].block < self@.blocks.len());
        let home: usize = self.blocks[self.insts[i].block].func;
        let fits = self.operand_fits(home, o);
        if !fits {
            return false;
        }
        self.insts[i].operands.push(o);
        proof {
            let before = old(self)@;
            assert(self@.insts == before.operand_pushed(i, o).insts);
            assert(self@.funcs == before.funcs);
            assert(self@.blocks == before.blocks);
            assert(self@.globals == before.globals);
            assert(self@.consts == before.consts);
            lemma_operand_pushed_wf(before, i, o, Ty::Void);
        }
        true
    }

    /// Records the type of the slot that Alloca `i` reserves. Returns
    /// whether the module has an instruction `i`.
    pub fn set_slot(&mut self, i: usize, slot: Ty) -> (done: bool)
        requires
            old(self)@.wf(),
        ensures
            final(self)@.wf(),
            done == (i < old(self)@.insts.len()),
            done ==> final(self)@ == old(self)@.with_slot(i, slot),
            !done ==> final(self)@ == old(self)@,
    {
        if i >= self.insts.len() {
            return false;
        }
        self.insts[i].slot = slot;
        proof {
            let before = old(self)@;
            assert(self@.insts == before.with_slot(i, slot).insts);
            assert(self@.funcs == before.funcs);
            assert(self@.blocks == before.blocks);
            assert(self@.globals == before.globals);
            assert(self@.consts == before.consts);
            lemma_operand_pushed_wf(before, i, Operand::Block(0), slot);
        }
        true
    }

    /// Number of functions.
    pub fn function_count(&self) -> (n: usize)
        ensures
            n == self@.funcs.len(),
    {
        self.funcs.len()
    }

    /// Number of instruction slots, erased ones included.
    pub fn instruction_count(&self) -> (n: usize)
        ensures
            n == self@.insts.len(),
    {
        self.insts.len()
    }

    /// What the module holds in arena slot `i`, if there is such a slot.
    pub fn instruction(&self, i: usize) -> (r: Option<Instruction>)
        ensures
            match r {
                Some(inst) => i < self@.insts.len() && inst@ == self@.insts[i as int],
                None => i >= self@.insts.len(),
            },
    {
        if i >= self.insts.len() {
            return None;
        }
        let inst = &self.insts[i];
        Some(
            Instruction {
                op: inst.op,
                ty: inst.ty,
                slot: inst.slot,
                block: inst.block,
                erased: inst.erased,
                operands: copy_operands(&inst.operands),
            },
        )
    }

    /// The instructions of block `b` in program order, if there is such a
    /// block.
    pub fn block_instructions(&self, b: usize) -> (r: Option<Vec<usize>>)
        ensures
            match r {
                Some(list) => b < self@.blocks.len() && list@ == self@.blocks[b as int].insts,
                None => b >= self@.blocks.len(),
            },
    {
        if b >= self.blocks.len() {
            return None;
        }
        Some(copy_indices(&self.blocks[b].insts))
    }

    /// The blocks of function `f` in order, if there is such a function.
    pub fn function_blocks(&self, f: usize) -> (r: Option<Vec<usize>>)
        ensures
            match r {
                Some(list) => f < self@.funcs.len() && list@ == self@.funcs[f as int].blocks,
                None => f >= self@.funcs.len(),
            },
    {
        if f >= self.funcs.len() {
            return None;
        }
        Some(copy_indices(&self.funcs[f].blocks))
    }
}

/// Copies a list of operands.
pub(crate) fn copy_operands(v: &Vec<Operand>) -> (r: Vec<Operand>)
    ensures
        r@ == v@,
{
    let mut r: Vec<Operand> = Vec::new();
    let mut k: usize = 0;
    while k < v.len()
        invariant
            k <= v.len(),
            r@ == v@.subrange(0, k as int),
        decreases v.len() - k,
    {
        r.push(v[k]);
        k += 1;
        assert(r@ == v@.subrange(0, k as int));
    }
    assert(v@.subrange(0, v.len() as int) == v@);
    r
}

impl Module {
    /// Puts a new instruction at position `pos` of `block`. Returns the
    /// arena slot of the new instruction.
    fn put_inst(
        &mut self,
        block: usize,
        pos: usize,
        op: Opcode,
        ty: Ty,
        slot: Ty,
        operands: Vec<Operand>,
    ) -> (id: usize)
        requires
            old(self)@.wf(),
            block < old(self)@.blocks.len(),
            pos <= old(self)@.blocks[block as int].insts.len(),
            forall|k: int|
                0 <= k < operands@.len() ==> old(self)@.valid_operand(#[trigger] operands@[k])
                    && old(self)@.local_operand(
                    old(self)@.blocks[block as int].func,
                    operands@[k],
                ),
        ensures
            id == old(self)@.insts.len(),
            old(self)@.insts.len() < usize::MAX,
            final(self)@ == old(self)@.inserted(
                block,
                pos as int,
                (InstView { op, ty, slot, block, erased: false, operands: operands@ }),
            ),
            final(self)@.wf(),
    {
        let id: usize = self.insts.len();
        let ghost put = InstView { op, ty, slot, block, erased: false, operands: operands@ };
        let inst = Inst { op, ty, slot, block, erased: false, operands };
        self.insts.push(inst);
        self.blocks[block].insts.insert(pos, id);
        proof {
            let before = old(self)@;
            assert(self@.insts == before.inserted(block, pos as int, put).insts);
            assert(self@.blocks == before.inserted(block, pos as int, put).blocks);
            assert(self@.funcs == before.funcs);
            assert(self@.globals == before.globals);
            assert(self@.consts == before.consts);
            assert(self.insts.len() == before.insts.len() + 1);
            lemma_inserted_wf(before, block, pos as int, put);
        }
        id
    }

    /// Puts a new instruction at position `pos` of `block` and records the
    /// edit. Returns the arena slot of the new instruction.
    pub(crate) fn insert_inst(
        &mut self,
        block: usize,
        pos: usize,
        op: Opcode,
        ty: Ty,
        slot: Ty,
        operands: Vec<Operand>,
        log: &mut Vec<Edit>,
    ) -> (id: usize)
        requires
            old(self)@.wf(),
            block < old(self)@.blocks.len(),
            pos <= old(self)@.blocks[block as int].insts.len(),
            forall|k: int|
                0 <= k < operands@.len() ==> old(self)@.valid_operand(#[trigger] operands@[k])
                    && old(self)@.local_operand(
                    old(self)@.blocks[block as int].func,
                    operands@[k],
                ),
        ensures
            id == old(self)@.insts.len(),
            final(self)@ == old(self)@.inserted(
                block,
                pos as int,
                (InstView { op, ty, slot, block, erased: false, operands: operands@ }),
            ),
            final(self)@.wf(),
            final(log)@.len() == old(log)@.len() + 1,
            final(log)@.drop_last() == old(log)@,
            old(self)@.admits(final(log)@.last()),
            final(self)@ == old(self)@.apply(final(log)@.last()),
            final(self)@.extends(old(self)@),
            forall|start: ModuleView|
                old(self)@ == #[trigger] start.replay(old(log)@) ==> final(self)@ == start.replay(
                    final(log)@,
                ) && (start.admits_all(old(log)@) ==> start.admits_all(final(log)@)),
    {
        let copy = copy_operands(&operands);
        let id: usize = self.put_inst(block, pos, op, ty, slot, operands);
        log.push(Edit::Insert { block, pos, op, ty, slot, operands: copy });
        proof {
            let before = old(self)@;
            let e = log@.last();
            assert(log@.drop_last() == old(log)@);
            assert(before.admits(e));
            lemma_apply_extends(before, e);
        }
        id
    }

    /// Turns every use of `from` into a use of `to` and records the edit.
    pub(crate) fn replace_uses(&mut self, from: usize, to: usize, log: &mut Vec<Edit>)
        requires
            old(self)@.wf(),
            from < old(self)@.insts.len(),
            to < old(self)@.insts.len(),
            !old(self)@.insts[to as int].erased,
            old(self)@.home(to as int) == old(self)@.home(from as int),
        ensures
            final(self)@ == old(self)@.uses_replaced(from, to),
            final(self)@.wf(),
            final(log)@.len() == old(log)@.len() + 1,
            final(log)@.drop_last() == old(log)@,
            old(self)@.admits(final(log)@.last()),
            final(self)@ == old(self)@.apply(final(log)@.last()),
            final(self)@.extends(old(self)@),
            forall|start: ModuleView|
                old(self)@ == #[trigger] start.replay(old(log)@) ==> final(self)@ == start.replay(
                    final(log)@,
                ) && (start.admits_all(old(log)@) ==> start.admits_all(final(log)@)),
    {
        let n: usize = self.insts.len();
        let ghost before = self@;
        let mut j: usize = 0;
        while j < n
            invariant
                j <= n,
                n == self.insts@.len(),
                n == before.insts.len(),
                self@.funcs == before.funcs,
                self@.blocks == before.blocks,
                self@.globals == before.globals,
                self@.consts == before.consts,
                forall|i: int|
                    0 <= i < j ==> (#[trigger] self@.insts[i]) == before.uses_replaced(
                        from,
                        to,
                    ).insts[i],
                forall|i: int| j <= i < n ==> (#[trigger] self@.insts[i]) == before.insts[i],
            decreases n - j,
        {
            let ghost mid = self@;
            replace_in(&mut self.insts[j].operands, from, to);
            proof {
                assert(self@.funcs == before.funcs);
                assert(self@.blocks == before.blocks);
                assert(self@.globals == before.globals);
                assert(self@.consts == before.consts);
                assert forall|i: int| 0 <= i < j + 1 implies (#[trigger] self@.insts[i])
                    == before.uses_replaced(from, to).insts[i] by {
                    if i < j {
                        assert(self@.insts[i] == mid.insts[i]);
                    } else {
                        assert(mid.insts[i] == before.insts[i]);
                    }
                }
                assert forall|i: int| j + 1 <= i < n implies (#[trigger] self@.insts[i])
                    == before.insts[i] by {
                    assert(self@.insts[i] == mid.insts[i]);
                }
            }
            j += 1;
        }
        log.push(Edit::ReplaceUses { from, to });
        proof {
            let e = log@.last();
            assert(log@.drop_last() == old(log)@);
            assert(self@.insts == before.uses_replaced(from, to).insts);
            lemma_apply_wf(before, e);
            lemma_apply_extends(before, e);
        }
    }
}

impl Module {
    /// Makes `operand` the operand `index` of `inst` and records the edit.
    pub(crate) fn set_operand(
        &mut self,
        inst: usize,
        index: usize,
        operand: Operand,
        log: &mut Vec<Edit>,
    )
        requires
            old(self)@.wf(),
            inst < old(self)@.insts.len(),
            index < old(self)@.insts[inst as int].operands.len(),
            old(self)@.valid_operand(operand),
            old(self)@.local_operand(old(self)@.home(inst as int), operand),
        ensures
            final(self)@ == old(self)@.operand_set(inst, index as int, operand),
            final(self)@.wf(),
            final(log)@.len() == old(log)@.len() + 1,
            final(log)@.drop_last() == old(log)@,
            old(self)@.admits(final(log)@.last()),
            final(self)@ == old(self)@.apply(final(log)@.last()),
            final(self)@.extends(old(self)@),
            forall|start: ModuleView|
                old(self)@ == #[trigger] start.replay(old(log)@) ==> final(self)@ == start.replay(
                    final(log)@,
                ) && (start.admits_all(old(log)@) ==> start.admits_all(final(log)@)),
    {
        let ghost before = self@;
        self.insts[inst].operands[index] = operand;
        log.push(Edit::SetOperand { inst, index, operand });
        proof {
            let e = log@.last();
            assert(log@.drop_last() == old(log)@);
            assert(self@.insts == before.operand_set(inst, index as int, operand).insts);
            assert(self@.funcs == before.funcs);
            assert(self@.blocks == before.blocks);
            assert(self@.globals == before.globals);
            assert(self@.consts == before.consts);
            lemma_apply_wf(before, e);
            lemma_apply_extends(before, e);
        }
    }

    /// Takes the instruction at position `pos` of `block` out of the program
    /// and records the edit. The instruction must have no use left.
    pub(crate) fn erase(&mut self, block: usize, pos: usize, log: &mut Vec<Edit>)
        requires
            old(self)@.wf(),
            block < old(self)@.blocks.len(),
            pos < old(self)@.blocks[block as int].insts.len(),
            old(self)@.unused(old(self)@.blocks[block as int].insts[pos as int]),
        ensures
            final(self)@ == old(self)@.with_erased(block, pos as int),
            final(self)@.wf(),
            final(log)@.len() == old(log)@.len() + 1,
            final(log)@.drop_last() == old(log)@,
            old(self)@.admits(final(log)@.last()),
            final(self)@ == old(self)@.apply(final(log)@.last()),
            final(self)@.extends(old(self)@),
            forall|start: ModuleView|
                old(self)@ == #[trigger] start.replay(old(log)@) ==> final(self)@ == start.replay(
                    final(log)@,
                ) && (start.admits_all(old(log)@) ==> start.admits_all(final(log)@)),
    {
        let ghost before = self@;
        proof {
            lemma_listed(before, block, pos as int);
        }
        let id: usize = self.blocks[block].insts.remove(pos);
        assert(id == before.blocks[block as int].insts[pos as int]);
        assert(id < before.insts.len());
        self.insts[id].erased = true;
        log.push(Edit::Erase { block, pos });
        proof {
            let e = log@.last();
            assert(log@.drop_last() == old(log)@);
            assert(self@.insts == before.with_erased(block, pos as int).insts);
            assert(self@.blocks == before.with_erased(block, pos as int).blocks);
            assert(self@.funcs == before.funcs);
            assert(self@.globals == before.globals);
            assert(self@.consts == before.consts);
            lemma_apply_wf(before, e);
            lemma_apply_extends(before, e);
        }
    }
}

impl Module {
    /// Decides whether `o` exists and stays within function `func`.
    fn operand_fits(&self, func: usize, o: Operand) -> (b: bool)
        requires
            self@.wf(),
        ensures
            b == (self@.valid_operand(o) && self@.local_operand(func, o)),
    {
        proof {
            reveal(ModuleView::wf);
        }
        match o {
            Operand::Value(Value::Inst(j)) => {
                if j >= self.insts.len() || self.insts[j].erased {
                    return false;
                }
                assert(self@.insts[j as int].block < self@.blocks.len());
                self.blocks[self.insts[j].block].func == func
            },
            Operand::Value(Value::Const(c)) => c < self.consts.len(),
            Operand::Value(Value::Func(f)) => f < self.funcs.len(),
            Operand::Value(_) => true,
            Operand::Block(b) => b < self.blocks.len() && self.blocks[b].func == func,
        }
    }

    /// Decides whether instruction `id` has no use in a live instruction
    /// other than itself.
    fn is_unused(&self, id: usize) -> (b: bool)
        ensures
            b == self@.unused(id),
    {
        let n: usize = self.insts.len();
        let mut i: usize = 0;
        while i < n
            invariant
                i <= n,
                n == self@.insts.len(),
                forall|x: int, k: int|
                    0 <= x < i && !self@.insts[x].erased && x != id && 0 <= k
                        < self@.insts[x].operands.len() ==> #[trigger] self@.insts[x].operands[k]
                        != inst_operand(id),
            decreases n - i,
        {
            if !self.insts[i].erased && i != id {
                let total: usize = self.insts[i].operands.len();
                let mut k: usize = 0;
                while k < total
                    invariant
                        i < n,
                        n == self@.insts.len(),
                        total == self@.insts[i as int].operands.len(),
                        k <= total,
                        !self@.insts[i as int].erased,
                        i != id,
                        forall|y: int|
                            0 <= y < k ==> #[trigger] self@.insts[i as int].operands[y] != inst_operand(
                                id,
                            ),
                    decreases total - k,
                {
                    if self.insts[i].operands[k] == Operand::Value(Value::Inst(id)) {
                        assert(self@.insts[i as int].operands[k as int] == inst_operand(id));
                        return false;
                    }
                    k += 1;
                }
            }
            i += 1;
        }
        true
    }

    /// Decides whether a new instruction with these operands can be put at
    /// position `pos` of `block`.
    fn admits_insert(&self, block: usize, pos: usize, operands: &Vec<Operand>) -> (b: bool)
        requires
            self@.wf(),
        ensures
            b == {
                &&& block < self@.blocks.len()
                &&& pos <= self@.blocks[block as int].insts.len()
                &&& self@.insts.len() < usize::MAX
                &&& forall|k: int|
                    0 <= k < operands@.len() ==> self@.valid_operand(#[trigger] operands@[k])
                        && self@.local_operand(self@.blocks[block as int].func, operands@[k])
            },
    {
        if block >= self.blocks.len() || pos > self.blocks[block].insts.len() || self.insts.len()
            >= usize::MAX {
            return false;
        }
        let func: usize = self.blocks[block].func;
        let total: usize = operands.len();
        let mut k: usize = 0;
        while k < total
            invariant
                self@.wf(),
                block < self@.blocks.len(),
                func == self@.blocks[block as int].func,
                total == operands@.len(),
                k <= total,
                forall|y: int|
                    0 <= y < k ==> self@.valid_operand(#[trigger] operands@[y])
                        && self@.local_operand(func, operands@[y]),
            decreases total - k,
        {
            if !self.operand_fits(func, operands[k]) {
                assert(!(self@.valid_operand(operands@[k as int]) && self@.local_operand(
                    func,
                    operands@[k as int],
                )));
                return false;
            }
            k += 1;
        }
        true
    }

    /// Decides whether the module admits the edit.
    pub fn admits(&self, e: &Edit) -> (b: bool)
        requires
            self@.wf(),
        ensures
            b == self@.admits(*e),
    {
        proof {
            reveal(ModuleView::wf);
        }
        match e {
            Edit::Insert { block, pos, op, ty, slot, operands } => self.admits_insert(
                *block,
                *pos,
                operands,
            ),
            Edit::ReplaceUses { from, to } => {
                if *from >= self.insts.len() || *to >= self.insts.len() || self.insts[*to].erased {
                    return false;
                }
                assert(self@.insts[*from as int].block < self@.blocks.len());
                assert(self@.insts[*to as int].block < self@.blocks.len());
                self.blocks[self.insts[*to].block].func == self.blocks[self.insts[*from].block].func
            },
            Edit::SetOperand { inst, index, operand } => {
                if *inst >= self.insts.len() || *index >= self.insts[*inst].operands.len() {
                    return false;
                }
                assert(self@.insts[*inst as int].block < self@.blocks.len());
                let func: usize = self.blocks[self.insts[*inst].block].func;
                self.operand_fits(func, *operand)
            },
            Edit::Erase { block, pos } => {
                if *block >= self.blocks.len() || *pos >= self.blocks[*block].insts.len() {
                    return false;
                }
                self.is_unused(self.blocks[*block].insts[*pos])
            },
        }
    }

    /// Makes one edit, if the module admits it. Returns whether it did.
    pub fn apply(&mut self, e: &Edit) -> (done: bool)
        requires
            old(self)@.wf(),
        ensures
            final(self)@.wf(),
            done == old(self)@.admits(*e),
            done ==> final(self)@ == old(self)@.apply(*e),
            !done ==> final(self)@ == old(self)@,
    {
        if !self.admits(e) {
            return false;
        }
        let mut scratch: Vec<Edit> = Vec::new();
        match e {
            Edit::Insert { block, pos, op, ty, slot, operands } => {
                self.put_inst(*block, *pos, *op, *ty, *slot, copy_operands(operands));
            },
            Edit::ReplaceUses { from, to } => {
                self.replace_uses(*from, *to, &mut scratch);
            },
            Edit::SetOperand { inst, index, operand } => {
                self.set_operand(*inst, *index, *operand, &mut scratch);
            },
            Edit::Erase { block, pos } => {
                self.erase(*block, *pos, &mut scratch);
            },
        }
        true
    }

    /// Makes the edits of a script in order, up to the first that the
    /// module does not admit. Returns the number of edits made.
    pub fn replay(&mut self, edits: &Vec<Edit>) -> (done: usize)
        requires
            old(self)@.wf(),
        ensures
            final(self)@.wf(),
            done <= edits@.len(),
            old(self)@.admits_all(edits@.take(done as int)),
            final(self)@ == old(self)@.replay(edits@.take(done as int)),
            done < edits@.len() ==> !final(self)@.admits(edits@[done as int]),
            done == edits@.len() <==> old(self)@.admits_all(edits@),
    {
        let total: usize = edits.len();
        let mut done: usize = 0;
        assert(edits@.take(0) == Seq::<Edit>::empty());
        while done < total
            invariant
                self@.wf(),
                total == edits@.len(),
                done <= total,
                old(self)@.admits_all(edits@.take(done as int)),
                self@ == old(self)@.replay(edits@.take(done as int)),
            decreases total - done,
        {
            proof {
                assert(edits@.take(done + 1).drop_last() == edits@.take(done as int));
                assert(edits@.take(done + 1).last() == edits@[done as int]);
            }
            if !self.apply(&edits[done]) {
                proof {
                    if old(self)@.admits_all(edits@) {
                        lemma_admits_prefix(old(self)@, edits@, done + 1);
                    }
                }
                return done;
            }
            done += 1;
        }
        assert(edits@.take(total as int) == edits@);
        done
    }
}

/// Replaces each operand that names the result of `from` by one that names
/// the result of `to`.
fn replace_in(ops: &mut Vec<Operand>, from: usize, to: usize)
    ensures
        final(ops)@ == old(ops)@.map_values(|o: Operand| redirected(o, from, to)),
{
    let n: usize = ops.len();
    let mut k: usize = 0;
    while k < n
        invariant
            k <= n,
            n == ops@.len(),
            n == old(ops)@.len(),
            forall|i: int| 0 <= i < k ==> (#[trigger] ops@[i]) == redirected(old(ops)@[i], from, to),
            forall|i: int| k <= i < n ==> (#[trigger] ops@[i]) == old(ops)@[i],
        decreases n - k,
    {
        if ops[k] == Operand::Value(Value::Inst(from)) {
            ops[k] = Operand::Value(Value::Inst(to));
        }
        k += 1;
    }
    assert(ops@ == old(ops)@.map_values(|o: Operand| redirected(o, from, to)));
}

} // verus!
