//! The globalization pass: every operand that is a constant pointer to a
//! known global variable gives way to the result of a call of `globalify`
//! on that pointer, put immediately before the instruction that uses it.
//!
//! The pass works through each function with a worklist: the instructions
//! and blocks of the function are pending at first; working on a pending
//! instruction may discover further instructions and blocks through its
//! operands, which are pending in the next round; the pass is over when a
//! round discovers nothing.

use vstd::prelude::*;
use crate::callsite::call_view;
use crate::edit::{journaled, lemma_inserted_facts, Edit};
use crate::error::PassError;
use crate::model::{
    lemma_block_owner, lemma_home_kept, lemma_listed, lemma_owned, lemma_position,
    lemma_sizes_fit, ModuleView,
};
use crate::module::Module;
use crate::names::{assert_fail_name, is_assert_fail, is_excluded, is_runtime_name};
use crate::report::PassReport;
use crate::table::{resolve, resolved, RuntimeTable};
use crate::types::{func_operand, inst_operand, Opcode, Operand, Ty, Value};

verus! {

/// True when the operand is a constant pointer that names a known global
/// variable: the constant has a name, and the global table holds a variable
/// of exactly that name.
pub open spec fn globalizable(mv: ModuleView, o: Operand) -> bool {
    o matches Operand::Value(Value::Const(c)) && c < mv.consts.len() && mv.consts[c as int].ty
        is Pointer && mv.consts[c as int].name.len() > 0 && mv.has_global(mv.consts[c as int].name)
}

/// True when the operands of instruction `id` are left as they are: it is a
/// call whose last operand, the function called, is the assertion-failure
/// entry point, whose arguments are literal addresses, or `globalify`
/// itself, whose argument is the address that the runtime must see.
pub open spec fn exempt(mv: ModuleView, t: RuntimeTable, id: usize) -> bool {
    let inst = mv.insts[id as int];
    &&& inst.op == Opcode::Call
    &&& inst.operands.len() > 0
    &&& inst.operands.last() matches Operand::Value(Value::Func(f))
    &&& f < mv.funcs.len()
    &&& (f == t.globalify || mv.funcs[f as int].name == assert_fail_name())
}

/// The module after the operands from index `k` on of the instruction at
/// position `pos` of `block` have been globalized, `count` of them. Each
/// globalizable operand becomes the result of a new call of `globalify`
/// that stands immediately before the instruction.
pub open spec fn globalized_from(
    mv: ModuleView,
    t: RuntimeTable,
    block: usize,
    pos: int,
    k: int,
    count: nat,
) -> Result<ModuleView, PassError>
    decreases count,
{
    let id = mv.blocks[block as int].insts[pos];
    if count == 0 {
        Ok(mv)
    } else if !globalizable(mv, mv.insts[id as int].operands[k]) {
        globalized_from(mv, t, block, pos, k + 1, (count - 1) as nat)
    } else if !(mv.funcs[t.globalify as int].ret is Pointer) {
        Err(PassError::UnexpectedReturn { inst: id })
    } else if mv.insts.len() >= usize::MAX {
        Err(PassError::ArenaFull { inst: id })
    } else {
        globalized_from(
            mv.inserted(
                block,
                pos,
                call_view(
                    block,
                    Ty::Pointer,
                    seq![mv.insts[id as int].operands[k], func_operand(t.globalify)],
                ),
            ).operand_set(id, k, inst_operand(mv.insts.len() as usize)),
            t,
            block,
            pos + 1,
            k + 1,
            (count - 1) as nat,
        )
    }
}

/// The module after the instruction at position `pos` of `block` has been
/// globalized; an exempt instruction is left as it is.
#[verifier::opaque]
pub open spec fn globalized_at(mv: ModuleView, t: RuntimeTable, block: usize, pos: int) -> Result<
    ModuleView,
    PassError,
> {
    let id = mv.blocks[block as int].insts[pos];
    if exempt(mv, t, id) {
        Ok(mv)
    } else {
        globalized_from(mv, t, block, pos, 0, mv.insts[id as int].operands.len())
    }
}

/// Decides [`globalizable`].
pub fn is_globalizable(m: &Module, o: Operand) -> (b: bool)
    ensures
        b == globalizable(m@, o),
{
    match o {
        Operand::Value(Value::Const(c)) => {
            if c >= m.const_count() {
                return false;
            }
            match m.const_ty(c) {
                Ty::Pointer => {
                    let name = m.const_name(c);
                    if name.unicode_len() == 0 {
                        false
                    } else {
                        m.has_global(name)
                    }
                },
                _ => false,
            }
        },
        _ => false,
    }
}

/// Decides [`exempt`].
pub fn is_exempt(m: &Module, t: &RuntimeTable, id: usize) -> (b: bool)
    requires
        id < m@.insts.len(),
    ensures
        b == exempt(m@, *t, id),
{
    match m.inst_op(id) {
        Opcode::Call => {
            let n: usize = m.operand_count(id);
            if n == 0 {
                return false;
            }
            match m.operand(id, n - 1) {
                Operand::Value(Value::Func(f)) => {
                    if f >= m.function_count() {
                        false
                    } else {
                        f == t.globalify || is_assert_fail(m.func_name(f))
                    }
                },
                _ => false,
            }
        },
        _ => false,
    }
}

/// Globalizes the operands of the instruction at position `pos` of `block`.
pub fn globalize_at(
    m: &mut Module,
    t: &RuntimeTable,
    block: usize,
    pos: usize,
    log: &mut Vec<Edit>,
) -> (r: Result<(), PassError>)
    requires
        old(m)@.wf(),
        t.fits(old(m)@),
        block < old(m)@.blocks.len(),
        pos < old(m)@.blocks[block as int].insts.len(),
    ensures
        final(m)@.wf(),
        final(m)@.keeps_live(old(m)@),
        journaled(old(m)@, old(log)@, final(m)@, final(log)@),
        globalized_at(old(m)@, *t, block, pos as int) == (match r {
            Ok(_) => Ok::<ModuleView, PassError>(final(m)@),
            Err(e) => Err::<ModuleView, PassError>(e),
        }),
{
    reveal(globalized_at);
    let id: usize = m.block_inst(block, pos);
    proof {
        lemma_listed(m@, block, pos as int);
    }
    if is_exempt(m, t, id) {
        return Ok(());
    }
    let total: usize = m.operand_count(id);
    let target: usize = t.globalify;
    assert(t.target(crate::names::RuntimeOp::Globalify) < m@.funcs.len());
    let ret = m.func_ret(target);
    let mut at: usize = pos;
    let mut k: usize = 0;
    while k < total
        invariant
            m@.wf(),
            m@.keeps_live(old(m)@),
            journaled(old(m)@, old(log)@, m@, log@),
            t.fits(m@),
            target == t.globalify,
            target < m@.funcs.len(),
            ret == m@.funcs[target as int].ret,
            block < m@.blocks.len(),
            at < m@.blocks[block as int].insts.len(),
            m@.blocks[block as int].insts[at as int] == id,
            id < m@.insts.len(),
            total == m@.insts[id as int].operands.len(),
            k <= total,
            globalized_from(m@, *t, block, at as int, k as int, (total - k) as nat)
                == globalized_at(old(m)@, *t, block, pos as int),
        decreases total - k,
    {
        proof {
            lemma_listed(m@, block, at as int);
            m.lemma_sizes();
        }
        let o = m.operand(id, k);
        if is_globalizable(m, o) {
            match ret {
                Ty::Pointer => {},
                _ => {
                    return Err(PassError::UnexpectedReturn { inst: id });
                },
            }
            if m.instruction_count() >= usize::MAX {
                return Err(PassError::ArenaFull { inst: id });
            }
            let ghost here = m@;
            let mut args: Vec<Operand> = Vec::new();
            args.push(o);
            args.push(Operand::Value(Value::Func(target)));
            assert(args@ == seq![o, func_operand(target)]);
            let call: usize = m.insert_inst(block, at, Opcode::Call, Ty::Pointer, Ty::Void, args, log);
            proof {
                lemma_inserted_facts(
                    here,
                    block,
                    at as int,
                    call_view(block, Ty::Pointer, seq![o, func_operand(target)]),
                );
                m.lemma_sizes();
                assert(m@.blocks[block as int].insts.len() <= usize::MAX);
            }
            m.set_operand(id, k, Operand::Value(Value::Inst(call)), log);
            at = at + 1;
        }
        k = k + 1;
    }
    Ok(())
}

/// The instructions of the blocks `blocks[k..]`, in program order.
pub open spec fn listed_from(mv: ModuleView, blocks: Seq<usize>, k: int) -> Seq<usize>
    decreases blocks.len() - k,
{
    if k < 0 || k >= blocks.len() {
        Seq::empty()
    } else {
        mv.blocks[blocks[k] as int].insts + listed_from(mv, blocks, k + 1)
    }
}

/// The module after instruction `id` has been globalized where it stands.
pub open spec fn globalized_inst(mv: ModuleView, t: RuntimeTable, id: usize) -> Result<
    ModuleView,
    PassError,
> {
    globalized_at(mv, t, mv.insts[id as int].block, mv.position(id))
}

/// The module after the instructions `order[k..]` have been globalized one
/// after the other.
pub open spec fn globalized_seq(mv: ModuleView, t: RuntimeTable, order: Seq<usize>, k: int) -> Result<
    ModuleView,
    PassError,
>
    decreases order.len() - k,
{
    if k < 0 || k >= order.len() {
        Ok(mv)
    } else {
        match globalized_inst(mv, t, order[k]) {
            Err(e) => Err(e),
            Ok(next) => globalized_seq(next, t, order, k + 1),
        }
    }
}

/// The module after function `f` has been globalized: every instruction
/// that the function holds at the outset is globalized once, in program
/// order. A runtime function is left as it is.
pub open spec fn globalized_function(mv: ModuleView, t: RuntimeTable, f: int) -> Result<
    ModuleView,
    PassError,
> {
    if is_runtime_name(mv.funcs[f].name) {
        Ok(mv)
    } else {
        globalized_seq(mv, t, listed_from(mv, mv.funcs[f].blocks, 0), 0)
    }
}

/// The module after `count` functions have been globalized in order,
/// starting with function `f`.
pub open spec fn globalized_functions(mv: ModuleView, t: RuntimeTable, f: int, count: nat) -> Result<
    ModuleView,
    PassError,
>
    decreases count,
{
    if count == 0 {
        Ok(mv)
    } else {
        match globalized_function(mv, t, f) {
            Err(e) => Err(e),
            Ok(next) => globalized_functions(next, t, f + 1, (count - 1) as nat),
        }
    }
}

/// What the globalization pass makes of a module, or the first reason for
/// which it gives up. The runtime functions are looked up before anything
/// is rewritten.
pub open spec fn globalizing(mv: ModuleView) -> Result<ModuleView, PassError> {
    match resolved(mv) {
        Err(e) => Err(e),
        Ok(t) => globalized_functions(mv, t, 0, mv.funcs.len()),
    }
}

/// A list of `n` flags, none of them set.
fn unset_flags(n: usize) -> (v: Vec<bool>)
    ensures
        v@.len() == n,
        forall|i: int| 0 <= i < n ==> !v@[i],
{
    let mut v: Vec<bool> = Vec::new();
    let mut i: usize = 0;
    while i < n
        invariant
            i <= n,
            v@.len() == i,
            forall|j: int| 0 <= j < i ==> !v@[j],
        decreases n - i,
    {
        v.push(false);
        i += 1;
    }
    v
}

/// What the worklist of one function holds.
struct Worklist {
    /// Instructions that the next round works on.
    pending_insts: Vec<usize>,
    /// Blocks that the next round works on.
    pending_blocks: Vec<usize>,
    /// For each instruction that was there at the outset, whether it has
    /// been pending.
    seen_insts: Vec<bool>,
    /// For each block, whether it has been pending.
    seen_blocks: Vec<bool>,
}

/// True when every live instruction and every block of function `f` has
/// been pending.
spec fn covers(seen_insts: Seq<bool>, seen_blocks: Seq<bool>, mv: ModuleView, f: usize) -> bool {
    &&& seen_blocks.len() == mv.blocks.len()
    &&& seen_insts.len() <= mv.insts.len()
    &&& forall|b: int| 0 <= b < mv.blocks.len() && mv.blocks[b].func == f ==> seen_blocks[b]
    &&& forall|j: int|
        0 <= j < seen_insts.len() && !mv.insts[j].erased && mv.home(j) == f ==> seen_insts[j]
}

/// True when everything pending belongs to function `f` and was there at
/// the outset.
spec fn within(
    pending_insts: Seq<usize>,
    pending_blocks: Seq<usize>,
    slots: nat,
    mv: ModuleView,
    f: usize,
) -> bool {
    &&& forall|x: int|
        0 <= x < pending_insts.len() ==> {
            &&& (#[trigger] pending_insts[x]) < slots
            &&& !mv.insts[pending_insts[x] as int].erased
            &&& mv.home(pending_insts[x] as int) == f
        }
    &&& forall|x: int|
        0 <= x < pending_blocks.len() ==> (#[trigger] pending_blocks[x]) < mv.blocks.len()
            && mv.blocks[pending_blocks[x] as int].func == f
}

/// Starts the worklist of function `f`: all its blocks and all their
/// instructions are pending.
fn seed(m: &Module, f: usize) -> (w: Worklist)
    requires
        m@.wf(),
        f < m@.funcs.len(),
    ensures
        w.pending_insts@ == listed_from(m@, m@.funcs[f as int].blocks, 0),
        w.pending_blocks@ == m@.funcs[f as int].blocks,
        w.seen_insts@.len() == m@.insts.len(),
        covers(w.seen_insts@, w.seen_blocks@, m@, f),
        within(w.pending_insts@, w.pending_blocks@, m@.insts.len(), m@, f),
{
    let mut seen_insts = unset_flags(m.instruction_count());
    let mut seen_blocks = unset_flags(m.block_count());
    let mut pending_insts: Vec<usize> = Vec::new();
    let mut pending_blocks: Vec<usize> = Vec::new();
    let total: usize = m.func_block_count(f);
    let ghost blocks = m@.funcs[f as int].blocks;
    let mut k: usize = 0;
    while k < total
        invariant
            m@.wf(),
            f < m@.funcs.len(),
            blocks == m@.funcs[f as int].blocks,
            total == blocks.len(),
            k <= total,
            seen_insts@.len() == m@.insts.len(),
            seen_blocks@.len() == m@.blocks.len(),
            pending_blocks@ == blocks.subrange(0, k as int),
            pending_insts@ + listed_from(m@, blocks, k as int) == listed_from(m@, blocks, 0),
            forall|j: int|
                0 <= j < k ==> (#[trigger] blocks[j]) < m@.blocks.len() && seen_blocks@[blocks[j] as int],
            forall|j: int, p: int|
                0 <= j < k && 0 <= p < m@.blocks[blocks[j] as int].insts.len() ==> (
                #[trigger] m@.blocks[blocks[j] as int].insts[p]) < m@.insts.len()
                    && seen_insts@[m@.blocks[blocks[j] as int].insts[p] as int],
            forall|x: int|
                0 <= x < pending_insts@.len() ==> {
                    &&& (#[trigger] pending_insts@[x]) < m@.insts.len()
                    &&& !m@.insts[pending_insts@[x] as int].erased
                    &&& m@.home(pending_insts@[x] as int) == f
                },
        decreases total - k,
    {
        let b: usize = m.func_block(f, k);
        proof {
            lemma_owned(m@, f as int, k as int);
        }
        seen_blocks[b] = true;
        pending_blocks.push(b);
        let len: usize = m.block_len(b);
        let ghost base = pending_insts@;
        let ghost marked = seen_insts@;
        let mut p: usize = 0;
        while p < len
            invariant
                m@.wf(),
                b < m@.blocks.len(),
                m@.blocks[b as int].func == f,
                len == m@.blocks[b as int].insts.len(),
                p <= len,
                seen_insts@.len() == m@.insts.len(),
                pending_insts@ == base + m@.blocks[b as int].insts.subrange(0, p as int),
                forall|q: int|
                    0 <= q < p ==> (#[trigger] m@.blocks[b as int].insts[q]) < m@.insts.len()
                        && seen_insts@[m@.blocks[b as int].insts[q] as int],
                marked.len() == seen_insts@.len(),
                forall|j: int| 0 <= j < marked.len() && marked[j] ==> seen_insts@[j],
                forall|x: int|
                    0 <= x < pending_insts@.len() ==> {
                        &&& (#[trigger] pending_insts@[x]) < m@.insts.len()
                        &&& !m@.insts[pending_insts@[x] as int].erased
                        &&& m@.home(pending_insts@[x] as int) == f
                    },
            decreases len - p,
        {
            let i: usize = m.block_inst(b, p);
            proof {
                lemma_listed(m@, b, p as int);
            }
            seen_insts[i] = true;
            pending_insts.push(i);
            p += 1;
        }
        proof {
            let list = m@.blocks[b as int].insts;
            assert(list.subrange(0, len as int) == list);
            assert(listed_from(m@, blocks, k as int) == list + listed_from(m@, blocks, k + 1));
            assert((base + list) + listed_from(m@, blocks, k + 1) == base + (list + listed_from(
                m@,
                blocks,
                k + 1,
            )));
            assert(blocks.subrange(0, k as int).push(b) == blocks.subrange(0, k + 1));
        }
        k += 1;
    }
    let w = Worklist { pending_insts, pending_blocks, seen_insts, seen_blocks };
    proof {
        assert(blocks.subrange(0, total as int) == blocks);
        assert(listed_from(m@, blocks, total as int) == Seq::<usize>::empty());
        assert(w.pending_insts@ + Seq::<usize>::empty() == w.pending_insts@);
        assert forall|x: int| 0 <= x < w.pending_blocks@.len() implies (
        #[trigger] w.pending_blocks@[x]) < m@.blocks.len() && m@.blocks[w.pending_blocks@[x] as int].func
            == f by {
            lemma_owned(m@, f as int, x);
        }
        assert forall|b: int|
            0 <= b < m@.blocks.len() && m@.blocks[b].func == f implies w.seen_blocks@[b] by {
            lemma_block_owner(m@, b as usize);
            let j = choose|j: int| 0 <= j < blocks.len() && blocks[j] == b;
            assert(w.seen_blocks@[blocks[j] as int]);
        }
        assert forall|j: int|
            0 <= j < w.seen_insts@.len() && !m@.insts[j].erased && m@.home(j)
                == f implies w.seen_insts@[j] by {
            lemma_position(m@, j as usize);
            let b = m@.insts[j].block;
            let x = choose|x: int| 0 <= x < blocks.len() && blocks[x] == b;
            let p = m@.position(j as usize);
            assert(w.seen_insts@[m@.blocks[blocks[x] as int].insts[p] as int]);
        }
    }
    w
}

/// True when every instruction and every block that an operand of
/// instruction `i` names has been pending.
spec fn operands_seen(mv: ModuleView, i: usize, seen_insts: Seq<bool>, seen_blocks: Seq<bool>) -> bool {
    forall|k: int|
        0 <= k < mv.insts[i as int].operands.len() ==> match #[trigger] mv.insts[i as int].operands[k] {
            Operand::Value(Value::Inst(j)) => j < seen_insts.len() ==> seen_insts[j as int],
            Operand::Block(b) => b < seen_blocks.len() ==> seen_blocks[b as int],
            _ => true,
        }
}

/// True when every instruction of block `b` that was there at the outset has
/// been pending.
spec fn block_seen(mv: ModuleView, b: usize, seen_insts: Seq<bool>) -> bool {
    forall|p: int|
        0 <= p < mv.blocks[b as int].insts.len() && (#[trigger] mv.blocks[b as int].insts[p])
            < seen_insts.len() ==> seen_insts[mv.blocks[b as int].insts[p] as int]
}

/// Looks through the operands of instruction `i` for instructions and
/// blocks that have not been pending: the producer of an integer operand,
/// and a block that an operand refers to. What it finds is marked and put on
/// the lists of what was found, in the order of the operands. Where
/// everything that the operands name has been pending, it finds nothing.
fn discover(
    m: &Module,
    i: usize,
    seen_insts: &mut Vec<bool>,
    seen_blocks: &mut Vec<bool>,
    found_insts: &mut Vec<usize>,
    found_blocks: &mut Vec<usize>,
)
    requires
        m@.wf(),
        i < m@.insts.len(),
        !m@.insts[i as int].erased,
    ensures
        (Marks {
            seen_insts: final(seen_insts)@,
            seen_blocks: final(seen_blocks)@,
            found_insts: final(found_insts)@,
            found_blocks: final(found_blocks)@,
        }) == noted_to(
            m@,
            i,
            m@.insts[i as int].operands.len() as int,
            (Marks {
                seen_insts: old(seen_insts)@,
                seen_blocks: old(seen_blocks)@,
                found_insts: old(found_insts)@,
                found_blocks: old(found_blocks)@,
            }),
        ),
        final(seen_insts)@.len() == old(seen_insts)@.len(),
        final(seen_blocks)@.len() == old(seen_blocks)@.len(),
        operands_seen(m@, i, old(seen_insts)@, old(seen_blocks)@) ==> {
            &&& final(seen_insts)@ == old(seen_insts)@
            &&& final(seen_blocks)@ == old(seen_blocks)@
            &&& final(found_insts)@ == old(found_insts)@
            &&& final(found_blocks)@ == old(found_blocks)@
        },
{
    let total: usize = m.operand_count(i);
    let ghost was_insts = seen_insts@;
    let ghost was_blocks = seen_blocks@;
    let ghost had_insts = found_insts@;
    let ghost had_blocks = found_blocks@;
    let ghost start = Marks {
        seen_insts: was_insts,
        seen_blocks: was_blocks,
        found_insts: had_insts,
        found_blocks: had_blocks,
    };
    let mut k: usize = 0;
    while k < total
        invariant
            m@.wf(),
            i < m@.insts.len(),
            !m@.insts[i as int].erased,
            total == m@.insts[i as int].operands.len(),
            k <= total,
            start == (Marks {
                seen_insts: was_insts,
                seen_blocks: was_blocks,
                found_insts: had_insts,
                found_blocks: had_blocks,
            }),
            (Marks {
                seen_insts: seen_insts@,
                seen_blocks: seen_blocks@,
                found_insts: found_insts@,
                found_blocks: found_blocks@,
            }) == noted_to(m@, i, k as int, start),
            seen_insts@.len() == was_insts.len(),
            seen_blocks@.len() == was_blocks.len(),
            operands_seen(m@, i, was_insts, was_blocks) ==> {
                &&& seen_insts@ == was_insts
                &&& seen_blocks@ == was_blocks
                &&& found_insts@ == had_insts
                &&& found_blocks@ == had_blocks
            },
        decreases total - k,
    {
        let o = m.operand(i, k);
        assert(m@.valid_operand(m@.insts[i as int].operands[k as int])) by {
            reveal(ModuleView::wf);
        }
        match o {
            Operand::Value(Value::Inst(j)) => {
                let whole = match m.inst_ty(j) {
                    Ty::Int(_) => true,
                    _ => false,
                };
                if whole && j < seen_insts.len() && !seen_insts[j] {
                    seen_insts[j] = true;
                    found_insts.push(j);
                }
            },
            Operand::Block(b) => {
                if b < seen_blocks.len() && !seen_blocks[b] {
                    seen_blocks[b] = true;
                    found_blocks.push(b);
                }
            },
            _ => {},
        }
        k += 1;
    }
}

/// Looks through block `b` for instructions that were there at the outset
/// and have not been pending. What it finds is marked and put on the list of
/// what was found, in program order. Where all of them have been pending, it
/// finds nothing.
fn discover_in_block(m: &Module, b: usize, seen_insts: &mut Vec<bool>, found_insts: &mut Vec<usize>)
    requires
        b < m@.blocks.len(),
    ensures
        (final(seen_insts)@, final(found_insts)@) == swept_to(
            m@,
            b,
            m@.blocks[b as int].insts.len() as int,
            old(seen_insts)@,
            old(found_insts)@,
        ),
        final(seen_insts)@.len() == old(seen_insts)@.len(),
        block_seen(m@, b, old(seen_insts)@) ==> {
            &&& final(seen_insts)@ == old(seen_insts)@
            &&& final(found_insts)@ == old(found_insts)@
        },
{
    let total: usize = m.block_len(b);
    let ghost was_insts = seen_insts@;
    let ghost had_insts = found_insts@;
    let mut p: usize = 0;
    while p < total
        invariant
            b < m@.blocks.len(),
            total == m@.blocks[b as int].insts.len(),
            p <= total,
            (seen_insts@, found_insts@) == swept_to(m@, b, p as int, was_insts, had_insts),
            seen_insts@.len() == was_insts.len(),
            block_seen(m@, b, was_insts) ==> {
                &&& seen_insts@ == was_insts
                &&& found_insts@ == had_insts
            },
        decreases total - p,
    {
        let i: usize = m.block_inst(b, p);
        if i < seen_insts.len() && !seen_insts[i] {
            seen_insts[i] = true;
            found_insts.push(i);
        }
        p += 1;
    }
}

/// What a worklist has marked as having been pending, and what it has
/// found in the round at hand.
struct Marks {
    seen_insts: Seq<bool>,
    seen_blocks: Seq<bool>,
    found_insts: Seq<usize>,
    found_blocks: Seq<usize>,
}

/// The marks and the finds after index `x` has come up: where the marks
/// reach as far as `x` and `x` is not marked, it is marked and found; else
/// nothing changes.
spec fn marked(seen: Seq<bool>, found: Seq<usize>, x: usize) -> (Seq<bool>, Seq<usize>) {
    if x < seen.len() && !seen[x as int] {
        (seen.update(x as int, true), found.push(x))
    } else {
        (seen, found)
    }
}

/// The marks after operand `o` has been looked at: the instruction that
/// produces an integer operand, and the block that an operand refers to,
/// come up; any other operand leads to nothing.
spec fn noted(mv: ModuleView, marks: Marks, o: Operand) -> Marks {
    match o {
        Operand::Value(Value::Inst(j)) => if mv.insts[j as int].ty is Int {
            Marks {
                seen_insts: marked(marks.seen_insts, marks.found_insts, j).0,
                found_insts: marked(marks.seen_insts, marks.found_insts, j).1,
                ..marks
            }
        } else {
            marks
        },
        Operand::Block(b) => Marks {
            seen_blocks: marked(marks.seen_blocks, marks.found_blocks, b).0,
            found_blocks: marked(marks.seen_blocks, marks.found_blocks, b).1,
            ..marks
        },
        _ => marks,
    }
}

/// The marks after the operands before index `upto` of instruction `i` have
/// been looked at in order.
spec fn noted_to(mv: ModuleView, i: usize, upto: int, marks: Marks) -> Marks
    decreases upto,
{
    if upto <= 0 {
        marks
    } else {
        noted(mv, noted_to(mv, i, upto - 1, marks), mv.insts[i as int].operands[upto - 1])
    }
}

/// The marks and the finds after the instructions before position `upto` of
/// block `b` have come up in order.
spec fn swept_to(mv: ModuleView, b: usize, upto: int, seen: Seq<bool>, found: Seq<usize>) -> (
    Seq<bool>,
    Seq<usize>,
)
    decreases upto,
{
    if upto <= 0 {
        (seen, found)
    } else {
        let before = swept_to(mv, b, upto - 1, seen, found);
        marked(before.0, before.1, mv.blocks[b as int].insts[upto - 1])
    }
}

proof fn lemma_covers_kept(
    seen_insts: Seq<bool>,
    seen_blocks: Seq<bool>,
    pending_insts: Seq<usize>,
    pending_blocks: Seq<usize>,
    cur: ModuleView,
    next: ModuleView,
    f: usize,
)
    requires
        cur.wf(),
        next.keeps_live(cur),
        covers(seen_insts, seen_blocks, cur, f),
        within(pending_insts, pending_blocks, seen_insts.len(), cur, f),
    ensures
        covers(seen_insts, seen_blocks, next, f),
        within(pending_insts, pending_blocks, seen_insts.len(), next, f),
{
    assert forall|j: int|
        0 <= j < seen_insts.len() && !next.insts[j].erased && next.home(j) == f implies seen_insts[j] by {
        lemma_sizes_fit(cur);
        lemma_home_kept(cur, next, j as usize);
    }
    assert forall|x: int| 0 <= x < pending_insts.len() implies {
        &&& (#[trigger] pending_insts[x]) < seen_insts.len()
        &&& !next.insts[pending_insts[x] as int].erased
        &&& next.home(pending_insts[x] as int) == f
    } by {
        lemma_home_kept(cur, next, pending_insts[x]);
    }
}

/// Globalizes one function with a worklist, unless it is a runtime
/// function.
fn globalize_function(m: &mut Module, t: &RuntimeTable, f: usize, log: &mut Vec<Edit>) -> (r: Result<
    (),
    PassError,
>)
    requires
        old(m)@.wf(),
        t.fits(old(m)@),
        f < old(m)@.funcs.len(),
    ensures
        final(m)@.wf(),
        final(m)@.keeps_live(old(m)@),
        journaled(old(m)@, old(log)@, final(m)@, final(log)@),
        globalized_function(old(m)@, *t, f as int) == (match r {
            Ok(_) => Ok::<ModuleView, PassError>(final(m)@),
            Err(e) => Err::<ModuleView, PassError>(e),
        }),
{
    if is_excluded(m.func_name(f)) {
        return Ok(());
    }
    let w = seed(m, f);
    let mut pending_insts = w.pending_insts;
    let mut pending_blocks = w.pending_blocks;
    let mut seen_insts = w.seen_insts;
    let mut seen_blocks = w.seen_blocks;
    while pending_insts.len() > 0 || pending_blocks.len() > 0
        invariant
            m@.wf(),
            m@.keeps_live(old(m)@),
            journaled(old(m)@, old(log)@, m@, log@),
            t.fits(m@),
            covers(seen_insts@, seen_blocks@, m@, f),
            within(pending_insts@, pending_blocks@, seen_insts@.len(), m@, f),
            globalized_seq(m@, *t, pending_insts@, 0) == globalized_function(old(m)@, *t, f as int),
        decreases pending_insts.len() + pending_blocks.len(),
    {
        // What this round discovers. In a well-formed module no operand
        // leaves its function, and the function was pending as a whole, so
        // that nothing is left to discover.
        let mut found_insts: Vec<usize> = Vec::new();
        let mut found_blocks: Vec<usize> = Vec::new();
        // Each pending instruction is looked through for what it leads to,
        // then globalized where it stands.
        let total: usize = pending_insts.len();
        let mut x: usize = 0;
        while x < total
            invariant
                m@.wf(),
                m@.keeps_live(old(m)@),
                journaled(old(m)@, old(log)@, m@, log@),
                t.fits(m@),
                covers(seen_insts@, seen_blocks@, m@, f),
                within(pending_insts@, pending_blocks@, seen_insts@.len(), m@, f),
                total == pending_insts@.len(),
                x <= total,
                found_insts@.len() == 0,
                found_blocks@.len() == 0,
                globalized_seq(m@, *t, pending_insts@, x as int) == globalized_function(
                    old(m)@,
                    *t,
                    f as int,
                ),
            decreases total - x,
        {
            let i: usize = pending_insts[x];
            let ghost here = m@;
            proof {
                lemma_position(here, i);
                assert(operands_seen(here, i, seen_insts@, seen_blocks@)) by {
                    lemma_listed(here, here.insts[i as int].block, here.position(i));
                }
            }
            discover(m, i, &mut seen_insts, &mut seen_blocks, &mut found_insts, &mut found_blocks);
            let b: usize = m.inst_block(i);
            match m.position_in_block(b, i) {
                Some(pos) => {
                    match globalize_at(m, t, b, pos, log) {
                        Err(e) => {
                            return Err(e);
                        },
                        Ok(_) => {},
                    }
                },
                None => {},
            }
            proof {
                lemma_covers_kept(
                    seen_insts@,
                    seen_blocks@,
                    pending_insts@,
                    pending_blocks@,
                    here,
                    m@,
                    f,
                );
            }
            x += 1;
        }
        // Each pending block is looked through for instructions that have
        // not been pending.
        let blocks: usize = pending_blocks.len();
        let mut y: usize = 0;
        while y < blocks
            invariant
                m@.wf(),
                covers(seen_insts@, seen_blocks@, m@, f),
                within(pending_insts@, pending_blocks@, seen_insts@.len(), m@, f),
                blocks == pending_blocks@.len(),
                y <= blocks,
                found_insts@.len() == 0,
            decreases blocks - y,
        {
            let b: usize = pending_blocks[y];
            proof {
                assert forall|p: int|
                    0 <= p < m@.blocks[b as int].insts.len() && (#[trigger] m@.blocks[b as int].insts[p])
                        < seen_insts@.len() implies seen_insts@[m@.blocks[b as int].insts[p] as int] by {
                    lemma_listed(m@, b, p);
                }
                assert(block_seen(m@, b, seen_insts@));
            }
            discover_in_block(m, b, &mut seen_insts, &mut found_insts);
            y += 1;
        }
        // What was discovered is pending in the next round.
        pending_insts = found_insts;
        pending_blocks = found_blocks;
    }
    Ok(())
}

/// The globalization pass. Looks up the runtime functions, then globalizes
/// every function that is not a runtime function.
///
/// On success the module is what [`globalizing`] says, the report lists the
/// edits that lead there from the module as it was, and `modified` tells
/// whether any operand was replaced. On failure the error is the one that
/// [`globalizing`] names; the module is then still well-formed, but may
/// have been rewritten in part.
pub fn globalize_module(m: &mut Module) -> (r: Result<PassReport, PassError>)
    requires
        old(m)@.wf(),
    ensures
        final(m)@.wf(),
        final(m)@.keeps_live(old(m)@),
        globalizing(old(m)@) == (match r {
            Ok(_) => Ok::<ModuleView, PassError>(final(m)@),
            Err(e) => Err::<ModuleView, PassError>(e),
        }),
        r matches Ok(report) ==> {
            &&& final(m)@ == old(m)@.replay(report.edits@)
            &&& old(m)@.admits_all(report.edits@)
            &&& report.modified == (report.edits@.len() > 0)
            &&& report.modified == (final(m)@.insts.len() > old(m)@.insts.len())
        },
        resolved(old(m)@) is Err ==> final(m)@ == old(m)@,
{
    let t = match resolve(m) {
        Ok(t) => t,
        Err(e) => {
            return Err(e);
        },
    };
    let mut log: Vec<Edit> = Vec::new();
    let total: usize = m.function_count();
    let mut f: usize = 0;
    while f < total
        invariant
            m@.wf(),
            m@.keeps_live(old(m)@),
            journaled(old(m)@, Seq::<Edit>::empty(), m@, log@),
            resolved(old(m)@) is Ok,
            t.fits(m@),
            f <= total,
            total == m@.funcs.len(),
            globalized_functions(m@, t, f as int, (total - f) as nat) == globalizing(old(m)@),
        decreases total - f,
    {
        match globalize_function(m, &t, f, &mut log) {
            Err(e) => {
                return Err(e);
            },
            Ok(_) => {},
        }
        f = f + 1;
    }
    let modified = log.len() > 0;
    assert(m@ == old(m)@.replay(log@) && old(m)@.admits_all(log@)) by {
        assert(old(m)@ == old(m)@.replay(Seq::<Edit>::empty()));
        assert(old(m)@.admits_all(Seq::<Edit>::empty()));
    }
    Ok(PassReport { modified, edits: log })
}

} // verus!
