//! What the globalization pass achieves, stated and proved over the model:
//! an instruction that it has worked on has nothing left to globalize, and
//! a second run changes nothing.

use vstd::prelude::*;
use crate::callsite::call_view;
use crate::edit::{lemma_inserted_facts, lemma_inserted_wf, lemma_operand_set_wf};
use crate::error::PassError;
use crate::globalize::{
    exempt, globalizable, globalized_at, globalized_from, globalized_function,
    globalized_functions, globalized_seq, globalizing, listed_from,
};
use crate::lower_proofs::lemma_resolved_fits;
use crate::model::{lemma_home_kept, lemma_listed, lemma_owned, lemma_position, ModuleView};
use crate::names::{is_runtime_name, RuntimeOp};
use crate::table::{resolved, RuntimeTable};
use crate::types::{func_operand, inst_operand, Ty};

verus! {

/// True when the pass has nothing to do for instruction `id`: it is exempt,
/// or none of its operands is a constant pointer to a known global.
pub open spec fn settled_inst(mv: ModuleView, t: RuntimeTable, id: usize) -> bool {
    exempt(mv, t, id) || forall|k: int|
        0 <= k < mv.insts[id as int].operands.len() ==> !globalizable(
            mv,
            #[trigger] mv.insts[id as int].operands[k],
        )
}

/// How the module after a step of the pass relates to the module before
/// it: nothing was erased, what was settled is settled, and every
/// instruction that was added is a call of `globalify`, which is exempt.
pub open spec fn advanced(earlier: ModuleView, later: ModuleView, t: RuntimeTable) -> bool {
    &&& later.wf()
    &&& later.keeps_live(earlier)
    &&& forall|j: usize|
        j < earlier.insts.len() && !earlier.insts[j as int].erased && settled_inst(earlier, t, j)
            ==> #[trigger] settled_inst(later, t, j)
    &&& forall|j: usize|
        earlier.insts.len() <= j < later.insts.len() ==> #[trigger] settled_inst(later, t, j)
    &&& forall|j: int|
        earlier.insts.len() <= j < later.insts.len() ==> !(#[trigger] later.insts[j]).erased
}

proof fn lemma_advanced_refl(mv: ModuleView, t: RuntimeTable)
    requires
        mv.wf(),
    ensures
        advanced(mv, mv, t),
{
}

proof fn lemma_advanced_trans(a: ModuleView, b: ModuleView, c: ModuleView, t: RuntimeTable)
    requires
        advanced(a, b, t),
        advanced(b, c, t),
    ensures
        advanced(a, c, t),
{
    assert forall|j: usize|
        j < a.insts.len() && !a.insts[j as int].erased && settled_inst(
            a,
            t,
            j,
        ) implies #[trigger] settled_inst(c, t, j) by {
        assert(settled_inst(b, t, j));
        assert(!b.insts[j as int].erased);
    }
    assert forall|j: usize| a.insts.len() <= j < c.insts.len() implies #[trigger] settled_inst(
        c,
        t,
        j,
    ) by {
        if j < b.insts.len() {
            assert(settled_inst(b, t, j));
            assert(!b.insts[j as int].erased);
        }
    }
    assert forall|j: int| a.insts.len() <= j < c.insts.len() implies !(#[trigger] c.insts[j]).erased by {
        if j < b.insts.len() {
            assert(!b.insts[j].erased);
        }
    }
}

/// What globalizing the operands from index `k` on of one instruction does.
proof fn lemma_globalized_from(
    mv: ModuleView,
    t: RuntimeTable,
    block: usize,
    pos: int,
    k: int,
    count: nat,
)
    requires
        mv.wf(),
        t.fits(mv),
        block < mv.blocks.len(),
        0 <= pos < mv.blocks[block as int].insts.len(),
        0 <= k,
        k + count == mv.insts[mv.blocks[block as int].insts[pos] as int].operands.len(),
        globalized_from(mv, t, block, pos, k, count) is Ok,
    ensures
        ({
            let out = globalized_from(mv, t, block, pos, k, count)->Ok_0;
            let id = mv.blocks[block as int].insts[pos];
            &&& out.wf()
            &&& out.keeps_live(mv)
            &&& forall|x: int|
                0 <= x < k ==> #[trigger] out.insts[id as int].operands[x]
                    == mv.insts[id as int].operands[x]
            &&& forall|x: int|
                k <= x < mv.insts[id as int].operands.len() ==> !globalizable(
                    out,
                    #[trigger] out.insts[id as int].operands[x],
                )
            &&& forall|j: usize|
                j < mv.insts.len() && j != id ==> (#[trigger] out.insts[j as int]).operands
                    == mv.insts[j as int].operands
            &&& forall|j: usize|
                mv.insts.len() <= j < out.insts.len() ==> #[trigger] exempt(out, t, j)
            &&& forall|j: int|
                mv.insts.len() <= j < out.insts.len() ==> !(#[trigger] out.insts[j]).erased
            &&& ((forall|x: int|
                k <= x < mv.insts[id as int].operands.len() ==> !globalizable(
                    mv,
                    #[trigger] mv.insts[id as int].operands[x],
                )) ==> out == mv)
        }),
    decreases count,
{
    let id = mv.blocks[block as int].insts[pos];
    lemma_listed(mv, block, pos);
    if count > 0 {
        let o = mv.insts[id as int].operands[k];
        if !globalizable(mv, o) {
            lemma_globalized_from(mv, t, block, pos, k + 1, (count - 1) as nat);
            let out = globalized_from(mv, t, block, pos, k + 1, (count - 1) as nat)->Ok_0;
            assert forall|x: int| k <= x < mv.insts[id as int].operands.len() implies !globalizable(
                out,
                #[trigger] out.insts[id as int].operands[x],
            ) by {
                if x == k {
                    assert(out.insts[id as int].operands[x] == mv.insts[id as int].operands[x]);
                    assert(out.consts == mv.consts && out.globals == mv.globals);
                }
            }
        } else {
            let n = mv.insts.len() as usize;
            let func = mv.blocks[block as int].func;
            let call = call_view(block, Ty::Pointer, seq![o, func_operand(t.globalify)]);
            assert(t.target(RuntimeOp::Globalify) < mv.funcs.len());
            assert(mv.valid_operand(o) && mv.local_operand(func, o));
            let m1 = mv.inserted(block, pos, call);
            lemma_inserted_wf(mv, block, pos, call);
            lemma_inserted_facts(mv, block, pos, call);
            assert(m1.insts[id as int] == mv.insts[id as int]);
            assert(m1.home(id as int) == func);
            let m2 = m1.operand_set(id, k, inst_operand(n));
            lemma_operand_set_wf(m1, id, k, inst_operand(n));
            assert(m2.blocks[block as int].insts[pos + 1] == id);
            assert(m2.keeps_live(mv));
            assert(m2.insts[id as int].operands == mv.insts[id as int].operands.update(
                k,
                inst_operand(n),
            ));
            assert(m2.insts[n as int] == call);
            assert(m2.insts.len() == n + 1);
            let out = globalized_from(m2, t, block, pos + 1, k + 1, (count - 1) as nat)->Ok_0;
            lemma_globalized_from(m2, t, block, pos + 1, k + 1, (count - 1) as nat);
            assert(out.keeps_live(mv));
            assert forall|x: int| 0 <= x < k implies #[trigger] out.insts[id as int].operands[x]
                == mv.insts[id as int].operands[x] by {
                assert(out.insts[id as int].operands[x] == m2.insts[id as int].operands[x]);
            }
            assert forall|x: int| k <= x < mv.insts[id as int].operands.len() implies !globalizable(
                out,
                #[trigger] out.insts[id as int].operands[x],
            ) by {
                if x == k {
                    assert(out.insts[id as int].operands[x] == m2.insts[id as int].operands[x]);
                }
            }
            assert forall|j: usize| j < mv.insts.len() && j != id implies (
            #[trigger] out.insts[j as int]).operands == mv.insts[j as int].operands by {
                assert(out.insts[j as int].operands == m2.insts[j as int].operands);
                assert(m2.insts[j as int] == m1.insts[j as int]);
            }
            assert forall|j: usize| mv.insts.len() <= j < out.insts.len() implies #[trigger] exempt(
                out,
                t,
                j,
            ) by {
                if j == n {
                    assert(out.insts[j as int].operands == m2.insts[j as int].operands);
                    assert(call.operands.last() == func_operand(t.globalify));
                    assert(out.insts[j as int].op == m2.insts[j as int].op);
                    assert(out.funcs == mv.funcs);
                }
            }
            assert forall|j: int| mv.insts.len() <= j < out.insts.len() implies !(
            #[trigger] out.insts[j]).erased by {
                if j == n {
                    assert(out.insts[j].erased == m2.insts[j].erased);
                }
            }
        }
    }
}

/// What globalizing one instruction does: the instruction is settled
/// afterwards, and the module has advanced.
pub proof fn lemma_globalized_step(mv: ModuleView, t: RuntimeTable, block: usize, pos: int)
    requires
        mv.wf(),
        t.fits(mv),
        block < mv.blocks.len(),
        0 <= pos < mv.blocks[block as int].insts.len(),
        globalized_at(mv, t, block, pos) is Ok,
    ensures
        advanced(mv, globalized_at(mv, t, block, pos)->Ok_0, t),
        settled_inst(globalized_at(mv, t, block, pos)->Ok_0, t, mv.blocks[block as int].insts[pos]),
        settled_inst(mv, t, mv.blocks[block as int].insts[pos]) ==> globalized_at(
            mv,
            t,
            block,
            pos,
        )->Ok_0 == mv,
{
    reveal(globalized_at);
    let id = mv.blocks[block as int].insts[pos];
    let out = globalized_at(mv, t, block, pos)->Ok_0;
    lemma_listed(mv, block, pos);
    if exempt(mv, t, id) {
        assert(out == mv);
    } else {
        lemma_globalized_from(mv, t, block, pos, 0, mv.insts[id as int].operands.len());
        assert(out.insts[id as int].operands.len() == mv.insts[id as int].operands.len());
        assert(settled_inst(out, t, id));
        assert forall|j: usize|
            j < mv.insts.len() && !mv.insts[j as int].erased && settled_inst(
                mv,
                t,
                j,
            ) implies #[trigger] settled_inst(out, t, j) by {
            if j != id {
                assert(out.insts[j as int].operands == mv.insts[j as int].operands);
                assert(out.insts[j as int].op == mv.insts[j as int].op);
                assert(out.funcs == mv.funcs);
                if !exempt(mv, t, j) {
                    assert forall|k: int|
                        0 <= k < out.insts[j as int].operands.len() implies !globalizable(
                        out,
                        #[trigger] out.insts[j as int].operands[k],
                    ) by {
                        assert(!globalizable(mv, mv.insts[j as int].operands[k]));
                    }
                }
            }
        }
    }
}

/// Globalizing an instruction that is settled changes nothing.
pub proof fn lemma_settled_is_kept(mv: ModuleView, t: RuntimeTable, block: usize, pos: int)
    requires
        mv.wf(),
        block < mv.blocks.len(),
        0 <= pos < mv.blocks[block as int].insts.len(),
        settled_inst(mv, t, mv.blocks[block as int].insts[pos]),
    ensures
        globalized_at(mv, t, block, pos) == Ok::<ModuleView, PassError>(mv),
{
    reveal(globalized_at);
    let id = mv.blocks[block as int].insts[pos];
    if !exempt(mv, t, id) {
        lemma_nothing_from(mv, t, block, pos, 0, mv.insts[id as int].operands.len());
    }
}

proof fn lemma_nothing_from(mv: ModuleView, t: RuntimeTable, block: usize, pos: int, k: int, count: nat)
    requires
        0 <= k,
        k + count == mv.insts[mv.blocks[block as int].insts[pos] as int].operands.len(),
        forall|x: int|
            0 <= x < mv.insts[mv.blocks[block as int].insts[pos] as int].operands.len()
                ==> !globalizable(
                mv,
                #[trigger] mv.insts[mv.blocks[block as int].insts[pos] as int].operands[x],
            ),
    ensures
        globalized_from(mv, t, block, pos, k, count) == Ok::<ModuleView, PassError>(mv),
    decreases count,
{
    if count > 0 {
        lemma_nothing_from(mv, t, block, pos, k + 1, (count - 1) as nat);
    }
}

/// Every instruction that `listed_from` yields stands in one of the blocks.
proof fn lemma_listed_from_members(mv: ModuleView, blocks: Seq<usize>, k: int, x: int)
    requires
        0 <= k,
        0 <= x < listed_from(mv, blocks, k).len(),
    ensures
        exists|j: int, p: int|
            k <= j < blocks.len() && 0 <= p < mv.blocks[blocks[j] as int].insts.len() && listed_from(
                mv,
                blocks,
                k,
            )[x] == #[trigger] mv.blocks[blocks[j] as int].insts[p],
    decreases blocks.len() - k,
{
    if k < blocks.len() {
        let first = mv.blocks[blocks[k] as int].insts;
        if x < first.len() {
            assert(listed_from(mv, blocks, k)[x] == mv.blocks[blocks[k] as int].insts[x]);
        } else {
            lemma_listed_from_members(mv, blocks, k + 1, x - first.len());
            let (j, p) = choose|j: int, p: int|
                k + 1 <= j < blocks.len() && 0 <= p < mv.blocks[blocks[j] as int].insts.len()
                    && listed_from(mv, blocks, k + 1)[x - first.len()]
                    == #[trigger] mv.blocks[blocks[j] as int].insts[p];
            assert(listed_from(mv, blocks, k)[x] == mv.blocks[blocks[j] as int].insts[p]);
        }
    }
}

/// Every instruction that stands in one of the blocks is among those that
/// `listed_from` yields.
proof fn lemma_listed_from_contains(mv: ModuleView, blocks: Seq<usize>, k: int, j: int, p: int)
    requires
        0 <= k <= j < blocks.len(),
        0 <= p < mv.blocks[blocks[j] as int].insts.len(),
    ensures
        listed_from(mv, blocks, k).contains(mv.blocks[blocks[j] as int].insts[p]),
    decreases blocks.len() - k,
{
    let first = mv.blocks[blocks[k] as int].insts;
    let rest = listed_from(mv, blocks, k + 1);
    if j == k {
        assert((first + rest)[p] == first[p]);
    } else {
        lemma_listed_from_contains(mv, blocks, k + 1, j, p);
        let x = choose|x: int| 0 <= x < rest.len() && rest[x] == mv.blocks[blocks[j] as int].insts[p];
        assert((first + rest)[first.len() + x] == rest[x]);
    }
}

proof fn lemma_globalized_seq(cur: ModuleView, t: RuntimeTable, order: Seq<usize>, k: int)
    requires
        cur.wf(),
        t.fits(cur),
        0 <= k <= order.len(),
        forall|x: int|
            k <= x < order.len() ==> (#[trigger] order[x]) < cur.insts.len()
                && !cur.insts[order[x] as int].erased,
        globalized_seq(cur, t, order, k) is Ok,
    ensures
        advanced(cur, globalized_seq(cur, t, order, k)->Ok_0, t),
        forall|x: int|
            k <= x < order.len() ==> settled_inst(
                globalized_seq(cur, t, order, k)->Ok_0,
                t,
                #[trigger] order[x],
            ),
    decreases order.len() - k,
{
    if k < order.len() {
        let id = order[k];
        lemma_position(cur, id);
        let block = cur.insts[id as int].block;
        let pos = cur.position(id);
        let next = globalized_at(cur, t, block, pos)->Ok_0;
        lemma_globalized_step(cur, t, block, pos);
        let out = globalized_seq(next, t, order, k + 1)->Ok_0;
        lemma_globalized_seq(next, t, order, k + 1);
        lemma_advanced_trans(cur, next, out, t);
        assert(id < next.insts.len() && !next.insts[id as int].erased);
        assert(settled_inst(out, t, id));
    } else {
        lemma_advanced_refl(cur, t);
    }
}

/// True when every live instruction of a function before `upto` that is
/// not a runtime function is settled.
pub open spec fn settled_upto(mv: ModuleView, t: RuntimeTable, upto: int) -> bool {
    forall|id: usize|
        id < mv.insts.len() && !mv.insts[id as int].erased && mv.home(id as int) < upto
            && !is_runtime_name(mv.funcs[mv.home(id as int) as int].name) ==> #[trigger] settled_inst(
            mv,
            t,
            id,
        )
}

proof fn lemma_globalized_function(cur: ModuleView, t: RuntimeTable, f: int)
    requires
        cur.wf(),
        t.fits(cur),
        0 <= f < cur.funcs.len(),
        !is_runtime_name(cur.funcs[f].name),
        globalized_function(cur, t, f) is Ok,
    ensures
        advanced(cur, globalized_function(cur, t, f)->Ok_0, t),
        forall|id: usize|
            id < cur.insts.len() && !cur.insts[id as int].erased && cur.home(id as int) == f
                ==> #[trigger] settled_inst(globalized_function(cur, t, f)->Ok_0, t, id),
{
    let blocks = cur.funcs[f].blocks;
    let order = listed_from(cur, blocks, 0);
    let out = globalized_function(cur, t, f)->Ok_0;
    assert forall|x: int| 0 <= x < order.len() implies (#[trigger] order[x]) < cur.insts.len()
        && !cur.insts[order[x] as int].erased by {
        lemma_listed_from_members(cur, blocks, 0, x);
        let (j, p) = choose|j: int, p: int|
            0 <= j < blocks.len() && 0 <= p < cur.blocks[blocks[j] as int].insts.len() && order[x]
                == #[trigger] cur.blocks[blocks[j] as int].insts[p];
        lemma_owned(cur, f, j);
        lemma_listed(cur, blocks[j], p);
    }
    lemma_globalized_seq(cur, t, order, 0);
    assert forall|id: usize|
        id < cur.insts.len() && !cur.insts[id as int].erased && cur.home(id as int)
            == f implies #[trigger] settled_inst(out, t, id) by {
        lemma_position(cur, id);
        let b = cur.insts[id as int].block;
        let j = choose|j: int| 0 <= j < blocks.len() && blocks[j] == b;
        lemma_listed_from_contains(cur, blocks, 0, j, cur.position(id));
        let x = choose|x: int| 0 <= x < order.len() && order[x] == id;
        assert(settled_inst(out, t, order[x]));
    }
}

proof fn lemma_globalized_functions(cur: ModuleView, t: RuntimeTable, f: int, count: nat)
    requires
        cur.wf(),
        t.fits(cur),
        0 <= f,
        f + count == cur.funcs.len(),
        settled_upto(cur, t, f),
        globalized_functions(cur, t, f, count) is Ok,
    ensures
        advanced(cur, globalized_functions(cur, t, f, count)->Ok_0, t),
        settled_upto(
            globalized_functions(cur, t, f, count)->Ok_0,
            t,
            cur.funcs.len() as int,
        ),
    decreases count,
{
    if count > 0 {
        let next = globalized_function(cur, t, f)->Ok_0;
        if is_runtime_name(cur.funcs[f].name) {
            lemma_advanced_refl(cur, t);
        } else {
            lemma_globalized_function(cur, t, f);
        }
        assert(settled_upto(next, t, f + 1)) by {
            assert forall|id: usize|
                id < next.insts.len() && !next.insts[id as int].erased && next.home(id as int) < f
                    + 1 && !is_runtime_name(
                    next.funcs[next.home(id as int) as int].name,
                ) implies #[trigger] settled_inst(next, t, id) by {
                if id < cur.insts.len() {
                    assert(!cur.insts[id as int].erased);
                    lemma_home_kept(cur, next, id);
                    if cur.home(id as int) < f {
                        assert(settled_inst(cur, t, id));
                    }
                }
            }
        }
        let out = globalized_functions(next, t, f + 1, (count - 1) as nat)->Ok_0;
        lemma_globalized_functions(next, t, f + 1, (count - 1) as nat);
        lemma_advanced_trans(cur, next, out, t);
    } else {
        lemma_advanced_refl(cur, t);
    }
}

proof fn lemma_settled_seq(mv: ModuleView, t: RuntimeTable, order: Seq<usize>, k: int)
    requires
        mv.wf(),
        0 <= k <= order.len(),
        forall|x: int|
            k <= x < order.len() ==> (#[trigger] order[x]) < mv.insts.len()
                && !mv.insts[order[x] as int].erased && settled_inst(mv, t, order[x]),
    ensures
        globalized_seq(mv, t, order, k) == Ok::<ModuleView, PassError>(mv),
    decreases order.len() - k,
{
    if k < order.len() {
        let id = order[k];
        lemma_position(mv, id);
        lemma_settled_is_kept(mv, t, mv.insts[id as int].block, mv.position(id));
        lemma_settled_seq(mv, t, order, k + 1);
    }
}

proof fn lemma_settled_functions(mv: ModuleView, t: RuntimeTable, f: int, count: nat)
    requires
        mv.wf(),
        0 <= f,
        f + count == mv.funcs.len(),
        settled_upto(mv, t, mv.funcs.len() as int),
    ensures
        globalized_functions(mv, t, f, count) == Ok::<ModuleView, PassError>(mv),
    decreases count,
{
    if count > 0 {
        if !is_runtime_name(mv.funcs[f].name) {
            let blocks = mv.funcs[f].blocks;
            let order = listed_from(mv, blocks, 0);
            assert forall|x: int| 0 <= x < order.len() implies (#[trigger] order[x]) < mv.insts.len()
                && !mv.insts[order[x] as int].erased && settled_inst(mv, t, order[x]) by {
                lemma_listed_from_members(mv, blocks, 0, x);
                let (j, p) = choose|j: int, p: int|
                    0 <= j < blocks.len() && 0 <= p < mv.blocks[blocks[j] as int].insts.len()
                        && order[x] == #[trigger] mv.blocks[blocks[j] as int].insts[p];
                lemma_owned(mv, f, j);
                lemma_listed(mv, blocks[j], p);
                assert(mv.home(order[x] as int) == f);
            }
            lemma_settled_seq(mv, t, order, 0);
        }
        lemma_settled_functions(mv, t, f + 1, (count - 1) as nat);
    }
}

/// After the globalization pass, every live instruction of a function
/// other than the runtime functions is settled: it is exempt, or none of its
/// operands is a constant pointer to a known global.
pub proof fn lemma_globalizing_settles(mv: ModuleView)
    requires
        mv.wf(),
        globalizing(mv) is Ok,
    ensures
        globalizing(mv)->Ok_0.wf(),
        globalizing(mv)->Ok_0.keeps_live(mv),
        settled_upto(
            globalizing(mv)->Ok_0,
            resolved(mv)->Ok_0,
            globalizing(mv)->Ok_0.funcs.len() as int,
        ),
{
    let t = resolved(mv)->Ok_0;
    lemma_resolved_fits(mv);
    lemma_globalized_functions(mv, t, 0, mv.funcs.len());
}

/// The globalization pass is idempotent: run on its own result, it
/// succeeds and changes nothing.
pub proof fn lemma_globalizing_twice(mv: ModuleView)
    requires
        mv.wf(),
        globalizing(mv) is Ok,
    ensures
        globalizing(globalizing(mv)->Ok_0) == globalizing(mv),
{
    let t = resolved(mv)->Ok_0;
    let out = globalizing(mv)->Ok_0;
    lemma_globalizing_settles(mv);
    assert(out.funcs == mv.funcs);
    assert(resolved(out) == resolved(mv));
    lemma_settled_functions(out, t, 0, out.funcs.len());
}

} // verus!
