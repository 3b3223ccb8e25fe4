//! The lowering pass: every Load, Store and Alloca of a module gives way to
//! a call into the runtime memory-access layer.

use vstd::prelude::*;
use crate::callsite::{rewrite_at, rewritten};
use crate::error::PassError;
use crate::edit::{journaled, Edit};
use crate::model::{lemma_owned, ModuleView};
use crate::module::Module;
use crate::names::{is_excluded, is_runtime_name};
use crate::report::PassReport;
use crate::table::{resolve, resolved, RuntimeTable};

verus! {

/// The module after `count` instructions of `block` have been rewritten in
/// program order, starting with the one at position `pos`. Instructions
/// that a rewrite puts into the block are stepped over, not rewritten.
pub open spec fn lowered_from(
    mv: ModuleView,
    t: RuntimeTable,
    block: usize,
    pos: int,
    count: nat,
) -> Result<ModuleView, PassError>
    decreases count,
{
    if count == 0 {
        Ok(mv)
    } else {
        match rewritten(mv, t, block, pos) {
            Err(e) => Err(e),
            Ok(next) => lowered_from(
                next,
                t,
                block,
                pos + 1 + next.blocks[block as int].insts.len() - mv.blocks[block as int].insts.len(),
                (count - 1) as nat,
            ),
        }
    }
}

/// The module after every instruction that `block` holds has been
/// rewritten.
pub open spec fn lowered_block(mv: ModuleView, t: RuntimeTable, block: usize) -> Result<
    ModuleView,
    PassError,
> {
    lowered_from(mv, t, block, 0, mv.blocks[block as int].insts.len())
}

/// The module after the blocks `blocks[k..]` have been rewritten in order.
pub open spec fn lowered_blocks(mv: ModuleView, t: RuntimeTable, blocks: Seq<usize>, k: int) -> Result<
    ModuleView,
    PassError,
>
    decreases blocks.len() - k,
{
    if k < 0 || k >= blocks.len() {
        Ok(mv)
    } else {
        match lowered_block(mv, t, blocks[k]) {
            Err(e) => Err(e),
            Ok(next) => lowered_blocks(next, t, blocks, k + 1),
        }
    }
}

/// The module after function `f` has been rewritten. A function that has
/// the name of a runtime operation is left as it is.
pub open spec fn lowered_function(mv: ModuleView, t: RuntimeTable, f: int) -> Result<
    ModuleView,
    PassError,
> {
    if is_runtime_name(mv.funcs[f].name) {
        Ok(mv)
    } else {
        lowered_blocks(mv, t, mv.funcs[f].blocks, 0)
    }
}

/// The module after `count` functions have been rewritten in order,
/// starting with function `f`.
pub open spec fn lowered_functions(mv: ModuleView, t: RuntimeTable, f: int, count: nat) -> Result<
    ModuleView,
    PassError,
>
    decreases count,
{
    if count == 0 {
        Ok(mv)
    } else {
        match lowered_function(mv, t, f) {
            Err(e) => Err(e),
            Ok(next) => lowered_functions(next, t, f + 1, (count - 1) as nat),
        }
    }
}

/// What the lowering pass makes of a module: the module in which every
/// function that is not a runtime function has been rewritten, block by
/// block and instruction by instruction in program order, or the first
/// reason met on that way for which the pass gives up. The runtime
/// functions are looked up before anything is rewritten.
pub open spec fn lowering(mv: ModuleView) -> Result<ModuleView, PassError> {
    match resolved(mv) {
        Err(e) => Err(e),
        Ok(t) => lowered_functions(mv, t, 0, mv.funcs.len()),
    }
}

/// Rewrites the instructions of one block.
fn lower_block(m: &mut Module, t: &RuntimeTable, block: usize, log: &mut Vec<Edit>) -> (r: Result<
    (),
    PassError,
>)
    requires
        old(m)@.wf(),
        t.fits(old(m)@),
        block < old(m)@.blocks.len(),
    ensures
        final(m)@.wf(),
        journaled(old(m)@, old(log)@, final(m)@, final(log)@),
        lowered_block(old(m)@, *t, block) == (match r {
            Ok(_) => Ok::<ModuleView, PassError>(final(m)@),
            Err(e) => Err::<ModuleView, PassError>(e),
        }),
{
    let total: usize = m.block_len(block);
    let mut pos: usize = 0;
    let mut done: usize = 0;
    while done < total
        invariant
            m@.wf(),
            journaled(old(m)@, old(log)@, m@, log@),
            t.fits(m@),
            block < m@.blocks.len(),
            done <= total,
            pos + (total - done) == m@.blocks[block as int].insts.len(),
            lowered_from(m@, *t, block, pos as int, (total - done) as nat) == lowered_block(
                old(m)@,
                *t,
                block,
            ),
        decreases total - done,
    {
        let ghost here = m@;
        let before: usize = m.block_len(block);
        match rewrite_at(m, t, block, pos, log) {
            Err(e) => {
                return Err(e);
            },
            Ok(_) => {},
        }
        let after: usize = m.block_len(block);
        proof {
            lemma_rewritten_grows(here, *t, block, pos as int);
        }
        pos = pos + 1 + (after - before);
        done = done + 1;
    }
    Ok(())
}

/// A rewrite never makes its block shorter, and keeps every other block as
/// it is.
pub proof fn lemma_rewritten_grows(mv: ModuleView, t: RuntimeTable, block: usize, pos: int)
    requires
        mv.wf(),
        block < mv.blocks.len(),
        0 <= pos < mv.blocks[block as int].insts.len(),
        rewritten(mv, t, block, pos) is Ok,
    ensures
        ({
            let next = rewritten(mv, t, block, pos)->Ok_0;
            &&& next.blocks[block as int].insts.len() >= mv.blocks[block as int].insts.len()
            &&& next.blocks.len() == mv.blocks.len()
            &&& forall|b: int|
                0 <= b < mv.blocks.len() && b != block ==> #[trigger] next.blocks[b] == mv.blocks[b]
        }),
{
    reveal(rewritten);
    reveal(ModuleView::wf);
}

/// Rewrites the blocks of one function, unless it is a runtime function.
fn lower_function(m: &mut Module, t: &RuntimeTable, f: usize, log: &mut Vec<Edit>) -> (r: Result<
    (),
    PassError,
>)
    requires
        old(m)@.wf(),
        t.fits(old(m)@),
        f < old(m)@.funcs.len(),
    ensures
        final(m)@.wf(),
        journaled(old(m)@, old(log)@, final(m)@, final(log)@),
        lowered_function(old(m)@, *t, f as int) == (match r {
            Ok(_) => Ok::<ModuleView, PassError>(final(m)@),
            Err(e) => Err::<ModuleView, PassError>(e),
        }),
{
    if is_excluded(m.func_name(f)) {
        return Ok(());
    }
    let total: usize = m.func_block_count(f);
    let ghost blocks = m@.funcs[f as int].blocks;
    let mut k: usize = 0;
    while k < total
        invariant
            m@.wf(),
            journaled(old(m)@, old(log)@, m@, log@),
            t.fits(m@),
            f < m@.funcs.len(),
            k <= total,
            total == blocks.len(),
            blocks == m@.funcs[f as int].blocks,
            lowered_blocks(m@, *t, blocks, k as int) == lowered_function(old(m)@, *t, f as int),
        decreases total - k,
    {
        let block: usize = m.func_block(f, k);
        proof {
            lemma_owned(m@, f as int, k as int);
        }
        match lower_block(m, t, block, log) {
            Err(e) => {
                return Err(e);
            },
            Ok(_) => {},
        }
        k = k + 1;
    }
    Ok(())
}

/// The lowering pass. Looks up the runtime functions, then rewrites every
/// Load, Store and Alloca of every function that is not a runtime function.
///
/// On success the module is what [`lowering`] says, the report lists the
/// edits that lead there from the module as it was, and `modified` tells
/// whether any instruction was rewritten. On failure the error is the one
/// that [`lowering`] names; the module is then still well-formed, but may
/// have been rewritten in part.
pub fn lower_module(m: &mut Module) -> (r: Result<PassReport, PassError>)
    requires
        old(m)@.wf(),
    ensures
        final(m)@.wf(),
        final(m)@.extends(old(m)@),
        lowering(old(m)@) == (match r {
            Ok(_) => Ok::<ModuleView, PassError>(final(m)@),
            Err(e) => Err::<ModuleView, PassError>(e),
        }),
        r matches Ok(report) ==> {
            &&& final(m)@ == old(m)@.replay(report.edits@)
            &&& old(m)@.admits_all(report.edits@)
            &&& report.modified == (report.edits@.len() > 0)
            &&& report.modified == (final(m)@.insts.len() > old(m)@.insts.len())
        },
        resolved(old(m)@) is Err ==> final(m)@ == old(m)@,
{
    let t = match resolve(m) {
        Ok(t) => t,
        Err(e) => {
            return Err(e);
        },
    };
    let mut log: Vec<Edit> = Vec::new();
    let total: usize = m.function_count();
    let mut f: usize = 0;
    while f < total
        invariant
            m@.wf(),
            journaled(old(m)@, Seq::<Edit>::empty(), m@, log@),
            resolved(old(m)@) is Ok,
            t.fits(m@),
            f <= total,
            total == m@.funcs.len(),
            lowered_functions(m@, t, f as int, (total - f) as nat) == lowering(old(m)@),
        decreases total - f,
    {
        match lower_function(m, &t, f, &mut log) {
            Err(e) => {
                return Err(e);
            },
            Ok(_) => {},
        }
        f = f + 1;
    }
    let modified = log.len() > 0;
    assert(m@ == old(m)@.replay(log@) && old(m)@.admits_all(log@)) by {
        assert(old(m)@ == old(m)@.replay(Seq::<Edit>::empty()));
        assert(old(m)@.admits_all(Seq::<Edit>::empty()));
    }
    Ok(PassReport { modified, edits: log })
}

} // verus!
