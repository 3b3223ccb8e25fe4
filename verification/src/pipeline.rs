//! The names under which the passes are offered to a pass pipeline.

use vstd::prelude::*;
use crate::error::PassError;
use crate::globalize::{globalize_module, globalizing};
use crate::lower::{lower_module, lowering};
use crate::model::ModuleView;
use crate::module::Module;
use crate::names::same_text;
use crate::report::PassReport;

verus! {

/// The passes of this library.
#[derive(Clone, Copy, PartialEq, Eq, Debug, Structural)]
pub enum PassKind {
    /// Lowering of Load, Store and Alloca to runtime calls.
    LoadStore,
    /// Globalization of constant pointers to global variables.
    GlobalVarPtr,
}

/// What the registrar answers to a pipeline parser that offers a name.
#[derive(Clone, Copy, PartialEq, Eq, Debug, Structural)]
pub enum PipelineParsing {
    /// The name is that of a pass of this library, which is to be enqueued.
    Parsed(PassKind),
    /// The name is left for other registrants to claim.
    NotParsed,
}

impl PassKind {
    /// The name of the pass in a pipeline.
    pub open spec fn name(self) -> Seq<char> {
        match self {
            PassKind::LoadStore => "load-store-pass"@,
            PassKind::GlobalVarPtr => "global-var-ptr-pass"@,
        }
    }

    /// Returns [`PassKind::name`] as text.
    pub fn pipeline_name(self) -> (s: &'static str)
        ensures
            s@ == self.name(),
    {
        match self {
            PassKind::LoadStore => "load-store-pass",
            PassKind::GlobalVarPtr => "global-var-ptr-pass",
        }
    }

    /// What the pass makes of a module.
    pub open spec fn effect(self, mv: ModuleView) -> Result<ModuleView, PassError> {
        match self {
            PassKind::LoadStore => lowering(mv),
            PassKind::GlobalVarPtr => globalizing(mv),
        }
    }

    /// Runs the pass on a module.
    pub fn run(self, m: &mut Module) -> (r: Result<PassReport, PassError>)
        requires
            old(m)@.wf(),
        ensures
            final(m)@.wf(),
            self.effect(old(m)@) == (match r {
                Ok(_) => Ok::<ModuleView, PassError>(final(m)@),
                Err(e) => Err::<ModuleView, PassError>(e),
            }),
            r matches Ok(report) ==> {
                &&& final(m)@ == old(m)@.replay(report.edits@)
                &&& old(m)@.admits_all(report.edits@)
                &&& report.modified == (report.edits@.len() > 0)
            },
    {
        match self {
            PassKind::LoadStore => lower_module(m),
            PassKind::GlobalVarPtr => globalize_module(m),
        }
    }
}

/// What the registrar answers for a name: the pass of that name, or that
/// the name is none of this library's.
pub open spec fn parsing_of(name: Seq<char>) -> PipelineParsing {
    if name == PassKind::LoadStore.name() {
        PipelineParsing::Parsed(PassKind::LoadStore)
    } else if name == PassKind::GlobalVarPtr.name() {
        PipelineParsing::Parsed(PassKind::GlobalVarPtr)
    } else {
        PipelineParsing::NotParsed
    }
}

/// Answers a pipeline parser that offers `name`.
pub fn parse_pipeline_name(name: &str) -> (r: PipelineParsing)
    ensures
        r == parsing_of(name@),
{
    if same_text(name, PassKind::LoadStore.pipeline_name()) {
        PipelineParsing::Parsed(PassKind::LoadStore)
    } else if same_text(name, PassKind::GlobalVarPtr.pipeline_name()) {
        PipelineParsing::Parsed(PassKind::GlobalVarPtr)
    } else {
        PipelineParsing::NotParsed
    }
}

} // verus!
