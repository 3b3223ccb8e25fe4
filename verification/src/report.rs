//! What a pass reports to the pipeline that ran it.

use vstd::prelude::*;
use crate::edit::Edit;

verus! {

/// What a pass hands back when it succeeds.
#[derive(Debug)]
pub struct PassReport {
    /// Whether the pass changed the module.
    pub modified: bool,
    /// Every change that the pass made, in order.
    pub edits: Vec<Edit>,
}

/// What is left of the analyses of a module after a pass.
#[derive(Clone, Copy, PartialEq, Eq, Debug, Structural)]
pub enum Preserved {
    /// The pass changed nothing: every analysis still holds.
    All,
    /// The pass changed the module: no analysis can be relied on.
    Nothing,
}

/// The signal that a pass gives to the analysis cache: all analyses are
/// preserved exactly if the pass did not change the module.
pub open spec fn preserved_after(modified: bool) -> Preserved {
    if modified {
        Preserved::Nothing
    } else {
        Preserved::All
    }
}

impl PassReport {
    /// The signal of this report to the analysis cache.
    pub fn preserved(&self) -> (p: Preserved)
        ensures
            p == preserved_after(self.modified),
    {
        if self.modified {
            Preserved::Nothing
        } else {
            Preserved::All
        }
    }
}

} // verus!
