//! Hook installation planning.
//!
//! The library decides which hook files belong where; writing them to disk
//! is the caller's job.

use vstd::prelude::*;
use vstd::string::StrSliceExecFns;

use crate::error::Error;

verus! {

/// Which hooks to install.
#[derive(Debug, PartialEq, Eq, Structural, Clone, Copy)]
pub enum HookKind {
    PrepareCommit,
    PrePush,
    All,
}

/// One hook file to create: its path relative to the repository root and
/// which of the two hook scripts it receives. The kind here is never
/// `All`.
#[derive(Debug)]
pub struct PlannedHook {
    pub path: String,
    pub kind: HookKind,
}

/// Plans a single hook file. `All` names a set of hooks, not a file, so
/// it is not a valid argument here.
pub fn create_hook(kind: HookKind) -> (r: PlannedHook)
    requires
        kind != HookKind::All,
    ensures
        r.kind == kind,
        kind == HookKind::PrepareCommit ==> r.path@ == ".git/hooks/pre-commit"@,
        kind == HookKind::PrePush ==> r.path@ == ".git/hooks/pre-push"@,
{
    match kind {
        HookKind::PrepareCommit => PlannedHook {
            path: ".git/hooks/pre-commit".to_owned(),
            kind,
        },
        HookKind::PrePush => PlannedHook { path: ".git/hooks/pre-push".to_owned(), kind },
        HookKind::All => {
            proof {
                assert(false);
            }
            PlannedHook { path: String::new(), kind }
        },
    }
}

} // verus!
