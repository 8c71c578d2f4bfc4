//! Semantic-versioning release management over an immutable commit graph.
//!
//! The crate resolves textual revision-range patterns against a read-only
//! projection of a version-control history: it parses two-endpoint range
//! patterns, resolves endpoints to tags or bare content hashes, enumerates
//! the commits of a two-dot range in descendant-first order, locates the
//! latest tag below a commit, decomposes a history into a chain of
//! tag-bounded releases, and filters ranges by the package trees a commit
//! touched. The backing store (object database, refs, diffs) is supplied by
//! the caller as plain data; nothing here performs I/O.

use vstd::prelude::*;

pub mod error;
pub mod hook;
pub mod oid;
pub mod release;
pub mod repository;
pub mod revspec;
pub mod settings;
pub mod tag;
pub mod text;
pub mod version;

use crate::error::Error;
use crate::hook::{create_hook, HookKind, PlannedHook};
use crate::repository::Repository;

verus! {

/// The top-level handle: a history projection together with the
/// repository's root directory, when one is known.
pub struct CocoGitto {
    pub repository: Repository,
    /// The repository's root directory; hooks can only be planned when it
    /// is known.
    pub repo_dir: Option<String>,
}

impl CocoGitto {
    pub fn new(repository: Repository, repo_dir: Option<String>) -> (r: CocoGitto)
        ensures
            r.repository == repository,
            r.repo_dir == repo_dir,
    {
        CocoGitto { repository, repo_dir }
    }

    /// Plans the hook files that the given kind asks for, relative to the
    /// repository root: the prepare-commit hook, the pre-push hook, or
    /// both in that order. Fails when the repository's root directory is
    /// unknown.
    pub fn install_hook(&self, kind: HookKind) -> (r: Result<Vec<PlannedHook>, Error>)
        ensures
            match r {
                Err(e) => self.repo_dir is None && e == Error::RepositoryDirNotFound,
                Ok(plan) => {
                    &&& self.repo_dir is Some
                    &&& match kind {
                        HookKind::PrepareCommit => plan@.len() == 1 && plan@[0].kind
                            == HookKind::PrepareCommit && plan@[0].path@
                            == ".git/hooks/pre-commit"@,
                        HookKind::PrePush => plan@.len() == 1 && plan@[0].kind
                            == HookKind::PrePush && plan@[0].path@ == ".git/hooks/pre-push"@,
                        HookKind::All => plan@.len() == 2 && plan@[0].kind
                            == HookKind::PrepareCommit && plan@[0].path@
                            == ".git/hooks/pre-commit"@ && plan@[1].kind == HookKind::PrePush
                            && plan@[1].path@ == ".git/hooks/pre-push"@,
                    }
                },
            },
    {
        match &self.repo_dir {
            None => Err(Error::RepositoryDirNotFound),
            Some(_) => {
                let mut plan: Vec<PlannedHook> = Vec::new();
                match kind {
                    HookKind::PrepareCommit => {
                        plan.push(create_hook(HookKind::PrepareCommit));
                    },
                    HookKind::PrePush => {
                        plan.push(create_hook(HookKind::PrePush));
                    },
                    HookKind::All => {
                        plan.push(create_hook(HookKind::PrepareCommit));
                        plan.push(create_hook(HookKind::PrePush));
                    },
                }
                Ok(plan)
            },
        }
    }
}

} // verus!
