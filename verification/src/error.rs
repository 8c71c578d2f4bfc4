//! Failure taxonomy of the resolver.

use vstd::prelude::*;

verus! {

/// Everything that can go wrong while resolving ranges, tags and release
/// chains. All variants are surfaced to the immediate caller; none is
/// retried internally.
#[derive(Debug, PartialEq, Eq, Clone, Copy, Structural)]
pub enum Error {
    /// The textual range pattern does not contain the `..` separator.
    InvalidRangeSyntax,
    /// An endpoint text resolves to nothing in the repository.
    RevisionNotFound,
    /// No qualifying tag exists where one was required as an implicit bound.
    NoTagFound,
    /// The repository has no commit at all where at least one was required.
    EmptyHistory,
    /// The repository's root directory is unknown, so hooks cannot be placed.
    RepositoryDirNotFound,
}

} // verus!
