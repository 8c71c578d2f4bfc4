//! Read-only mono-repository configuration.

use vstd::prelude::*;

verus! {

/// One package of a mono-repository: a name and the path prefix of its
/// file tree. Supplied by the caller's configuration; the resolver only
/// reads it.
#[derive(Debug)]
pub struct MonoRepoPackage {
    pub name: String,
    /// Directory prefix, without a trailing separator.
    pub path: String,
}

impl MonoRepoPackage {
    pub fn new(name: String, path: String) -> (r: MonoRepoPackage)
        ensures
            r.name@ == name@,
            r.path@ == path@,
    {
        MonoRepoPackage { name, path }
    }
}

} // verus!
