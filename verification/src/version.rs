//! Version-bump selection types.
//!
//! `Increment` names the three semantic-version components a commit can ask
//! to bump. The ordering `Major > Minor > Patch` exists so that a caller
//! holding several bump requests can keep the largest one.

use vstd::prelude::*;

verus! {

/// A request to bump a version: either one fixed component, an automatic
/// choice (optionally scoped to a package of a mono-repository), or a
/// manually supplied version text.
#[derive(Debug, PartialEq, Eq)]
pub enum IncrementCommand {
    Major,
    Minor,
    Patch,
    Auto,
    AutoPackage(String),
    AutoMonoRepoGlobal(Option<Increment>),
    Manual(String),
}

/// One semantic-version component.
#[derive(Debug, PartialEq, Eq, Copy, Clone, Structural)]
pub enum Increment {
    Major,
    Minor,
    Patch,
}

/// The rank by which increments compare: a larger rank wins when several
/// commits each suggest a different bump.
pub open spec fn increment_rank(i: Increment) -> int {
    match i {
        Increment::Patch => 0,
        Increment::Minor => 1,
        Increment::Major => 2,
    }
}

impl From<Increment> for IncrementCommand {
    fn from(value: Increment) -> (r: Self) {
        match value {
            Increment::Major => IncrementCommand::Major,
            Increment::Minor => IncrementCommand::Minor,
            Increment::Patch => IncrementCommand::Patch,
        }
    }
}

impl vstd::std_specs::convert::FromSpecImpl<Increment> for IncrementCommand {
    open spec fn obeys_from_spec() -> bool {
        true
    }

    open spec fn from_spec(value: Increment) -> Self {
        match value {
            Increment::Major => IncrementCommand::Major,
            Increment::Minor => IncrementCommand::Minor,
            Increment::Patch => IncrementCommand::Patch,
        }
    }
}

impl PartialOrd for Increment {
    fn partial_cmp(&self, other: &Self) -> (r: Option<core::cmp::Ordering>) {
        match (self, other) {
            (Increment::Major, Increment::Major) => Some(core::cmp::Ordering::Equal),
            (Increment::Major, _) => Some(core::cmp::Ordering::Greater),
            (_, Increment::Major) => Some(core::cmp::Ordering::Less),
            (Increment::Minor, Increment::Minor) => Some(core::cmp::Ordering::Equal),
            (Increment::Minor, _) => Some(core::cmp::Ordering::Greater),
            (_, Increment::Minor) => Some(core::cmp::Ordering::Less),
            (Increment::Patch, Increment::Patch) => Some(core::cmp::Ordering::Equal),
        }
    }
}

impl vstd::std_specs::cmp::PartialOrdSpecImpl for Increment {
    open spec fn obeys_partial_cmp_spec() -> bool {
        true
    }

    open spec fn partial_cmp_spec(&self, other: &Self) -> Option<core::cmp::Ordering> {
        if increment_rank(*self) == increment_rank(*other) {
            Some(core::cmp::Ordering::Equal)
        } else if increment_rank(*self) < increment_rank(*other) {
            Some(core::cmp::Ordering::Less)
        } else {
            Some(core::cmp::Ordering::Greater)
        }
    }
}

} // verus!
