//! Semantic versions and tags.

use vstd::prelude::*;

use crate::oid::Oid;
use crate::text::{dec_str, u64_to_dec_string};
use vstd::string::StringExecFns;

verus! {

/// A semantic version: totally ordered by `(major, minor, patch)`,
/// lexicographically, with descending priority in that order.
#[derive(Debug, PartialEq, Eq, Structural, Clone, Copy)]
pub struct Version {
    pub major: u64,
    pub minor: u64,
    pub patch: u64,
}

impl Version {
    pub open spec fn spec_lt(self, other: Version) -> bool {
        ||| self.major < other.major
        ||| (self.major == other.major && self.minor < other.minor)
        ||| (self.major == other.major && self.minor == other.minor && self.patch < other.patch)
    }

    /// The canonical `major.minor.patch` rendering.
    pub open spec fn text(self) -> Seq<char> {
        dec_str(self.major as nat) + seq!['.'] + dec_str(self.minor as nat) + seq!['.'] + dec_str(
            self.patch as nat,
        )
    }

    pub fn new(major: u64, minor: u64, patch: u64) -> (r: Version)
        ensures
            r == (Version { major, minor, patch }),
    {
        Version { major, minor, patch }
    }

    /// Strict lexicographic comparison.
    pub fn lt(&self, other: &Version) -> (r: bool)
        ensures
            r == self.spec_lt(*other),
    {
        if self.major != other.major {
            self.major < other.major
        } else if self.minor != other.minor {
            self.minor < other.minor
        } else {
            self.patch < other.patch
        }
    }

    /// Renders the version as `major.minor.patch`.
    pub fn to_text(&self) -> (r: String)
        ensures
            r@ == self.text(),
    {
        proof {
            reveal_strlit(".");
        }
        let mut s = u64_to_dec_string(self.major);
        s.append(".");
        let minor = u64_to_dec_string(self.minor);
        s.append(minor.as_str());
        s.append(".");
        let patch = u64_to_dec_string(self.patch);
        s.append(patch.as_str());
        proof {
            assert(s@ =~= self.text());
        }
        s
    }
}

/// What a tag looks like in specifications.
#[verifier::ext_equal]
pub struct TagView {
    pub version: Version,
    pub oid: Seq<char>,
}

/// A tag: a version-shaped name pointing at a commit. For an annotated tag
/// the target hash is the one obtained after dereferencing the tag object
/// down to its underlying commit.
#[derive(Debug)]
pub struct Tag {
    pub version: Version,
    pub oid: Oid,
}

impl View for Tag {
    type V = TagView;

    open spec fn view(&self) -> TagView {
        TagView { version: self.version, oid: self.oid@ }
    }
}

impl Clone for Tag {
    fn clone(&self) -> (r: Self)
        ensures
            r@ == self@,
    {
        Tag { version: self.version, oid: self.oid.clone() }
    }
}

impl Tag {
    pub fn new(version: Version, oid: Oid) -> (r: Tag)
        ensures
            r@ == (TagView { version, oid: oid@ }),
    {
        Tag { version, oid }
    }
}

} // verus!
