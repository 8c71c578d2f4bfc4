//! Content hashes and resolved endpoints.

use vstd::prelude::*;

use crate::tag::{Tag, TagView};

verus! {

/// The textual form of a content hash: an opaque, byte-exact identifier of
/// a graph object. Two hashes are the same object exactly when their text
/// is equal.
#[derive(Debug)]
pub struct Oid {
    pub repr: String,
}

impl View for Oid {
    type V = Seq<char>;

    open spec fn view(&self) -> Seq<char> {
        self.repr@
    }
}

impl Clone for Oid {
    fn clone(&self) -> (r: Self)
        ensures
            r@ == self@,
    {
        Oid { repr: self.repr.clone() }
    }
}

impl Oid {
    pub fn new(repr: String) -> (r: Oid)
        ensures
            r@ == repr@,
    {
        Oid { repr }
    }

    /// Byte-exact hash equality.
    pub fn eq_oid(&self, other: &Oid) -> (r: bool)
        ensures
            r == (self@ == other@),
    {
        self.repr == other.repr
    }

    /// The hash as text.
    pub fn to_text(&self) -> (r: String)
        ensures
            r@ == self@,
    {
        self.repr.clone()
    }
}

/// What a resolved endpoint looks like in specifications.
#[verifier::ext_equal]
pub enum OidOfView {
    Head(Seq<char>),
    Tag(TagView),
    Other(Seq<char>),
}

impl OidOfView {
    /// The carried hash, whatever the variant.
    pub open spec fn oid(self) -> Seq<char> {
        match self {
            OidOfView::Head(o) => o,
            OidOfView::Tag(t) => t.oid,
            OidOfView::Other(o) => o,
        }
    }
}

/// A resolved endpoint: the branch head, a named tag, or a bare hash with
/// no associated tag. Every variant carries the underlying commit hash;
/// ancestry checks key off that hash, the variant only matters for display.
#[derive(Debug)]
pub enum OidOf {
    Head(Oid),
    Tag(Tag),
    Other(Oid),
}

impl View for OidOf {
    type V = OidOfView;

    open spec fn view(&self) -> OidOfView {
        match self {
            OidOf::Head(o) => OidOfView::Head(o@),
            OidOf::Tag(t) => OidOfView::Tag(t@),
            OidOf::Other(o) => OidOfView::Other(o@),
        }
    }
}

impl Clone for OidOf {
    fn clone(&self) -> (r: Self)
        ensures
            r@ == self@,
    {
        match self {
            OidOf::Head(o) => OidOf::Head(o.clone()),
            OidOf::Tag(t) => OidOf::Tag(t.clone()),
            OidOf::Other(o) => OidOf::Other(o.clone()),
        }
    }
}

impl OidOf {
    /// The carried content hash.
    pub fn oid(&self) -> (r: &Oid)
        ensures
            r@ == self@.oid(),
    {
        match self {
            OidOf::Head(o) => o,
            OidOf::Tag(t) => &t.oid,
            OidOf::Other(o) => o,
        }
    }

    /// The tag, when the endpoint names one.
    pub fn as_tag(&self) -> (r: Option<&Tag>)
        ensures
            match r {
                Some(t) => self@ matches OidOfView::Tag(tv) && tv == t@,
                None => !(self@ matches OidOfView::Tag(_)),
            },
    {
        match self {
            OidOf::Tag(t) => Some(t),
            _ => None,
        }
    }

    /// Display text: a tag shows its version, any other endpoint shows the
    /// bare hash.
    pub fn to_text(&self) -> (r: String)
        ensures
            match self@ {
                OidOfView::Tag(t) => r@ == t.version.text(),
                OidOfView::Head(o) => r@ == o,
                OidOfView::Other(o) => r@ == o,
            },
    {
        match self {
            OidOf::Head(o) => o.to_text(),
            OidOf::Tag(t) => t.version.to_text(),
            OidOf::Other(o) => o.to_text(),
        }
    }
}

} // verus!
