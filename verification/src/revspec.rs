//! Textual range patterns and their resolution to commit ranges.

use vstd::prelude::*;
use vstd::string::StrSliceExecFns;

use crate::error::Error;
use crate::oid::{OidOf, OidOfView};
use crate::repository::{views_of, Commit, CommitView, Repository};
use crate::settings::MonoRepoPackage;
use crate::text::{path_has_prefix, path_starts_with};

verus! {

/// First position, at or after `k`, where the two-character separator
/// `..` occurs in the text.
pub open spec fn spec_find_sep(s: Seq<char>, k: int) -> Option<int>
    decreases s.len() - k,
{
    if k < 0 || k + 2 > s.len() {
        None
    } else if s[k] == '.' && s[k + 1] == '.' {
        Some(k)
    } else {
        spec_find_sep(s, k + 1)
    }
}

/// Finds the first `..` in the text.
fn find_sep(value: &str) -> (r: Option<usize>)
    ensures
        match r {
            Some(i) => spec_find_sep(value@, 0) == Some(i as int) && i + 2 <= value@.len(),
            None => spec_find_sep(value@, 0) is None,
        },
{
    let len = value.unicode_len();
    if len < 2 {
        return None;
    }
    let limit = len - 2;
    let mut i: usize = 0;
    while i <= limit
        invariant
            0 <= i <= limit + 1,
            limit == len - 2,
            len >= 2,
            len == value@.len(),
            spec_find_sep(value@, 0) == spec_find_sep(value@, i as int),
        decreases limit + 1 - i,
    {
        if value.get_char(i) == '.' && value.get_char(i + 1) == '.' {
            return Some(i);
        }
        i += 1;
    }
    None
}

/// A two-endpoint textual range: `from..to` with either side optional.
/// An absent `from` defaults to the nearest ancestor tag (or the first
/// commit); an absent `to` defaults to the branch head.
#[derive(Debug)]
pub struct RevspecPattern {
    pub from: Option<String>,
    pub to: Option<String>,
}

/// The text of an optional revision side.
pub open spec fn opt_text(o: Option<String>) -> Option<Seq<char>> {
    match o {
        None => None,
        Some(s) => Some(s@),
    }
}

impl RevspecPattern {
    pub open spec fn from_text(&self) -> Option<Seq<char>> {
        opt_text(self.from)
    }

    pub open spec fn to_text(&self) -> Option<Seq<char>> {
        opt_text(self.to)
    }

    /// Splits a textual pattern at the first `..`. Text without the
    /// separator is rejected; an empty side becomes `None`; a non-empty
    /// side is kept verbatim, so anything after the first separator
    /// belongs to the upper side.
    pub fn parse(value: &str) -> (r: Result<RevspecPattern, Error>)
        ensures
            match spec_find_sep(value@, 0) {
                None => r == Err::<RevspecPattern, Error>(Error::InvalidRangeSyntax),
                Some(i) => {
                    &&& r is Ok
                    &&& (i == 0 <==> r->Ok_0.from is None)
                    &&& (i > 0 ==> r->Ok_0.from->0@ == value@.subrange(0, i))
                    &&& (i + 2 == value@.len() <==> r->Ok_0.to is None)
                    &&& (i + 2 < value@.len() ==> r->Ok_0.to->0@ == value@.subrange(
                        i + 2,
                        value@.len() as int,
                    ))
                },
            },
    {
        let len = value.unicode_len();
        let sep = find_sep(value);
        match sep {
            None => Err(Error::InvalidRangeSyntax),
            Some(i) => {
                let from = if i == 0 {
                    None
                } else {
                    Some(value.substring_char(0, i).to_owned())
                };
                let to = if i + 2 == len {
                    None
                } else {
                    Some(value.substring_char(i + 2, len).to_owned())
                };
                Ok(RevspecPattern { from, to })
            },
        }
    }

    /// A pattern with both sides given explicitly.
    pub fn from_pair(from: &str, to: &str) -> (r: RevspecPattern)
        ensures
            r.from_text() == Some(from@),
            r.to_text() == Some(to@),
    {
        RevspecPattern { from: Some(from.to_owned()), to: Some(to.to_owned()) }
    }

    pub fn new(from: Option<String>, to: Option<String>) -> (r: RevspecPattern)
        ensures
            r.from == from,
            r.to == to,
    {
        RevspecPattern { from, to }
    }
}

impl Default for RevspecPattern {
    /// The empty pattern: both bounds defaulted.
    fn default() -> (r: Self)
        ensures
            r.from is None,
            r.to is None,
    {
        RevspecPattern { from: None, to: None }
    }
}

/// What a commit range looks like in specifications.
#[verifier::ext_equal]
pub struct CommitRangeView {
    pub from: OidOfView,
    pub to: OidOfView,
    pub commits: Seq<CommitView>,
}

/// A resolved two-dot range: both endpoints and the commits reachable from
/// `to` but not from `from`, newest first. The commits exclude the `from`
/// commit itself and include the `to` commit (when the endpoints differ).
#[derive(Debug)]
pub struct CommitRange {
    pub from: OidOf,
    pub to: OidOf,
    pub commits: Vec<Commit>,
}

impl View for CommitRange {
    type V = CommitRangeView;

    open spec fn view(&self) -> CommitRangeView {
        CommitRangeView { from: self.from@, to: self.to@, commits: views_of(self.commits@) }
    }
}

impl Repository {
    /// Resolution of a pattern's upper bound. An absent side defaults to
    /// the branch head, shown as the repository's latest tag when that tag
    /// targets the head. An explicit side resolves through the general
    /// revision syntax and is shown as a tag exactly when it is a tag
    /// name.
    pub open spec fn spec_to_resolution(self, to: Option<Seq<char>>) -> Result<
        (int, OidOfView),
        Error,
    > {
        match to {
            None => if self.n() == 0 {
                Err(Error::EmptyHistory)
            } else {
                match self.spec_latest_tag_upto(self.tags@.len() as int) {
                    Some(t) => if self.tags@[t]@.oid == self.commits@[0]@.oid {
                        Ok((0, OidOfView::Tag(self.tags@[t]@)))
                    } else {
                        Ok((0, OidOfView::Other(self.commits@[0]@.oid)))
                    },
                    None => Ok((0, OidOfView::Other(self.commits@[0]@.oid))),
                }
            },
            Some(text) => match self.spec_revparse(text) {
                None => Err(Error::RevisionNotFound),
                Some(ci) => match self.spec_find_tag(text, 0) {
                    Some(t) => Ok((ci, OidOfView::Tag(self.tags@[t]@))),
                    None => Ok((ci, OidOfView::Other(self.commits@[ci]@.oid))),
                },
            },
        }
    }

    /// Resolution of a pattern's lower bound: an absent side defaults to
    /// the latest tag below the upper bound (or the first commit), an
    /// explicit side resolves as `spec_resolve_oid_of` describes.
    pub open spec fn spec_from_resolution(self, from: Option<Seq<char>>, to_idx: int) -> Result<
        (int, OidOfView),
        Error,
    > {
        match from {
            None => Ok(self.spec_from_default(to_idx)),
            Some(text) => self.spec_resolve_oid_of(text),
        }
    }

    /// The full functional description of `get_commit_range`: both
    /// endpoint resolutions and the commits of the resulting two-dot
    /// range.
    pub open spec fn spec_commit_range(self, from: Option<Seq<char>>, to: Option<Seq<char>>) -> Result<
        CommitRangeView,
        Error,
    > {
        match self.spec_to_resolution(to) {
            Err(e) => Err(e),
            Ok((ti, tep)) => match self.spec_from_resolution(from, ti) {
                Err(e) => Err(e),
                Ok((fi, fep)) => Ok(
                    CommitRangeView { from: fep, to: tep, commits: self.range_views(fi, ti) },
                ),
            },
        }
    }

    /// Resolves a pattern and also reports the table positions of the two
    /// endpoints, for callers that keep walking the history.
    pub(crate) fn get_commit_range_idx(&self, pattern: &RevspecPattern) -> (r: Result<
        (CommitRange, usize, usize),
        Error,
    >)
        requires
            self.wf(),
        ensures
            match r {
                Ok((cr, fi, ti)) => {
                    &&& self.spec_commit_range(pattern.from_text(), pattern.to_text())
                        == Ok::<CommitRangeView, Error>(cr@)
                    &&& self.spec_to_resolution(pattern.to_text()) == Ok::<(int, OidOfView), Error>(
                        (ti as int, cr@.to),
                    )
                    &&& self.spec_from_resolution(pattern.from_text(), ti as int) == Ok::<
                        (int, OidOfView),
                        Error,
                    >((fi as int, cr@.from))
                    &&& fi < self.commits@.len()
                    &&& ti < self.commits@.len()
                },
                Err(e) => self.spec_commit_range(pattern.from_text(), pattern.to_text()) == Err::<
                    CommitRangeView,
                    Error,
                >(e),
            },
    {
        let (ti, tep): (usize, OidOf) = match &pattern.to {
            None => {
                if self.commits.len() == 0 {
                    return Err(Error::EmptyHistory);
                }
                match self.get_latest_tag() {
                    Some(tag) => {
                        if tag.oid.eq_oid(&self.commits[0].oid) {
                            (0, OidOf::Tag(tag))
                        } else {
                            (0, OidOf::Other(self.commits[0].oid.clone()))
                        }
                    },
                    None => (0, OidOf::Other(self.commits[0].oid.clone())),
                }
            },
            Some(text) => {
                match self.revparse_idx(text.as_str()) {
                    None => {
                        return Err(Error::RevisionNotFound);
                    },
                    Some(ci) => {
                        match self.resolve_tag(text.as_str()) {
                            Some(tag) => (ci, OidOf::Tag(tag)),
                            None => (ci, OidOf::Other(self.commits[ci].oid.clone())),
                        }
                    },
                }
            },
        };
        let (fi, fep): (usize, OidOf) = match &pattern.from {
            None => self.from_default(ti),
            Some(text) => {
                match self.resolve_oid_of_idx(text.as_str()) {
                    Ok(p) => p,
                    Err(e) => {
                        return Err(e);
                    },
                }
            },
        };
        let commits = self.get_commit_range_from_spec(fi, ti);
        Ok((CommitRange { from: fep, to: tep, commits }, fi, ti))
    }

    /// Resolves a range pattern: the upper bound falls back to the branch
    /// head, the lower bound to the latest tag below the upper bound and
    /// then to the first commit. The result is exactly what
    /// `spec_commit_range` describes, error cases included.
    pub fn get_commit_range(&self, pattern: &RevspecPattern) -> (r: Result<CommitRange, Error>)
        requires
            self.wf(),
        ensures
            match r {
                Ok(cr) => self.spec_commit_range(pattern.from_text(), pattern.to_text()) == Ok::<
                    CommitRangeView,
                    Error,
                >(cr@),
                Err(e) => self.spec_commit_range(pattern.from_text(), pattern.to_text()) == Err::<
                    CommitRangeView,
                    Error,
                >(e),
            },
    {
        match self.get_commit_range_idx(pattern) {
            Ok((cr, _, _)) => Ok(cr),
            Err(e) => Err(e),
        }
    }

    /// Every commit of the repository as one range, from the first commit
    /// up to the branch head. A history without commits is an error, since
    /// the lower-bound defaulting logic treats the first commit as always
    /// resolvable.
    pub fn all_commits(&self) -> (r: Result<CommitRange, Error>)
        requires
            self.wf(),
        ensures
            match r {
                Err(e) => self.n() == 0 && e == Error::EmptyHistory,
                Ok(cr) => {
                    &&& self.n() > 0
                    &&& cr@.to == OidOfView::Head(self.commits@[0]@.oid)
                    &&& cr@.from == OidOfView::Other(self.commits@[self.n() - 1]@.oid)
                    &&& cr@.commits == views_of(self.commits@)
                },
            },
    {
        let n = self.commits.len();
        if n == 0 {
            return Err(Error::EmptyHistory);
        }
        let mut commits: Vec<Commit> = Vec::new();
        let mut k: usize = 0;
        while k < n
            invariant
                0 <= k <= n,
                n == self.n(),
                views_of(commits@) == views_of(self.commits@.subrange(0, k as int)),
            decreases n - k,
        {
            let ghost pre = views_of(commits@);
            commits.push(self.commits[k].clone());
            proof {
                assert(views_of(commits@) =~= pre.push(self.commits@[k as int]@));
                assert(views_of(self.commits@.subrange(0, k + 1)) =~= views_of(
                    self.commits@.subrange(0, k as int),
                ).push(self.commits@[k as int]@));
            }
            k += 1;
        }
        let to = OidOf::Head(self.commits[0].oid.clone());
        let from = OidOf::Other(self.commits[n - 1].oid.clone());
        proof {
            assert(self.commits@.subrange(0, self.n()) =~= self.commits@);
        }
        Ok(CommitRange { from, to, commits })
    }
}

/// Whether the commit's tree diff touched a path under the prefix.
pub open spec fn commit_touches(c: CommitView, prefix: Seq<char>) -> bool {
    exists|p: int| 0 <= p < c.changed_paths.len() && path_has_prefix(c.changed_paths[p], prefix)
}

/// Whether a path lies under none of the given prefixes.
pub open spec fn path_outside_all(path: Seq<char>, prefixes: Seq<Seq<char>>) -> bool {
    forall|q: int| 0 <= q < prefixes.len() ==> !path_has_prefix(path, #[trigger] prefixes[q])
}

/// Whether the commit's tree diff touched a path lying under none of the
/// given prefixes.
pub open spec fn commit_touches_outside(c: CommitView, prefixes: Seq<Seq<char>>) -> bool {
    exists|p: int|
        0 <= p < c.changed_paths.len() && path_outside_all(
            #[trigger] c.changed_paths[p],
            prefixes,
        )
}

/// The commits below `k` whose diff touched the package prefix, in order.
pub open spec fn filter_package_upto(s: Seq<CommitView>, prefix: Seq<char>, k: int) -> Seq<
    CommitView,
>
    decreases k,
{
    if k <= 0 {
        Seq::empty()
    } else if commit_touches(s[k - 1], prefix) {
        filter_package_upto(s, prefix, k - 1).push(s[k - 1])
    } else {
        filter_package_upto(s, prefix, k - 1)
    }
}

/// The commits below `k` whose diff touched a path outside every prefix,
/// in order.
pub open spec fn filter_global_upto(s: Seq<CommitView>, prefixes: Seq<Seq<char>>, k: int) -> Seq<
    CommitView,
>
    decreases k,
{
    if k <= 0 {
        Seq::empty()
    } else if commit_touches_outside(s[k - 1], prefixes) {
        filter_global_upto(s, prefixes, k - 1).push(s[k - 1])
    } else {
        filter_global_upto(s, prefixes, k - 1)
    }
}

/// The path prefixes of a package list.
pub open spec fn package_prefixes(packages: Seq<MonoRepoPackage>) -> Seq<Seq<char>> {
    packages.map_values(|p: MonoRepoPackage| p.path@)
}

/// Does the commit's diff touch the prefix?
fn commit_touches_exec(c: &Commit, prefix: &str) -> (r: bool)
    ensures
        r == commit_touches(c@, prefix@),
{
    let n = c.changed_paths.len();
    let mut p: usize = 0;
    while p < n
        invariant
            0 <= p <= n,
            n == c.changed_paths@.len(),
            forall|j: int| 0 <= j < p ==> !path_has_prefix(c@.changed_paths[j], prefix@),
        decreases n - p,
    {
        if path_starts_with(c.changed_paths[p].as_str(), prefix) {
            proof {
                assert(path_has_prefix(c@.changed_paths[p as int], prefix@));
            }
            return true;
        }
        p += 1;
    }
    false
}

/// Does the commit's diff touch a path under none of the prefixes?
fn commit_touches_outside_exec(c: &Commit, packages: &Vec<MonoRepoPackage>) -> (r: bool)
    ensures
        r == commit_touches_outside(c@, package_prefixes(packages@)),
{
    let n = c.changed_paths.len();
    let mut p: usize = 0;
    while p < n
        invariant
            0 <= p <= n,
            n == c.changed_paths@.len(),
            forall|j: int|
                0 <= j < p ==> !path_outside_all(
                    #[trigger] c@.changed_paths[j],
                    package_prefixes(packages@),
                ),
        decreases n - p,
    {
        let m = packages.len();
        let mut q: usize = 0;
        let mut covered = false;
        while q < m
            invariant
                0 <= q <= m,
                m == packages@.len(),
                p < n,
                n == c.changed_paths@.len(),
                covered ==> !path_outside_all(
                    c@.changed_paths[p as int],
                    package_prefixes(packages@),
                ),
                !covered ==> forall|qq: int|
                    0 <= qq < q ==> !path_has_prefix(
                        c@.changed_paths[p as int],
                        #[trigger] package_prefixes(packages@)[qq],
                    ),
            decreases m - q,
        {
            if !covered {
                if path_starts_with(c.changed_paths[p].as_str(), packages[q].path.as_str()) {
                    proof {
                        assert(path_has_prefix(
                            c@.changed_paths[p as int],
                            package_prefixes(packages@)[q as int],
                        ));
                        assert(!path_outside_all(
                            c@.changed_paths[p as int],
                            package_prefixes(packages@),
                        ));
                    }
                    covered = true;
                }
            }
            q += 1;
        }
        if !covered {
            proof {
                let prefixes = package_prefixes(packages@);
                assert(path_outside_all(c@.changed_paths[p as int], prefixes));
                assert(commit_touches_outside(c@, prefixes));
            }
            return true;
        }
        p += 1;
    }
    proof {
        let prefixes = package_prefixes(packages@);
        if commit_touches_outside(c@, prefixes) {
            let j = choose|j: int|
                0 <= j < c@.changed_paths.len() && path_outside_all(
                    #[trigger] c@.changed_paths[j],
                    prefixes,
                );
            assert(false);
        }
    }
    false
}

impl Repository {
    /// Narrows a resolved range to the commits whose tree diff (against
    /// the first parent) touched the package's file tree. Endpoints and
    /// relative order are preserved; only the commit list shrinks.
    pub fn get_commit_range_for_package(
        &self,
        pattern: &RevspecPattern,
        package: &MonoRepoPackage,
    ) -> (r: Result<CommitRange, Error>)
        requires
            self.wf(),
        ensures
            match r {
                Ok(cr) => {
                    &&& self.spec_commit_range(pattern.from_text(), pattern.to_text()) is Ok
                    &&& ({
                        let crv = self.spec_commit_range(pattern.from_text(), pattern.to_text());
                        &&& cr@.from == crv->Ok_0.from
                        &&& cr@.to == crv->Ok_0.to
                        &&& cr@.commits == filter_package_upto(
                            crv->Ok_0.commits,
                            package.path@,
                            crv->Ok_0.commits.len() as int,
                        )
                    })
                },
                Err(e) => self.spec_commit_range(pattern.from_text(), pattern.to_text()) == Err::<
                    CommitRangeView,
                    Error,
                >(e),
            },
    {
        let range = match self.get_commit_range(pattern) {
            Ok(cr) => cr,
            Err(e) => {
                return Err(e);
            },
        };
        let ghost base = views_of(range.commits@);
        let n = range.commits.len();
        let mut commits: Vec<Commit> = Vec::new();
        let mut k: usize = 0;
        while k < n
            invariant
                0 <= k <= n,
                n == range.commits@.len(),
                base == views_of(range.commits@),
                views_of(commits@) == filter_package_upto(base, package.path@, k as int),
            decreases n - k,
        {
            let ghost pre = views_of(commits@);
            if commit_touches_exec(&range.commits[k], package.path.as_str()) {
                commits.push(range.commits[k].clone());
                proof {
                    assert(views_of(commits@) =~= pre.push(base[k as int]));
                }
            }
            k += 1;
        }
        Ok(CommitRange { from: range.from, to: range.to, commits })
    }

    /// Narrows a resolved range to the commits whose tree diff touched a
    /// path outside every configured package tree. Endpoints and relative
    /// order are preserved; only the commit list shrinks.
    pub fn get_commit_range_for_monorepo_global(
        &self,
        pattern: &RevspecPattern,
        packages: &Vec<MonoRepoPackage>,
    ) -> (r: Result<CommitRange, Error>)
        requires
            self.wf(),
        ensures
            match r {
                Ok(cr) => {
                    &&& self.spec_commit_range(pattern.from_text(), pattern.to_text()) is Ok
                    &&& ({
                        let crv = self.spec_commit_range(pattern.from_text(), pattern.to_text());
                        &&& cr@.from == crv->Ok_0.from
                        &&& cr@.to == crv->Ok_0.to
                        &&& cr@.commits == filter_global_upto(
                            crv->Ok_0.commits,
                            package_prefixes(packages@),
                            crv->Ok_0.commits.len() as int,
                        )
                    })
                },
                Err(e) => self.spec_commit_range(pattern.from_text(), pattern.to_text()) == Err::<
                    CommitRangeView,
                    Error,
                >(e),
            },
    {
        let range = match self.get_commit_range(pattern) {
            Ok(cr) => cr,
            Err(e) => {
                return Err(e);
            },
        };
        let ghost base = views_of(range.commits@);
        let n = range.commits.len();
        let mut commits: Vec<Commit> = Vec::new();
        let mut k: usize = 0;
        while k < n
            invariant
                0 <= k <= n,
                n == range.commits@.len(),
                base == views_of(range.commits@),
                views_of(commits@) == filter_global_upto(
                    base,
                    package_prefixes(packages@),
                    k as int,
                ),
            decreases n - k,
        {
            let ghost pre = views_of(commits@);
            if commit_touches_outside_exec(&range.commits[k], packages) {
                commits.push(range.commits[k].clone());
                proof {
                    assert(views_of(commits@) =~= pre.push(base[k as int]));
                }
            }
            k += 1;
        }
        Ok(CommitRange { from: range.from, to: range.to, commits })
    }
}

impl Repository {
    /// A resolved upper endpoint carries the hash of the position it
    /// resolves to.
    pub proof fn lemma_to_resolution_shape(self, to: Option<Seq<char>>)
        requires
            self.wf(),
        ensures
            match self.spec_to_resolution(to) {
                Ok((ti, ep)) => 0 <= ti < self.n() && ep.oid() == self.commits@[ti]@.oid,
                Err(_) => true,
            },
    {
        match to {
            None => {},
            Some(text) => {
                match self.spec_find_tag(text, 0) {
                    Some(t) => {
                        self.lemma_spec_find_tag(text, 0);
                        self.lemma_idx_of_from(self.tags@[t]@.oid, 0);
                    },
                    None => {
                        self.lemma_revparse_plain_bounds(text);
                    },
                }
            },
        }
    }
}

/// Resolving the same pattern twice against an unchanged history yields an
/// identical range: the outcome of `get_commit_range` is a function of the
/// repository and the pattern text alone.
pub proof fn lemma_resolve_range_idempotent(
    repo: Repository,
    from: Option<Seq<char>>,
    to: Option<Seq<char>>,
    r1: Result<CommitRangeView, Error>,
    r2: Result<CommitRangeView, Error>,
)
    requires
        r1 == repo.spec_commit_range(from, to),
        r2 == repo.spec_commit_range(from, to),
    ensures
        r1 == r2,
{
}

} // verus!
