//! Release chains: the decomposition of a history range into a linked
//! sequence of tag-bounded segments, newest first.

use vstd::prelude::*;

use crate::error::Error;
use crate::oid::{Oid, OidOf, OidOfView};
use crate::repository::{
    commits_contain, commits_contain_exec, views_of, Commit, CommitView, Repository,
};
use crate::revspec::{CommitRange, CommitRangeView, RevspecPattern};

verus! {

/// What one link of a release chain looks like in specifications.
#[verifier::ext_equal]
pub struct LinkView {
    pub version: OidOfView,
    pub from: OidOfView,
    pub to: OidOfView,
    pub commits: Seq<CommitView>,
}

/// One bounded, tag-delimited segment of history, linked to the segment
/// immediately preceding it. Each release exclusively owns its `previous`
/// link, so a chain is finite and acyclic by construction, and its last
/// link carries `previous == None`.
#[derive(Debug)]
pub struct Release {
    /// The endpoint the release is named after: its upper bound.
    pub version: OidOf,
    pub from: OidOf,
    pub to: OidOf,
    pub commits: Vec<Commit>,
    pub previous: Option<Box<Release>>,
}

impl Release {
    /// This link alone, without its predecessors.
    pub open spec fn link_view(self) -> LinkView {
        LinkView {
            version: self.version@,
            from: self.from@,
            to: self.to@,
            commits: views_of(self.commits@),
        }
    }

    /// The whole chain, newest first.
    pub open spec fn chain_view(self) -> Seq<LinkView>
        decreases self,
    {
        match self.previous {
            None => seq![self.link_view()],
            Some(p) => seq![self.link_view()] + (*p).chain_view(),
        }
    }

    /// Wraps a resolved range as a release, named after the range's upper
    /// endpoint, with no predecessor.
    pub fn from_range(range: CommitRange) -> (r: Release)
        ensures
            r.link_view() == (LinkView {
                version: range@.to,
                from: range@.from,
                to: range@.to,
                commits: range@.commits,
            }),
            r.previous is None,
    {
        let version = range.to.clone();
        Release { version, from: range.from, to: range.to, commits: range.commits, previous: None }
    }

    /// Whether some commit of this release carries the hash.
    pub fn contains_oid(&self, oid: &Oid) -> (r: bool)
        ensures
            r == commits_contain(self.link_view().commits, oid@),
    {
        commits_contain_exec(&self.commits, oid)
    }
}

/// The spec view of a list of releases, link by link.
pub open spec fn link_views(s: Seq<Release>) -> Seq<LinkView> {
    s.map_values(|r: Release| r.link_view())
}

/// The oldest link of a chain.
pub open spec fn last_release(rel: Release) -> Release
    decreases rel,
{
    match rel.previous {
        None => rel,
        Some(p) => last_release(*p),
    }
}

/// Every release chain ends: it is a finite structure whose oldest link
/// carries `previous == None` and stands last in the chain view.
pub proof fn lemma_chain_terminates(rel: Release)
    ensures
        rel.chain_view().len() >= 1,
        last_release(rel).previous is None,
        rel.chain_view()[rel.chain_view().len() - 1] == last_release(rel).link_view(),
    decreases rel,
{
    match rel.previous {
        None => {},
        Some(p) => {
            lemma_chain_terminates(*p);
            assert(rel.chain_view()[rel.chain_view().len() - 1] == (*p).chain_view()[(
            *p).chain_view().len() - 1]);
        },
    }
}

/// First position at or after `k` whose commit carries the hash.
pub open spec fn spec_first_pos(s: Seq<CommitView>, o: Seq<char>, k: int) -> Option<int>
    decreases s.len() - k,
{
    if k < 0 || k >= s.len() {
        None
    } else if s[k].oid == o {
        Some(k)
    } else {
        spec_first_pos(s, o, k + 1)
    }
}

/// Where `spec_first_pos` points, and that nothing before it matches.
pub proof fn lemma_spec_first_pos(s: Seq<CommitView>, o: Seq<char>, k: int)
    requires
        0 <= k,
    ensures
        match spec_first_pos(s, o, k) {
            Some(p) => k <= p < s.len() && s[p].oid == o && forall|j: int|
                k <= j < p ==> s[j].oid != o,
            None => forall|j: int| k <= j < s.len() ==> s[j].oid != o,
        },
    decreases s.len() - k,
{
    if 0 <= k < s.len() && s[k].oid != o {
        lemma_spec_first_pos(s, o, k + 1);
    }
}

/// The commit list cut right after the first occurrence of the hash;
/// unchanged when the hash does not occur.
pub open spec fn drained(s: Seq<CommitView>, o: Seq<char>) -> Seq<CommitView> {
    match spec_first_pos(s, o, 0) {
        None => s,
        Some(p) => s.subrange(0, p + 1),
    }
}

/// Cuts the commit list right after the first commit carrying the target
/// hash, dropping everything older; a list without the target stays
/// whole.
fn drain_to_target(commits: &mut Vec<Commit>, target: &Oid)
    ensures
        views_of(final(commits)@) == drained(views_of(old(commits)@), target@),
{
    let n = commits.len();
    let mut k: usize = 0;
    while k < n
        invariant
            0 <= k <= n,
            n == commits@.len(),
            commits@ == old(commits)@,
            spec_first_pos(views_of(commits@), target@, 0) == spec_first_pos(
                views_of(commits@),
                target@,
                k as int,
            ),
        decreases n - k,
    {
        if commits[k].oid.eq_oid(target) {
            proof {
                assert(views_of(commits@)[k as int].oid == target@);
            }
            commits.truncate(k + 1);
            proof {
                assert(views_of(commits@) =~= drained(views_of(old(commits)@), target@));
            }
            return ;
        }
        proof {
            assert(views_of(commits@)[k as int].oid != target@);
        }
        k += 1;
    }
}

/// The chain clauses that hold of every link already built, the last one
/// included, while construction is still running: linkage, default lower
/// bounds, and full (uncut) contents.
#[verifier::opaque]
pub open spec fn chain_prefix_ok(repo: Repository, links: Seq<LinkView>, target: Seq<char>) -> bool {
    &&& forall|k: int| 1 <= k < links.len() ==> (#[trigger] links[k]).to == links[k - 1].from
    &&& forall|k: int|
        0 <= k < links.len() ==> {
            let ti = repo.idx_or_neg((#[trigger] links[k]).to.oid());
            &&& 0 <= ti < repo.n()
            &&& links[k].version == links[k].to
            &&& links[k].from == repo.spec_from_default(ti).1
            &&& links[k].commits == repo.range_views(repo.spec_from_default(ti).0, ti)
        }
    &&& forall|k: int|
        0 <= k < links.len() - 1 ==> !commits_contain((#[trigger] links[k]).commits, target)
            && links[k].from.oid() != target
}

/// No link of the list reaches the target.
#[verifier::opaque]
pub open spec fn links_target_free(links: Seq<LinkView>, target: Seq<char>) -> bool {
    forall|k: int| 0 <= k < links.len() ==> !commits_contain((#[trigger] links[k]).commits, target)
}

/// Attaching one more well-formed link to a prefix keeps it well formed.
proof fn lemma_chain_push(repo: Repository, links: Seq<LinkView>, rel: LinkView, target: Seq<char>)
    requires
        links.len() >= 1,
        chain_prefix_ok(repo, links, target),
        links_target_free(links, target),
        rel.to == links[links.len() - 1].from,
        links[links.len() - 1].from.oid() != target,
        ({
            let ti = repo.idx_or_neg(rel.to.oid());
            &&& 0 <= ti < repo.n()
            &&& rel.version == rel.to
            &&& rel.from == repo.spec_from_default(ti).1
            &&& rel.commits == repo.range_views(repo.spec_from_default(ti).0, ti)
        }),
    ensures
        chain_prefix_ok(repo, links.push(rel), target),
{
    reveal(chain_prefix_ok);
    reveal(links_target_free);
    let nl = links.push(rel);
    assert forall|k: int| 1 <= k < nl.len() implies (#[trigger] nl[k]).to == nl[k - 1].from by {
        if k < nl.len() - 1 {
            assert(nl[k] == links[k]);
            assert(nl[k - 1] == links[k - 1]);
        } else {
            assert(nl[k] == rel);
            assert(nl[k - 1] == links[links.len() - 1]);
        }
    }
    assert forall|k: int| 0 <= k < nl.len() implies {
        let ti = repo.idx_or_neg((#[trigger] nl[k]).to.oid());
        &&& 0 <= ti < repo.n()
        &&& nl[k].version == nl[k].to
        &&& nl[k].from == repo.spec_from_default(ti).1
        &&& nl[k].commits == repo.range_views(repo.spec_from_default(ti).0, ti)
    } by {
        if k < nl.len() - 1 {
            assert(nl[k] == links[k]);
        } else {
            assert(nl[k] == rel);
        }
    }
    assert forall|k: int| 0 <= k < nl.len() - 1 implies !commits_contain(
        (#[trigger] nl[k]).commits,
        target,
    ) && nl[k].from.oid() != target by {
        assert(nl[k] == links[k]);
    }
}

/// A target-free list stays target free when a target-free link joins it.
proof fn lemma_target_free_push(links: Seq<LinkView>, rel: LinkView, target: Seq<char>)
    requires
        links_target_free(links, target),
        !commits_contain(rel.commits, target),
    ensures
        links_target_free(links.push(rel), target),
{
    reveal(links_target_free);
    let nl = links.push(rel);
    assert forall|k: int| 0 <= k < nl.len() implies !commits_contain(
        (#[trigger] nl[k]).commits,
        target,
    ) by {
        if k < nl.len() - 1 {
            assert(nl[k] == links[k]);
        } else {
            assert(nl[k] == rel);
        }
    }
}

/// A single well-formed link is a well-formed prefix.
proof fn lemma_chain_single(repo: Repository, rel: LinkView, target: Seq<char>)
    requires
        ({
            let ti = repo.idx_or_neg(rel.to.oid());
            &&& 0 <= ti < repo.n()
            &&& rel.version == rel.to
            &&& rel.from == repo.spec_from_default(ti).1
            &&& rel.commits == repo.range_views(repo.spec_from_default(ti).0, ti)
        }),
    ensures
        chain_prefix_ok(repo, seq![rel], target),
        !commits_contain(rel.commits, target) ==> links_target_free(seq![rel], target),
{
    reveal(chain_prefix_ok);
    reveal(links_target_free);
}

/// A finished chain: a well-formed prefix whose last link is cut at the
/// target it contains (or whose lower bound is the target) satisfies the
/// full chain predicate.
proof fn lemma_chain_finish(
    repo: Repository,
    lvpre: Seq<LinkView>,
    lv_all: Seq<LinkView>,
    target: Seq<char>,
)
    requires
        lvpre.len() >= 1,
        lv_all.len() == lvpre.len(),
        chain_prefix_ok(repo, lvpre, target),
        forall|k: int| 0 <= k < lv_all.len() - 1 ==> lv_all[k] == lvpre[k],
        lv_all[lv_all.len() - 1].to == lvpre[lvpre.len() - 1].to,
        lv_all[lv_all.len() - 1].from == lvpre[lvpre.len() - 1].from,
        lv_all[lv_all.len() - 1].version == lvpre[lvpre.len() - 1].version,
        lv_all[lv_all.len() - 1].commits == drained(lvpre[lvpre.len() - 1].commits, target),
        commits_contain(lvpre[lvpre.len() - 1].commits, target) || lvpre[lvpre.len()
            - 1].from.oid() == target,
    ensures
        repo.chain_ok(lv_all, target),
{
    reveal(chain_prefix_ok);
    reveal(Repository::chain_ok);
    let last = lv_all.len() - 1;
    assert forall|k: int| 1 <= k < lv_all.len() implies (#[trigger] lv_all[k]).to == lv_all[k
        - 1].from by {
        assert(lvpre[k].to == lvpre[k - 1].from);
    }
    assert forall|k: int| 0 <= k < lv_all.len() implies {
        let ti = repo.idx_or_neg((#[trigger] lv_all[k]).to.oid());
        &&& 0 <= ti < repo.n()
        &&& lv_all[k].version == lv_all[k].to
        &&& lv_all[k].from == repo.spec_from_default(ti).1
    } by {
        if k < last {
            assert(lv_all[k] == lvpre[k]);
        }
    }
    assert forall|k: int| 0 <= k < lv_all.len() - 1 implies {
        let ti = repo.idx_or_neg((#[trigger] lv_all[k]).to.oid());
        &&& lv_all[k].commits == repo.range_views(repo.spec_from_default(ti).0, ti)
        &&& !commits_contain(lv_all[k].commits, target)
        &&& lv_all[k].from.oid() != target
    } by {
        assert(lv_all[k] == lvpre[k]);
    }
}

/// A chain request whose target resolves to the repository's first commit
/// is always answered with a chain, provided the upper bound resolves at
/// all: the error clause of `get_release_range`'s contract cannot fire.
pub proof fn lemma_chain_from_first_commit_succeeds(
    repo: Repository,
    from: Option<Seq<char>>,
    to: Option<Seq<char>>,
    r: Result<Release, Error>,
)
    requires
        repo.spec_target(from) is Ok,
        repo.spec_target(from)->Ok_0.0 == repo.n() - 1,
        repo.spec_commit_range(None, to) is Ok,
        match r {
            Ok(_) => true,
            Err(e) => {
                if repo.spec_target(from) is Err {
                    repo.spec_target(from) == Err::<(int, OidOfView), Error>(e)
                } else if repo.spec_commit_range(None, to) is Err {
                    repo.spec_commit_range(None, to) == Err::<CommitRangeView, Error>(e)
                } else {
                    &&& e == Error::RevisionNotFound
                    &&& !(repo.in_ancestry(
                        repo.spec_to_resolution(to)->Ok_0.0,
                        repo.spec_target(from)->Ok_0.0,
                    ) || repo.spec_target(from)->Ok_0.0 == repo.n() - 1)
                }
            },
        },
    ensures
        r is Ok,
{
}

impl Repository {
    /// Position of the hash in the commit table, or -1 when absent.
    pub open spec fn idx_or_neg(self, o: Seq<char>) -> int {
        match self.idx_of(o) {
            Some(i) => i,
            None => -1,
        }
    }

    /// Resolution of the chain target: the pattern's explicit lower bound
    /// when present, else the repository's first commit.
    pub open spec fn spec_target(self, from: Option<Seq<char>>) -> Result<(int, OidOfView), Error> {
        match from {
            Some(f) => self.spec_resolve_oid_of(f),
            None => if self.n() == 0 {
                Err(Error::EmptyHistory)
            } else {
                Ok((self.n() - 1, OidOfView::Other(self.commits@[self.n() - 1]@.oid)))
            },
        }
    }

    /// Well-formedness of a finished release chain for a target hash:
    /// every link ends at the previous link's lower bound; every link's
    /// lower bound is the default one below its upper bound; no link but
    /// the last reaches the target; the last link is cut at the target,
    /// which it either contains or names as its own lower bound.
    #[verifier::opaque]
    pub open spec fn chain_ok(self, links: Seq<LinkView>, target: Seq<char>) -> bool {
        &&& links.len() >= 1
        &&& forall|k: int| 1 <= k < links.len() ==> (#[trigger] links[k]).to == links[k - 1].from
        &&& forall|k: int|
            0 <= k < links.len() ==> {
                let ti = self.idx_or_neg((#[trigger] links[k]).to.oid());
                &&& 0 <= ti < self.n()
                &&& links[k].version == links[k].to
                &&& links[k].from == self.spec_from_default(ti).1
            }
        &&& forall|k: int|
            0 <= k < links.len() - 1 ==> {
                let ti = self.idx_or_neg((#[trigger] links[k]).to.oid());
                &&& links[k].commits == self.range_views(self.spec_from_default(ti).0, ti)
                &&& !commits_contain(links[k].commits, target)
                &&& links[k].from.oid() != target
            }
        &&& {
            let last = links[links.len() - 1];
            let ti = self.idx_or_neg(last.to.oid());
            let base = self.range_views(self.spec_from_default(ti).0, ti);
            &&& last.commits == drained(base, target)
            &&& (commits_contain(base, target) || last.from.oid() == target)
        }
    }

    /// Walks backward from the current lower bound, attaching one link
    /// per tag boundary, until the target is reached. Existing links are
    /// never modified.
    #[verifier::rlimit(100)]
    fn populate_links(
        &self,
        links: &mut Vec<Release>,
        from_idx0: usize,
        from_ep0: OidOf,
        target: &Oid,
        Ghost(tc): Ghost<int>,
    )
        requires
            self.wf(),
            old(links)@.len() >= 1,
            0 <= tc < self.n(),
            target@ == self.commits@[tc]@.oid,
            (from_idx0 as int) < self.n(),
            from_ep0@ == link_views(old(links)@)[old(links)@.len() - 1].from,
            from_ep0@.oid() == self.commits@[from_idx0 as int]@.oid,
            self.in_ancestry(from_idx0 as int, tc) || tc == self.n() - 1,
            chain_prefix_ok(*self, link_views(old(links)@), target@),
            links_target_free(link_views(old(links)@), target@),
            forall|k: int| 0 <= k < old(links)@.len() ==> (#[trigger] old(links)@[k]).previous is None,
        ensures
            final(links)@.len() >= old(links)@.len(),
            forall|k: int| 0 <= k < old(links)@.len() ==> final(links)@[k] == old(links)@[k],
            forall|k: int|
                0 <= k < final(links)@.len() ==> (#[trigger] final(links)@[k]).previous is None,
            chain_prefix_ok(*self, link_views(final(links)@), target@),
            ({
                let lv = link_views(final(links)@);
                let last = lv[lv.len() - 1];
                commits_contain(last.commits, target@) || last.from.oid() == target@
            }),
    {
        let ghost tlv = target@;
        let ghost n = self.n();
        let mut cur_from_idx: usize = from_idx0;
        let mut cur_from_ep: OidOf = from_ep0;
        loop
            invariant_except_break
                self.wf(),
                n == self.n(),
                n >= 1,
                0 <= tc < n,
                tlv == self.commits@[tc]@.oid,
                tlv == target@,
                links@.len() >= old(links)@.len(),
                forall|k: int| 0 <= k < old(links)@.len() ==> links@[k] == old(links)@[k],
                forall|k: int| 0 <= k < links@.len() ==> (#[trigger] links@[k]).previous is None,
                links@.len() >= 1,
                (cur_from_idx as int) < n,
                cur_from_ep@ == link_views(links@)[links@.len() - 1].from,
                cur_from_ep@.oid() == self.commits@[cur_from_idx as int]@.oid,
                self.in_ancestry(cur_from_idx as int, tc) || tc == n - 1,
                chain_prefix_ok(*self, link_views(links@), tlv),
                links_target_free(link_views(links@), tlv),
            ensures
                links@.len() >= old(links)@.len(),
                forall|k: int| 0 <= k < old(links)@.len() ==> links@[k] == old(links)@[k],
                forall|k: int| 0 <= k < links@.len() ==> (#[trigger] links@[k]).previous is None,
                links@.len() >= 1,
                chain_prefix_ok(*self, link_views(links@), tlv),
                ({
                    let lv = link_views(links@);
                    let last = lv[lv.len() - 1];
                    commits_contain(last.commits, tlv) || last.from.oid() == tlv
                }),
            decreases n - cur_from_idx,
        {
            if cur_from_ep.oid().eq_oid(target) {
                proof {
                    reveal(links_target_free);
                    reveal(chain_prefix_ok);
                }
                break ;
            }
            let (nfi, nfep) = self.from_default(cur_from_idx);
            proof {
                self.lemma_from_default_shape(cur_from_idx as int);
                self.lemma_idx_of_unique(cur_from_idx as int);
            }
            let ncommits = self.get_commit_range_from_spec(nfi, cur_from_idx);
            let tcontained = commits_contain_exec(&ncommits, target);
            proof {
                self.lemma_range_contains_oid(nfi as int, cur_from_idx as int, tc);
            }
            let rel = Release::from_range(
                CommitRange { from: nfep.clone(), to: cur_from_ep.clone(), commits: ncommits },
            );
            let ghost prelv = link_views(links@);
            proof {
                lemma_chain_push(*self, prelv, rel.link_view(), tlv);
            }
            if tcontained {
                proof {
                    assert(nfi != cur_from_idx) by {
                        if nfi == cur_from_idx {
                            self.lemma_equal_endpoints_empty(nfi as int);
                        }
                    }
                }
                if nfi != cur_from_idx {
                    links.push(rel);
                    proof {
                        assert(link_views(links@) =~= prelv.push(rel.link_view()));
                    }
                }
                break ;
            }
            proof {
                lemma_target_free_push(prelv, rel.link_view(), tlv);
                assert(cur_from_idx as int != n - 1) by {
                    if cur_from_idx as int == n - 1 {
                        if tc < n - 1 {
                            assert(!self.in_ancestry(n - 1, tc));
                        }
                        assert(tc == n - 1);
                    }
                }
                assert(nfi as int > cur_from_idx as int);
                if self.in_ancestry(cur_from_idx as int, tc) {
                    assert(!self.in_range(nfi as int, cur_from_idx as int, tc));
                    assert(self.in_ancestry(nfi as int, tc));
                }
            }
            links.push(rel);
            proof {
                assert(link_views(links@) =~= prelv.push(rel.link_view()));
            }
            cur_from_idx = nfi;
            cur_from_ep = nfep;
        }
    }

    /// Builds the release chain for a pattern: the full range up to the
    /// pattern's upper bound, decomposed backward into one link per tag
    /// boundary, stopping at the pattern's lower bound (the target) and
    /// cut right after it. The target must lie in the ancestry of the
    /// upper bound or be the repository's first commit; any other
    /// resolved target cannot be reached by walking backward and is
    /// rejected instead of looping forever.
    #[verifier::rlimit(100)]
    pub fn get_release_range(&self, pattern: RevspecPattern) -> (r: Result<Release, Error>)
        requires
            self.wf(),
        ensures
            ({
                let tgt = self.spec_target(pattern.from_text());
                let tores = self.spec_to_resolution(pattern.to_text());
                let cr0 = self.spec_commit_range(None, pattern.to_text());
                match r {
                    Ok(rel) => {
                        &&& tgt is Ok
                        &&& cr0 is Ok
                        &&& (self.in_ancestry(tores->Ok_0.0, tgt->Ok_0.0) || tgt->Ok_0.0 == self.n()
                            - 1)
                        &&& rel.chain_view()[0].to == tores->Ok_0.1
                        &&& self.chain_ok(rel.chain_view(), tgt->Ok_0.1.oid())
                    },
                    Err(e) => {
                        if tgt is Err {
                            tgt == Err::<(int, OidOfView), Error>(e)
                        } else if cr0 is Err {
                            cr0 == Err::<CommitRangeView, Error>(e)
                        } else {
                            &&& e == Error::RevisionNotFound
                            &&& !(self.in_ancestry(tores->Ok_0.0, tgt->Ok_0.0) || tgt->Ok_0.0
                                == self.n() - 1)
                        }
                    },
                }
            }),
    {
        let n = self.commits.len();
        let (tc, target_ep): (usize, OidOf) = match &pattern.from {
            Some(f) => {
                proof {
                    self.lemma_resolve_oid_of_shape(f@);
                }
                match self.resolve_oid_of_idx(f.as_str()) {
                    Ok(p) => p,
                    Err(e) => {
                        return Err(e);
                    },
                }
            },
            None => {
                if n == 0 {
                    return Err(Error::EmptyHistory);
                }
                (n - 1, OidOf::Other(self.commits[n - 1].oid.clone()))
            },
        };
        let target = target_ep.oid().clone();
        let ghost tlv = target@;
        proof {
            assert(tlv == self.commits@[tc as int]@.oid);
            assert(tlv == self.spec_target(pattern.from_text())->Ok_0.1.oid());
        }
        let base_pattern = RevspecPattern::new(None, pattern.to);
        let (range0, fi0, ti0) = match self.get_commit_range_idx(&base_pattern) {
            Ok(x) => x,
            Err(e) => {
                return Err(e);
            },
        };
        proof {
            self.lemma_to_resolution_shape(pattern.to_text());
            self.lemma_from_default_shape(ti0 as int);
            self.lemma_idx_of_unique(ti0 as int);
            self.lemma_idx_of_unique(tc as int);
        }
        let marks = self.ancestry_marks(ti0);
        if !(marks[tc] || tc == n - 1) {
            return Err(Error::RevisionNotFound);
        }
        let ghost tep0 = self.spec_to_resolution(pattern.to_text())->Ok_0.1;
        let contained = commits_contain_exec(&range0.commits, &target);
        let from_idx0: usize = fi0;
        let from_ep0: OidOf = range0.from.clone();
        let mut links: Vec<Release> = Vec::new();
        let rel0 = Release::from_range(range0);
        links.push(rel0);
        proof {
            assert(link_views(links@) =~= seq![links@[0].link_view()]);
            assert forall|k: int| 0 <= k < links@.len() implies (#[trigger] links@[k]).previous
                is None by {
                assert(links@[k] == links@[0]);
            }
            lemma_chain_single(*self, links@[0].link_view(), tlv);
            if !contained {
                if self.in_ancestry(ti0 as int, tc as int) {
                    self.lemma_range_contains_oid(fi0 as int, ti0 as int, tc as int);
                }
            }
        }
        if !contained {
            self.populate_links(&mut links, from_idx0, from_ep0, &target, Ghost(tc as int));
        }
        proof {
            assert(({
                let lv = link_views(links@);
                let last = lv[lv.len() - 1];
                commits_contain(last.commits, tlv) || last.from.oid() == tlv
            }));
        }
        let ghost lvpre = link_views(links@);
        let mut lastrel = links.pop().unwrap();
        let ghost lv_head = link_views(links@);
        let ghost base_last = lastrel.link_view().commits;
        proof {
            assert(lv_head =~= lvpre.subrange(0, lvpre.len() - 1));
            assert(lastrel.link_view() == lvpre[lvpre.len() - 1]);
        }
        drain_to_target(&mut lastrel.commits, &target);
        let ghost lv_all = lv_head.push(lastrel.link_view());
        proof {
            assert(lv_all.len() == lvpre.len());
            assert(forall|k: int| 0 <= k < lv_all.len() - 1 ==> lv_all[k] == lvpre[k]);
            assert(lv_all[lv_all.len() - 1].commits == drained(base_last, tlv));
            lemma_chain_finish(*self, lvpre, lv_all, tlv);
            assert(lv_all[0].to == tep0);
        }
        let mut chain = lastrel;
        proof {
            assert(chain.chain_view() =~= lv_all.subrange(
                links@.len() as int,
                lv_all.len() as int,
            ));
        }
        while links.len() > 0
            invariant
                lv_all.len() == links@.len() + chain.chain_view().len(),
                chain.chain_view() == lv_all.subrange(links@.len() as int, lv_all.len() as int),
                link_views(links@) == lv_all.subrange(0, links@.len() as int),
            decreases links@.len(),
        {
            let ghost prelinks = links@;
            let mut rel = links.pop().unwrap();
            rel.previous = Some(Box::new(chain));
            proof {
                assert(rel.link_view() == link_views(prelinks)[prelinks.len() - 1]);
                assert(rel.chain_view() =~= seq![rel.link_view()] + lv_all.subrange(
                    prelinks.len() as int,
                    lv_all.len() as int,
                ));
                assert(rel.chain_view() =~= lv_all.subrange(
                    prelinks.len() - 1,
                    lv_all.len() as int,
                ));
                assert(link_views(links@) =~= lv_all.subrange(0, links@.len() as int));
            }
            chain = rel;
        }
        proof {
            assert(chain.chain_view() =~= lv_all);
        }
        Ok(chain)
    }
}

} // verus!
