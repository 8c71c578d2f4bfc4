//! The read-only projection of a repository's history.
//!
//! A [`Repository`] holds every commit of the history in one table, newest
//! first, together with all tags. The table order is topological: every
//! parent stands strictly after its child, so the head is at position 0 and
//! the very first commit of the history is the last entry. All range
//! queries are answered from this table; the ancestry relation below is the
//! reachability closure of the parent edges.

use vstd::prelude::*;

use crate::error::Error;
use crate::oid::{Oid, OidOf, OidOfView};
use crate::tag::Tag;
use crate::text::{is_prefix_of, str_eq_str, str_is_prefix};
use vstd::string::StrSliceExecFns;

verus! {

/// What a commit looks like in specifications.
#[verifier::ext_equal]
pub struct CommitView {
    pub oid: Seq<char>,
    pub parents: Seq<int>,
    pub changed_paths: Seq<Seq<char>>,
}

/// One node of the history graph.
#[derive(Debug)]
pub struct Commit {
    /// The commit's content hash.
    pub oid: Oid,
    /// Positions of the parents in the repository's commit table, first
    /// parent first. A parent is always older than its child, so every
    /// position here is strictly larger than the commit's own.
    pub parents: Vec<usize>,
    /// The paths touched by the tree diff of this commit against its first
    /// parent (against the empty tree for a parentless commit); both the
    /// old and the new side of every delta are listed.
    pub changed_paths: Vec<String>,
}

impl View for Commit {
    type V = CommitView;

    open spec fn view(&self) -> CommitView {
        CommitView {
            oid: self.oid@,
            parents: self.parents@.map_values(|p: usize| p as int),
            changed_paths: self.changed_paths@.map_values(|s: String| s@),
        }
    }
}

impl Clone for Commit {
    fn clone(&self) -> (r: Self)
        ensures
            r@ == self@,
    {
        let mut parents: Vec<usize> = Vec::new();
        let mut i: usize = 0;
        while i < self.parents.len()
            invariant
                0 <= i <= self.parents.len(),
                parents@ == self.parents@.subrange(0, i as int),
            decreases self.parents.len() - i,
        {
            parents.push(self.parents[i]);
            proof {
                assert(parents@ =~= self.parents@.subrange(0, i + 1));
            }
            i += 1;
        }
        let mut changed_paths: Vec<String> = Vec::new();
        let mut j: usize = 0;
        while j < self.changed_paths.len()
            invariant
                0 <= j <= self.changed_paths.len(),
                changed_paths@.len() == j,
                forall|k: int| 0 <= k < j ==> changed_paths@[k]@ == self.changed_paths@[k]@,
            decreases self.changed_paths.len() - j,
        {
            changed_paths.push(self.changed_paths[j].clone());
            j += 1;
        }
        let r = Commit { oid: self.oid.clone(), parents, changed_paths };
        proof {
            assert(parents@ =~= self.parents@);
            assert(r@.parents =~= self@.parents);
            assert(r@.changed_paths =~= self@.changed_paths);
            assert(r@ =~= self@);
        }
        r
    }
}

/// The spec view of a sequence of commits.
pub open spec fn views_of(s: Seq<Commit>) -> Seq<CommitView> {
    s.map_values(|c: Commit| c@)
}

/// Whether some commit of the sequence carries the given hash.
pub open spec fn commits_contain(s: Seq<CommitView>, o: Seq<char>) -> bool {
    exists|i: int| 0 <= i < s.len() && s[i].oid == o
}

/// Scans a commit list for a hash.
pub fn commits_contain_exec(commits: &Vec<Commit>, oid: &Oid) -> (r: bool)
    ensures
        r == commits_contain(views_of(commits@), oid@),
{
    let n = commits.len();
    let mut k: usize = 0;
    while k < n
        invariant
            0 <= k <= n,
            n == commits@.len(),
            forall|i: int| 0 <= i < k ==> views_of(commits@)[i].oid != oid@,
        decreases n - k,
    {
        if commits[k].oid.eq_oid(oid) {
            proof {
                assert(views_of(commits@)[k as int].oid == oid@);
            }
            return true;
        }
        k += 1;
    }
    false
}

/// The whole history of a repository, as plain data.
#[derive(Debug)]
#[verifier::ext_equal]
pub struct Repository {
    /// Every commit of the history, newest first; position 0 is the branch
    /// head and every parent stands strictly after its child.
    pub commits: Vec<Commit>,
    /// Every tag, each with its (dereferenced) target hash.
    pub tags: Vec<Tag>,
}

impl Repository {
    /// Number of commits.
    pub open spec fn n(self) -> int {
        self.commits@.len() as int
    }

    /// Parent edge: commit `child` lists commit `parent` among its parents.
    pub open spec fn parent_edge(self, child: int, parent: int) -> bool {
        exists|k: int|
            0 <= k < self.commits@[child]@.parents.len() && self.commits@[child]@.parents[k]
                == parent
    }

    /// Every parent of commit `i` stands strictly after it in the table.
    pub open spec fn wf_commit(self, i: int) -> bool {
        forall|k: int|
            0 <= k < self.commits@[i]@.parents.len() ==> i < #[trigger] self.commits@[i]@.parents[k]
                < self.n()
    }

    /// No two commits share a hash.
    pub open spec fn oids_distinct(self) -> bool {
        forall|i: int, j: int|
            0 <= i < j < self.n() ==> self.commits@[i]@.oid != self.commits@[j]@.oid
    }

    /// All hashes have the same length, as fixed-size digests do. This is
    /// what makes a full hash never a proper prefix of another one.
    pub open spec fn oids_uniform(self) -> bool {
        forall|i: int|
            0 <= i < self.n() ==> (#[trigger] self.commits@[i]@.oid).len()
                == self.commits@[0]@.oid.len()
    }

    /// Every tag targets a commit of the table, and no two tags carry the
    /// same version (tag names are unique refs, and here a name is its
    /// version).
    pub open spec fn tags_wf(self) -> bool {
        &&& forall|t: int|
            0 <= t < self.tags@.len() ==> (#[trigger] self.idx_of(self.tags@[t]@.oid)) is Some
        &&& forall|t1: int, t2: int|
            0 <= t1 < t2 < self.tags@.len() ==> self.tags@[t1]@.version != self.tags@[t2]@.version
    }

    /// The invariant of the whole model.
    pub open spec fn wf(self) -> bool {
        &&& forall|i: int| 0 <= i < self.n() ==> self.wf_commit(i)
        &&& self.oids_distinct()
        &&& self.oids_uniform()
        &&& self.tags_wf()
    }

    /// First position holding the given hash, searching from `k` on.
    pub open spec fn idx_of_from(self, o: Seq<char>, k: int) -> Option<int>
        decreases self.n() - k,
    {
        if k < 0 || k >= self.n() {
            None
        } else if self.commits@[k]@.oid == o {
            Some(k)
        } else {
            self.idx_of_from(o, k + 1)
        }
    }

    /// Position of the commit with the given hash, if any.
    pub open spec fn idx_of(self, o: Seq<char>) -> Option<int> {
        self.idx_of_from(o, 0)
    }

    /// `i` is an ancestor of `root`, or `root` itself: the reflexive,
    /// transitive closure of the parent edges. Well founded because every
    /// edge leads strictly forward in the table.
    pub open spec fn in_ancestry(self, root: int, i: int) -> bool
        decreases i - root,
    {
        if i == root {
            true
        } else if i <= root {
            false
        } else {
            exists|j: int| root <= j < i && self.in_ancestry(root, j) && self.parent_edge(j, i)
        }
    }

    /// Membership of the two-dot range `from..to`: reachable from `to`,
    /// not reachable from `from`.
    pub open spec fn in_range(self, from: int, to: int, i: int) -> bool {
        self.in_ancestry(to, i) && !self.in_ancestry(from, i)
    }

    /// The positions below `k` that lie in the range, ascending.
    pub open spec fn range_indices_upto(self, from: int, to: int, k: int) -> Seq<int>
        decreases k,
    {
        if k <= 0 {
            Seq::empty()
        } else if self.in_range(from, to, k - 1) {
            self.range_indices_upto(from, to, k - 1).push(k - 1)
        } else {
            self.range_indices_upto(from, to, k - 1)
        }
    }

    /// All positions of the range `from..to`, ascending, i.e. newest first.
    pub open spec fn range_indices(self, from: int, to: int) -> Seq<int> {
        self.range_indices_upto(from, to, self.n())
    }

    /// The commits of the range `from..to`, newest first.
    pub open spec fn range_views(self, from: int, to: int) -> Seq<CommitView> {
        self.range_indices(from, to).map_values(|i: int| self.commits@[i]@)
    }

    /// The basic shape of `range_indices_upto`: it lists exactly the range
    /// members below `k`, in strictly ascending order.
    pub proof fn lemma_range_indices_upto(self, from: int, to: int, k: int)
        ensures
            forall|m: int|
                0 <= m < self.range_indices_upto(from, to, k).len() ==> {
                    let i = #[trigger] self.range_indices_upto(from, to, k)[m];
                    0 <= i < k && self.in_range(from, to, i)
                },
            forall|i: int|
                0 <= i < k && self.in_range(from, to, i) ==> self.range_indices_upto(
                    from,
                    to,
                    k,
                ).contains(i),
            forall|m1: int, m2: int|
                0 <= m1 < m2 < self.range_indices_upto(from, to, k).len() ==> self.range_indices_upto(
                    from,
                    to,
                    k,
                )[m1] < self.range_indices_upto(from, to, k)[m2],
        decreases k,
    {
        if k > 0 {
            self.lemma_range_indices_upto(from, to, k - 1);
            assert forall|i: int|
                0 <= i < k && self.in_range(from, to, i) implies self.range_indices_upto(
                from,
                to,
                k,
            ).contains(i) by {
                if i < k - 1 || !self.in_range(from, to, k - 1) {
                    if i < k - 1 {
                        let m = choose|m: int|
                            0 <= m < self.range_indices_upto(from, to, k - 1).len() && (
                            #[trigger] self.range_indices_upto(from, to, k - 1)[m]) == i;
                        assert(self.range_indices_upto(from, to, k)[m] == i);
                    }
                } else {
                    let s = self.range_indices_upto(from, to, k);
                    assert(s[s.len() - 1] == k - 1);
                }
            }
        }
    }

    /// Helper for the marking pass: `i` is the root, or some commit below
    /// `upto` already known to be in the ancestry has an edge to `i`.
    pub open spec fn reached_by(self, root: int, upto: int, i: int) -> bool {
        i == root || exists|j: int|
            root <= j < upto && self.in_ancestry(root, j) && self.parent_edge(j, i)
    }

    proof fn lemma_reached_full(self, root: int, i: int)
        requires
            self.wf(),
            0 <= root < self.n(),
            0 <= i < self.n(),
        ensures
            self.reached_by(root, self.n(), i) == self.in_ancestry(root, i),
    {
        if self.reached_by(root, self.n(), i) {
            if i != root {
                let j = choose|j: int|
                    root <= j < self.n() && self.in_ancestry(root, j) && self.parent_edge(j, i);
                assert(self.wf_commit(j));
                let k = choose|k: int|
                    0 <= k < self.commits@[j]@.parents.len() && self.commits@[j]@.parents[k] == i;
                assert(j < i);
                assert(self.in_ancestry(root, i));
            }
        }
        if self.in_ancestry(root, i) {
            if i != root {
                let j = choose|j: int|
                    root <= j < i && self.in_ancestry(root, j) && self.parent_edge(j, i);
                assert(self.reached_by(root, self.n(), i));
            }
        }
    }

    /// Marks, for every position, whether it lies in the ancestry of
    /// `root`. One forward pass suffices because all edges lead forward.
    pub(crate) fn ancestry_marks(&self, root: usize) -> (m: Vec<bool>)
        requires
            self.wf(),
            root < self.commits.len(),
        ensures
            m@.len() == self.n(),
            forall|i: int| 0 <= i < self.n() ==> m@[i] == self.in_ancestry(root as int, i),
    {
        let n = self.commits.len();
        let mut m: Vec<bool> = Vec::new();
        let mut i: usize = 0;
        while i < n
            invariant
                0 <= i <= n,
                m@.len() == i,
                forall|q: int| 0 <= q < i ==> m@[q] == false,
            decreases n - i,
        {
            m.push(false);
            i += 1;
        }
        m.set(root, true);
        let ghost rt = root as int;
        let mut k: usize = root;
        proof {
            assert forall|q: int| 0 <= q < self.n() implies m@[q] == self.reached_by(
                rt,
                rt,
                q,
            ) by {
                if self.reached_by(rt, rt, q) && q != rt {
                    let j = choose|j: int|
                        rt <= j < rt && self.in_ancestry(rt, j) && self.parent_edge(j, q);
                    assert(false);
                }
            }
        }
        while k < n
            invariant
                self.wf(),
                root < n,
                root <= k <= n,
                n == self.n(),
                rt == root as int,
                m@.len() == n,
                forall|q: int| 0 <= q < n ==> m@[q] == self.reached_by(rt, k as int, q),
            decreases n - k,
        {
            proof {
                assert(m@[k as int] == self.reached_by(rt, k as int, k as int));
                assert(self.reached_by(rt, k as int, k as int) == self.in_ancestry(
                    rt,
                    k as int,
                ));
            }
            if m[k] {
                let parents = &self.commits[k].parents;
                let mut t: usize = 0;
                while t < parents.len()
                    invariant
                        self.wf(),
                        root < n,
                        root <= k < n,
                        n == self.n(),
                        rt == root as int,
                        m@.len() == n,
                        parents@ == self.commits@[k as int].parents@,
                        self.in_ancestry(rt, k as int),
                        0 <= t <= parents.len(),
                        forall|q: int|
                            0 <= q < n ==> m@[q] == (self.reached_by(rt, k as int, q) || exists|
                                tt: int,
                            |
                                0 <= tt < t && self.commits@[k as int]@.parents[tt] == q),
                    decreases parents.len() - t,
                {
                    let p = parents[t];
                    proof {
                        assert(self.wf_commit(k as int));
                        assert(self.commits@[k as int]@.parents[t as int] == p as int);
                        assert(k < p < n);
                    }
                    if !m[p] {
                        m.set(p, true);
                    }
                    proof {
                        assert forall|q: int| 0 <= q < n implies m@[q] == (self.reached_by(
                            rt,
                            k as int,
                            q,
                        ) || exists|tt: int|
                            0 <= tt < t + 1 && self.commits@[k as int]@.parents[tt] == q) by {
                            if q == p as int {
                                assert(self.commits@[k as int]@.parents[t as int] == q);
                            }
                        }
                    }
                    t += 1;
                }
                proof {
                    assert forall|q: int| 0 <= q < n implies m@[q] == self.reached_by(
                        rt,
                        k as int + 1,
                        q,
                    ) by {
                        assert(m@[q] == (self.reached_by(rt, k as int, q) || exists|tt: int|
                            0 <= tt < parents@.len()
                                && self.commits@[k as int]@.parents[tt as int] == q));
                        if m@[q] {
                            if self.reached_by(rt, k as int, q) {
                                if q != rt {
                                    let j = choose|j: int|
                                        rt <= j < k as int && self.in_ancestry(rt, j)
                                            && self.parent_edge(j, q);
                                    assert(self.reached_by(rt, k as int + 1, q));
                                }
                            } else {
                                let tt = choose|tt: int|
                                    0 <= tt < parents@.len()
                                        && self.commits@[k as int]@.parents[tt as int] == q;
                                assert(self.parent_edge(k as int, q));
                                assert(self.reached_by(rt, k as int + 1, q));
                            }
                        } else {
                            if self.reached_by(rt, k as int + 1, q) {
                                assert(q != rt);
                                let j = choose|j: int|
                                    rt <= j < k as int + 1 && self.in_ancestry(rt, j)
                                        && self.parent_edge(j, q);
                                if j < k as int {
                                    assert(self.reached_by(rt, k as int, q));
                                } else {
                                    let kk = choose|kk: int|
                                        0 <= kk < self.commits@[j]@.parents.len()
                                            && self.commits@[j]@.parents[kk] == q;
                                    assert(false);
                                }
                                assert(false);
                            }
                        }
                    }
                }
            } else {
                proof {
                    assert forall|q: int| 0 <= q < n implies m@[q] == self.reached_by(
                        rt,
                        k as int + 1,
                        q,
                    ) by {
                        if self.reached_by(rt, k as int + 1, q) && !self.reached_by(
                            rt,
                            k as int,
                            q,
                        ) {
                            let j = choose|j: int|
                                rt <= j < k as int + 1 && self.in_ancestry(rt, j)
                                    && self.parent_edge(j, q);
                            assert(j == k as int);
                            assert(false);
                        }
                    }
                }
            }
            k += 1;
        }
        proof {
            assert forall|i2: int| 0 <= i2 < self.n() implies m@[i2] == self.in_ancestry(
                rt,
                i2,
            ) by {
                self.lemma_reached_full(rt, i2);
            }
        }
        m
    }

    /// Enumerates the commits of the two-dot range `from..to`: everything
    /// reachable from `to` but not from `from`, newest first. Equal
    /// endpoints give the empty range.
    pub fn get_commit_range_from_spec(&self, from: usize, to: usize) -> (r: Vec<Commit>)
        requires
            self.wf(),
            from < self.commits.len(),
            to < self.commits.len(),
        ensures
            views_of(r@) == self.range_views(from as int, to as int),
    {
        let n = self.commits.len();
        let marks_to = self.ancestry_marks(to);
        let marks_from = self.ancestry_marks(from);
        let mut r: Vec<Commit> = Vec::new();
        let mut k: usize = 0;
        while k < n
            invariant
                self.wf(),
                from < n,
                to < n,
                n == self.n(),
                marks_to@.len() == n,
                marks_from@.len() == n,
                forall|i: int| 0 <= i < n ==> marks_to@[i] == self.in_ancestry(to as int, i),
                forall|i: int| 0 <= i < n ==> marks_from@[i] == self.in_ancestry(from as int, i),
                0 <= k <= n,
                views_of(r@) == self.range_indices_upto(from as int, to as int, k as int)
                    .map_values(|i: int| self.commits@[i]@),
            decreases n - k,
        {
            let ghost pre = views_of(r@);
            if marks_to[k] && !marks_from[k] {
                r.push(self.commits[k].clone());
                proof {
                    assert(views_of(r@) =~= pre.push(self.commits@[k as int]@));
                }
            }
            proof {
                assert(self.range_indices_upto(from as int, to as int, k + 1).map_values(
                    |i: int| self.commits@[i]@,
                ) =~= views_of(r@));
            }
            k += 1;
        }
        r
    }
}

impl Repository {
    /// Validates plain history data and wraps it as a repository: parent
    /// positions must lead strictly backward in age, hashes must be
    /// distinct and of one length, every tag must target a commit, and no
    /// two tags may carry the same version.
    pub fn new(commits: Vec<Commit>, tags: Vec<Tag>) -> (r: Option<Repository>)
        ensures
            match r {
                Some(repo) => repo.commits == commits && repo.tags == tags && repo.wf(),
                None => !(Repository { commits, tags }).wf(),
            },
    {
        let ghost gcommits = commits;
        let ghost gtags = tags;
        let repo = Repository { commits, tags };
        proof {
            assert(repo =~= (Repository { commits: gcommits, tags: gtags }));
        }
        let n = repo.commits.len();
        let mut ok: bool = true;
        let mut i: usize = 0;
        while i < n
            invariant
                repo == (Repository { commits: gcommits, tags: gtags }),
                0 <= i <= n,
                n == repo.n(),
                ok ==> forall|j: int| 0 <= j < i ==> repo.wf_commit(j),
                !ok ==> !repo.wf(),
            decreases n - i,
        {
            if ok {
                let pl = repo.commits[i].parents.len();
                let mut k: usize = 0;
                while k < pl
                    invariant
                        repo == (Repository { commits: gcommits, tags: gtags }),
                        0 <= k <= pl,
                        i < n,
                        n == repo.n(),
                        pl == repo.commits@[i as int]@.parents.len(),
                        ok ==> forall|kk: int|
                            0 <= kk < k ==> i < #[trigger] repo.commits@[i as int]@.parents[kk]
                                < n,
                        !ok ==> !repo.wf(),
                    decreases pl - k,
                {
                    if ok {
                        let p = repo.commits[i].parents[k];
                        proof {
                            assert(repo.commits@[i as int]@.parents[k as int] == p as int);
                        }
                        if p <= i || p >= n {
                            proof {
                                assert(!repo.wf_commit(i as int));
                            }
                            ok = false;
                        }
                    }
                    k += 1;
                }
                proof {
                    if ok {
                        assert(repo.wf_commit(i as int));
                    }
                }
            }
            i += 1;
        }
        if ok && n > 0 {
            let len0 = repo.commits[0].oid.repr.as_str().unicode_len();
            let mut i2: usize = 0;
            while i2 < n
                invariant
                    repo == (Repository { commits: gcommits, tags: gtags }),
                    0 <= i2 <= n,
                    n == repo.n(),
                    n > 0,
                    len0 == repo.commits@[0]@.oid.len(),
                    ok ==> forall|j: int| 0 <= j < repo.n() ==> repo.wf_commit(j),
                    ok ==> forall|j: int|
                        0 <= j < i2 ==> (#[trigger] repo.commits@[j]@.oid).len()
                            == repo.commits@[0]@.oid.len(),
                    !ok ==> !repo.wf(),
                decreases n - i2,
            {
                if ok {
                    let li = repo.commits[i2].oid.repr.as_str().unicode_len();
                    if li != len0 {
                        proof {
                            assert(li == repo.commits@[i2 as int]@.oid.len());
                            assert(!repo.oids_uniform()) by {
                                if repo.oids_uniform() {
                                    assert(repo.commits@[i2 as int]@.oid.len()
                                        == repo.commits@[0]@.oid.len());
                                }
                            }
                        }
                        ok = false;
                    }
                }
                i2 += 1;
            }
        }
        let mut i3: usize = 0;
        while i3 < n
            invariant
                repo == (Repository { commits: gcommits, tags: gtags }),
                0 <= i3 <= n,
                n == repo.n(),
                ok ==> forall|j: int| 0 <= j < repo.n() ==> repo.wf_commit(j),
                ok ==> repo.oids_uniform(),
                ok ==> forall|a: int, b: int|
                    0 <= a < b < n && a < i3 ==> repo.commits@[a]@.oid != repo.commits@[b]@.oid,
                !ok ==> !repo.wf(),
            decreases n - i3,
        {
            if ok {
                let mut j: usize = i3 + 1;
                while j < n
                    invariant
                        repo == (Repository { commits: gcommits, tags: gtags }),
                        i3 < j <= n || (i3 + 1 == j && j > n),
                        i3 < n,
                        n == repo.n(),
                        ok ==> forall|j: int| 0 <= j < repo.n() ==> repo.wf_commit(j),
                        ok ==> repo.oids_uniform(),
                        ok ==> forall|a: int, b: int|
                            0 <= a < b < n && a < i3 ==> repo.commits@[a]@.oid
                                != repo.commits@[b]@.oid,
                        ok ==> forall|b: int|
                            i3 < b < j ==> repo.commits@[i3 as int]@.oid
                                != repo.commits@[b]@.oid,
                        !ok ==> !repo.wf(),
                    decreases n - j,
                {
                    if ok {
                        if repo.commits[i3].oid.eq_oid(&repo.commits[j].oid) {
                            proof {
                                assert(repo.commits@[i3 as int]@.oid
                                    == repo.commits@[j as int]@.oid);
                                assert(!repo.oids_distinct()) by {
                                    if repo.oids_distinct() {
                                        assert(repo.commits@[i3 as int]@.oid
                                            != repo.commits@[j as int]@.oid);
                                    }
                                }
                            }
                            ok = false;
                        }
                    }
                    j += 1;
                }
            }
            i3 += 1;
        }
        let tn = repo.tags.len();
        let mut t: usize = 0;
        while t < tn
            invariant
                repo == (Repository { commits: gcommits, tags: gtags }),
                0 <= t <= tn,
                tn == repo.tags@.len(),
                ok ==> forall|j: int| 0 <= j < repo.n() ==> repo.wf_commit(j),
                ok ==> repo.oids_uniform(),
                ok ==> repo.oids_distinct(),
                ok ==> forall|u: int|
                    0 <= u < t ==> (#[trigger] repo.idx_of(repo.tags@[u]@.oid)) is Some,
                !ok ==> !repo.wf(),
            decreases tn - t,
        {
            if ok {
                match repo.find_oid_idx(&repo.tags[t].oid) {
                    None => {
                        proof {
                            assert(repo.idx_of(repo.tags@[t as int]@.oid) is None);
                            assert(!repo.tags_wf()) by {
                                if repo.tags_wf() {
                                    assert(repo.idx_of(repo.tags@[t as int]@.oid) is Some);
                                }
                            }
                        }
                        ok = false;
                    },
                    Some(_) => {},
                }
            }
            t += 1;
        }
        let mut t1: usize = 0;
        while t1 < tn
            invariant
                repo == (Repository { commits: gcommits, tags: gtags }),
                0 <= t1 <= tn,
                tn == repo.tags@.len(),
                ok ==> forall|j: int| 0 <= j < repo.n() ==> repo.wf_commit(j),
                ok ==> repo.oids_uniform(),
                ok ==> repo.oids_distinct(),
                ok ==> forall|u: int|
                    0 <= u < repo.tags@.len() ==> (#[trigger] repo.idx_of(
                        repo.tags@[u]@.oid,
                    )) is Some,
                ok ==> forall|a: int, b: int|
                    0 <= a < b < tn && a < t1 ==> repo.tags@[a]@.version != repo.tags@[b]@.version,
                !ok ==> !repo.wf(),
            decreases tn - t1,
        {
            if ok {
                let mut t2: usize = t1 + 1;
                while t2 < tn
                    invariant
                        repo == (Repository { commits: gcommits, tags: gtags }),
                        t1 < t2 <= tn || (t1 + 1 == t2 && t2 > tn),
                        t1 < tn,
                        tn == repo.tags@.len(),
                        ok ==> forall|j: int| 0 <= j < repo.n() ==> repo.wf_commit(j),
                        ok ==> repo.oids_uniform(),
                        ok ==> repo.oids_distinct(),
                        ok ==> forall|u: int|
                    0 <= u < repo.tags@.len() ==> (#[trigger] repo.idx_of(
                        repo.tags@[u]@.oid,
                    )) is Some,
                        ok ==> forall|a: int, b: int|
                            0 <= a < b < tn && a < t1 ==> repo.tags@[a]@.version
                                != repo.tags@[b]@.version,
                        ok ==> forall|b: int|
                            t1 < b < t2 ==> repo.tags@[t1 as int]@.version
                                != repo.tags@[b]@.version,
                        !ok ==> !repo.wf(),
                    decreases tn - t2,
                {
                    if ok {
                        if repo.tags[t1].version == repo.tags[t2].version {
                            proof {
                                assert(repo.tags@[t1 as int]@.version
                                    == repo.tags@[t2 as int]@.version);
                                assert(!repo.tags_wf()) by {
                                    if repo.tags_wf() {
                                        assert(repo.tags@[t1 as int]@.version
                                            != repo.tags@[t2 as int]@.version);
                                    }
                                }
                            }
                            ok = false;
                        }
                    }
                    t2 += 1;
                }
            }
            t1 += 1;
        }
        if ok {
            Some(repo)
        } else {
            proof {
                assert(!(Repository { commits, tags }).wf());
            }
            None
        }
    }

    /// The shape of a two-dot walk, for endpoints `from` and `to` with
    /// `from` an ancestor of `to` or equal to it: the walk never contains
    /// the `from` commit; it contains the `to` commit unless the endpoints
    /// are equal, in which case it is empty; its positions descend in age
    /// (newest first); and every in-range parent of a listed commit is
    /// listed later.
    pub proof fn lemma_walk_shape(self, from: int, to: int)
        requires
            self.wf(),
            0 <= from < self.n(),
            0 <= to < self.n(),
        ensures
            forall|m: int|
                0 <= m < self.range_indices(from, to).len() ==> 0 <= #[trigger] self.range_indices(
                    from,
                    to,
                )[m] < self.n() && self.in_range(from, to, self.range_indices(from, to)[m]),
            forall|m: int|
                0 <= m < self.range_indices(from, to).len() ==> self.range_indices(from, to)[m]
                    != from,
            from == to ==> self.range_indices(from, to).len() == 0,
            from != to && self.in_ancestry(to, from) ==> self.range_indices(from, to).contains(to),
            forall|m1: int, m2: int|
                0 <= m1 < m2 < self.range_indices(from, to).len() ==> self.range_indices(
                    from,
                    to,
                )[m1] < self.range_indices(from, to)[m2],
            forall|m: int, p: int|
                0 <= m < self.range_indices(from, to).len() && #[trigger] self.parent_edge(
                    self.range_indices(from, to)[m],
                    p,
                ) && self.in_range(from, to, p) ==> exists|m2: int|
                    m < m2 < self.range_indices(from, to).len() && self.range_indices(from, to)[m2]
                        == p,
    {
        let s = self.range_indices(from, to);
        self.lemma_range_indices_upto(from, to, self.n());
        assert forall|m: int| 0 <= m < s.len() implies s[m] != from by {
            assert(self.in_range(from, to, s[m]));
            assert(self.in_ancestry(from, from));
        }
        if from == to {
            if s.len() > 0 {
                assert(self.in_range(from, to, s[0]));
            }
        }
        if from != to && self.in_ancestry(to, from) {
            assert(!self.in_ancestry(from, to)) by {
                if self.in_ancestry(from, to) {
                    assert(to >= from);
                    assert(from >= to);
                }
            }
            assert(self.in_ancestry(to, to));
            assert(self.in_range(from, to, to));
        }
        assert forall|m: int, p: int|
            0 <= m < s.len() && #[trigger] self.parent_edge(s[m], p) && self.in_range(
                from,
                to,
                p,
            ) implies exists|m2: int| m < m2 < s.len() && s[m2] == p by {
            assert(self.wf_commit(s[m]));
            let k = choose|k: int|
                0 <= k < self.commits@[s[m]]@.parents.len() && self.commits@[s[m]]@.parents[k]
                    == p;
            assert(s[m] < p < self.n());
            assert(s.contains(p));
            let m2 = choose|m2: int| 0 <= m2 < s.len() && s[m2] == p;
            assert(m2 > m) by {
                if m2 <= m {
                    if m2 < m {
                        assert(s[m2] < s[m]);
                    }
                }
            }
        }
    }

    /// A range holds a commit's hash exactly when the commit's position
    /// lies in the range.
    pub proof fn lemma_range_contains_oid(self, from: int, to: int, i: int)
        requires
            self.wf(),
            0 <= from < self.n(),
            0 <= to < self.n(),
            0 <= i < self.n(),
        ensures
            commits_contain(self.range_views(from, to), self.commits@[i]@.oid) == self.in_range(
                from,
                to,
                i,
            ),
    {
        let s = self.range_indices(from, to);
        let vs = self.range_views(from, to);
        self.lemma_range_indices_upto(from, to, self.n());
        if self.in_range(from, to, i) {
            assert(s.contains(i));
            let m = choose|m: int| 0 <= m < s.len() && s[m] == i;
            assert(vs[m].oid == self.commits@[i]@.oid);
        }
        if commits_contain(vs, self.commits@[i]@.oid) {
            let m = choose|m: int|
                0 <= m < vs.len() && vs[m].oid == self.commits@[i]@.oid;
            let j = s[m];
            assert(self.in_range(from, to, j));
            assert(self.commits@[j]@.oid == self.commits@[i]@.oid);
            if i != j {
                assert(false);
            }
        }
    }

    /// Under `wf`, a commit's own position is where its hash is found.
    pub proof fn lemma_idx_of_unique(self, i: int)
        requires
            self.wf(),
            0 <= i < self.n(),
        ensures
            self.idx_of(self.commits@[i]@.oid) == Some(i),
    {
        self.lemma_idx_of_from(self.commits@[i]@.oid, 0);
        match self.idx_of(self.commits@[i]@.oid) {
            None => {
                assert(false);
            },
            Some(j) => {
                if i != j {
                    assert(false);
                }
            },
        }
    }

    /// A range with equal endpoints holds no commit at all.
    pub proof fn lemma_equal_endpoints_empty(self, e: int)
        ensures
            self.range_indices(e, e).len() == 0,
    {
        self.lemma_range_indices_upto(e, e, self.n());
        if self.range_indices(e, e).len() > 0 {
            assert(self.in_range(e, e, self.range_indices(e, e)[0]));
        }
    }

    /// Where `spec_tag_for_commit` points: a tag targeting the hash.
    pub proof fn lemma_spec_tag_for_commit(self, o: Seq<char>, k: int)
        ensures
            match self.spec_tag_for_commit(o, k) {
                Some(t) => k <= t < self.tags@.len() && self.tags@[t]@.oid == o,
                None => true,
            },
        decreases self.tags@.len() - k,
    {
        if 0 <= k < self.tags@.len() && self.tags@[k]@.oid != o {
            self.lemma_spec_tag_for_commit(o, k + 1);
        }
    }

    /// The default lower bound below `ti` is a valid position, lies
    /// strictly beyond `ti` or at the first commit, and its displayed
    /// endpoint carries the hash of that position.
    pub proof fn lemma_from_default_shape(self, ti: int)
        requires
            self.wf(),
            0 <= ti < self.n(),
        ensures
            0 <= self.spec_from_default(ti).0 < self.n(),
            self.spec_from_default(ti).0 > ti || self.spec_from_default(ti).0 == self.n() - 1,
            self.spec_from_default(ti).1.oid() == self.commits@[self.spec_from_default(
                ti,
            ).0]@.oid,
    {
        match self.spec_latest_tag_below(ti) {
            None => {},
            Some(t) => {
                let parent = self.commits@[ti]@.parents[0];
                self.lemma_latest_tag_in_upto(self.n() - 1, parent, self.tags@.len() as int);
                assert(self.tag_in_set(t, self.n() - 1, parent));
                let ci = self.idx_of(self.tags@[t]@.oid)->0;
                self.lemma_idx_of_from(self.tags@[t]@.oid, 0);
                assert(self.in_ancestry(parent, ci));
                assert(ci >= parent) by {
                    if ci < parent {
                        assert(!self.in_ancestry(parent, ci));
                    }
                }
                assert(self.wf_commit(ti));
            },
        }
    }

    /// A resolved endpoint carries the hash of the position it resolves
    /// to.
    pub proof fn lemma_resolve_oid_of_shape(self, text: Seq<char>)
        requires
            self.wf(),
        ensures
            match self.spec_resolve_oid_of(text) {
                Ok((ci, ep)) => 0 <= ci < self.n() && ep.oid() == self.commits@[ci]@.oid,
                Err(_) => true,
            },
    {
        match self.spec_find_tag(text, 0) {
            Some(t) => {
                self.lemma_spec_find_tag(text, 0);
                self.lemma_idx_of_from(self.tags@[t]@.oid, 0);
            },
            None => {
                match self.spec_revparse_plain(text) {
                    None => {},
                    Some(ci) => {
                        self.lemma_revparse_plain_bounds(text);
                        self.lemma_spec_tag_for_commit(self.commits@[ci]@.oid, 0);
                    },
                }
            },
        }
    }

    /// A plainly resolved revision is a valid position.
    pub proof fn lemma_revparse_plain_bounds(self, text: Seq<char>)
        ensures
            match self.spec_revparse_plain(text) {
                Some(ci) => 0 <= ci < self.n(),
                None => true,
            },
    {
        if text != "HEAD"@ {
            match self.spec_prefix_match_from(text, 0) {
                None => {},
                Some(i) => {
                    self.lemma_prefix_match_bounds(text, 0);
                },
            }
        }
    }

    /// A prefix match is a valid position.
    pub proof fn lemma_prefix_match_bounds(self, text: Seq<char>, k: int)
        ensures
            match self.spec_prefix_match_from(text, k) {
                Some(i) => k <= i < self.n(),
                None => true,
            },
        decreases self.n() - k,
    {
        if 0 <= k < self.n() && !self.prefix_matches(text, k) {
            self.lemma_prefix_match_bounds(text, k + 1);
        }
    }

    /// Where `idx_of_from` points: the first position at or after `k`
    /// holding the hash, and nothing before it does.
    pub proof fn lemma_idx_of_from(self, o: Seq<char>, k: int)
        requires
            0 <= k,
        ensures
            match self.idx_of_from(o, k) {
                Some(i) => k <= i < self.n() && self.commits@[i]@.oid == o && forall|j: int|
                    k <= j < i ==> self.commits@[j]@.oid != o,
                None => forall|j: int| k <= j < self.n() ==> self.commits@[j]@.oid != o,
            },
        decreases self.n() - k,
    {
        if 0 <= k < self.n() && self.commits@[k]@.oid != o {
            self.lemma_idx_of_from(o, k + 1);
        }
    }

    /// Looks the hash up in the commit table.
    pub fn find_oid_idx(&self, o: &Oid) -> (r: Option<usize>)
        ensures
            match r {
                Some(i) => self.idx_of(o@) == Some(i as int),
                None => self.idx_of(o@) is None,
            },
    {
        let n = self.commits.len();
        let mut k: usize = 0;
        while k < n
            invariant
                0 <= k <= n,
                n == self.n(),
                self.idx_of(o@) == self.idx_of_from(o@, k as int),
            decreases n - k,
        {
            if self.commits[k].oid.eq_oid(o) {
                return Some(k);
            }
            k += 1;
        }
        None
    }

    /// First tag, in listing order, whose version renders as the given
    /// text.
    pub open spec fn spec_find_tag(self, text: Seq<char>, k: int) -> Option<int>
        decreases self.tags@.len() - k,
    {
        if k < 0 || k >= self.tags@.len() {
            None
        } else if self.tags@[k]@.version.text() == text {
            Some(k)
        } else {
            self.spec_find_tag(text, k + 1)
        }
    }

    /// Interprets the text as a tag name: on success the returned tag
    /// carries the (dereferenced) target hash.
    pub fn resolve_tag(&self, text: &str) -> (r: Option<Tag>)
        ensures
            match r {
                Some(tag) => self.spec_find_tag(text@, 0) is Some && tag@ == self.tags@[self.spec_find_tag(
                    text@,
                    0,
                )->0]@,
                None => self.spec_find_tag(text@, 0) is None,
            },
    {
        let n = self.tags.len();
        let mut k: usize = 0;
        while k < n
            invariant
                0 <= k <= n,
                n == self.tags@.len(),
                self.spec_find_tag(text@, 0) == self.spec_find_tag(text@, k as int),
            decreases n - k,
        {
            let vtext = self.tags[k].version.to_text();
            if str_eq_str(vtext.as_str(), text) {
                return Some(self.tags[k].clone());
            }
            k += 1;
        }
        None
    }

    /// First tag, in listing order, targeting the given hash.
    pub open spec fn spec_tag_for_commit(self, o: Seq<char>, k: int) -> Option<int>
        decreases self.tags@.len() - k,
    {
        if k < 0 || k >= self.tags@.len() {
            None
        } else if self.tags@[k]@.oid == o {
            Some(k)
        } else {
            self.spec_tag_for_commit(o, k + 1)
        }
    }

    pub(crate) fn find_tag_for_commit(&self, o: &Oid) -> (r: Option<Tag>)
        ensures
            match r {
                Some(tag) => self.spec_tag_for_commit(o@, 0) is Some && tag@ == self.tags@[self.spec_tag_for_commit(
                    o@,
                    0,
                )->0]@,
                None => self.spec_tag_for_commit(o@, 0) is None,
            },
    {
        let n = self.tags.len();
        let mut k: usize = 0;
        while k < n
            invariant
                0 <= k <= n,
                n == self.tags@.len(),
                self.spec_tag_for_commit(o@, 0) == self.spec_tag_for_commit(o@, k as int),
            decreases n - k,
        {
            if self.tags[k].oid.eq_oid(o) {
                return Some(self.tags[k].clone());
            }
            k += 1;
        }
        None
    }

    /// The fold that picks the repository's latest tag: among the first
    /// `k` tags, the one with the greatest version; the later tag wins a
    /// tie, though under `wf` ties do not occur.
    pub open spec fn spec_latest_tag_upto(self, k: int) -> Option<int>
        decreases k,
    {
        if k <= 0 {
            None
        } else {
            let prev = self.spec_latest_tag_upto(k - 1);
            match prev {
                None => Some(k - 1),
                Some(p) => if self.tags@[k - 1]@.version.spec_lt(self.tags@[p]@.version) {
                    Some(p)
                } else {
                    Some(k - 1)
                },
            }
        }
    }

    /// The tag with the greatest version, if any tag exists.
    pub fn get_latest_tag(&self) -> (r: Option<Tag>)
        ensures
            match r {
                Some(tag) => self.spec_latest_tag_upto(self.tags@.len() as int) is Some && tag@
                    == self.tags@[self.spec_latest_tag_upto(self.tags@.len() as int)->0]@,
                None => self.spec_latest_tag_upto(self.tags@.len() as int) is None,
            },
    {
        let n = self.tags.len();
        let mut best: Option<usize> = None;
        let mut k: usize = 0;
        while k < n
            invariant
                0 <= k <= n,
                n == self.tags@.len(),
                match best {
                    None => self.spec_latest_tag_upto(k as int) is None,
                    Some(b) => b < n && self.spec_latest_tag_upto(k as int) == Some(b as int),
                },
            decreases n - k,
        {
            best = match best {
                None => Some(k),
                Some(b) => {
                    if self.tags[k].version.lt(&self.tags[b].version) {
                        Some(b)
                    } else {
                        Some(k)
                    }
                },
            };
            k += 1;
        }
        match best {
            None => None,
            Some(b) => Some(self.tags[b].clone()),
        }
    }

    /// Where `spec_find_tag` points: a tag whose version renders as the
    /// text.
    pub proof fn lemma_spec_find_tag(self, text: Seq<char>, k: int)
        ensures
            match self.spec_find_tag(text, k) {
                Some(t) => k <= t < self.tags@.len() && self.tags@[t]@.version.text() == text,
                None => true,
            },
        decreases self.tags@.len() - k,
    {
        if 0 <= k < self.tags@.len() && self.tags@[k]@.version.text() != text {
            self.lemma_spec_find_tag(text, k + 1);
        }
    }

    /// Whether tag `t` targets a commit of the two-dot range `from..to`.
    pub open spec fn tag_in_set(self, t: int, from: int, to: int) -> bool {
        match self.idx_of(self.tags@[t]@.oid) {
            Some(ci) => self.in_range(from, to, ci),
            None => false,
        }
    }

    /// The fold that picks the latest tag among those targeting the range
    /// `from..to`, over the first `k` tags.
    pub open spec fn spec_latest_tag_in_upto(self, from: int, to: int, k: int) -> Option<int>
        decreases k,
    {
        if k <= 0 {
            None
        } else {
            let prev = self.spec_latest_tag_in_upto(from, to, k - 1);
            if self.tag_in_set(k - 1, from, to) {
                match prev {
                    None => Some(k - 1),
                    Some(p) => if self.tags@[k - 1]@.version.spec_lt(self.tags@[p]@.version) {
                        Some(p)
                    } else {
                        Some(k - 1)
                    },
                }
            } else {
                prev
            }
        }
    }

    /// What the fold of `spec_latest_tag_in_upto` picks: a qualifying tag
    /// whose version no other qualifying tag exceeds.
    pub proof fn lemma_latest_tag_in_upto(self, from: int, to: int, k: int)
        ensures
            match self.spec_latest_tag_in_upto(from, to, k) {
                Some(t) => 0 <= t < k && self.tag_in_set(t, from, to) && forall|u: int|
                    0 <= u < k && self.tag_in_set(u, from, to)
                        ==> !self.tags@[t]@.version.spec_lt(self.tags@[u]@.version),
                None => forall|u: int| 0 <= u < k ==> !self.tag_in_set(u, from, to),
            },
        decreases k,
    {
        if k > 0 {
            self.lemma_latest_tag_in_upto(from, to, k - 1);
        }
    }

    /// The latest tag in the ancestry that lies strictly below commit
    /// `ci`: tags are searched in the two-dot range from the repository's
    /// first commit to `ci`'s first parent, so a tag targeting `ci` itself
    /// never qualifies. `None` when `ci` has no parent or no tag qualifies.
    pub open spec fn spec_latest_tag_below(self, ci: int) -> Option<int> {
        if self.commits@[ci]@.parents.len() == 0 {
            None
        } else {
            self.spec_latest_tag_in_upto(
                self.n() - 1,
                self.commits@[ci]@.parents[0],
                self.tags@.len() as int,
            )
        }
    }

    /// Finds `spec_latest_tag_below(ci)` and the target position of the
    /// found tag.
    pub(crate) fn latest_tag_below(&self, ci: usize) -> (r: Option<(Tag, usize)>)
        requires
            self.wf(),
            ci < self.commits.len(),
        ensures
            match r {
                Some((tag, ti)) => {
                    &&& self.spec_latest_tag_below(ci as int) is Some
                    &&& tag@ == self.tags@[self.spec_latest_tag_below(ci as int)->0]@
                    &&& self.idx_of(tag@.oid) == Some(ti as int)
                    &&& ti < self.commits@.len()
                },
                None => self.spec_latest_tag_below(ci as int) is None,
            },
    {
        if self.commits[ci].parents.len() == 0 {
            return None;
        }
        let parent = self.commits[ci].parents[0];
        proof {
            assert(self.wf_commit(ci as int));
            assert(self.commits@[ci as int]@.parents[0] == parent as int);
        }
        let n = self.commits.len();
        let marks_to = self.ancestry_marks(parent);
        let marks_from = self.ancestry_marks(n - 1);
        let tn = self.tags.len();
        let ghost from = n - 1 as int;
        let ghost to = parent as int;
        let mut best: Option<(usize, usize)> = None;
        let mut k: usize = 0;
        while k < tn
            invariant
                self.wf(),
                ci < n,
                parent < n,
                n == self.n(),
                n >= 1,
                tn == self.tags@.len(),
                from == n - 1,
                to == parent as int,
                marks_to@.len() == n,
                marks_from@.len() == n,
                forall|i: int| 0 <= i < n ==> marks_to@[i] == self.in_ancestry(to, i),
                forall|i: int| 0 <= i < n ==> marks_from@[i] == self.in_ancestry(from, i),
                0 <= k <= tn,
                match best {
                    None => self.spec_latest_tag_in_upto(from, to, k as int) is None,
                    Some((b, bi)) => {
                        &&& b < tn
                        &&& bi < n
                        &&& self.spec_latest_tag_in_upto(from, to, k as int) == Some(b as int)
                        &&& self.idx_of(self.tags@[b as int]@.oid) == Some(bi as int)
                    },
                },
            decreases tn - k,
        {
            let ti = self.find_oid_idx(&self.tags[k].oid);
            match ti {
                None => {
                    proof {
                        assert(self.idx_of(self.tags@[k as int]@.oid) is Some);
                        assert(false);
                    }
                },
                Some(ci2) => {
                    proof {
                        self.lemma_idx_of_from(self.tags@[k as int]@.oid, 0);
                    }
                    if marks_to[ci2] && !marks_from[ci2] {
                        best = match best {
                            None => Some((k, ci2)),
                            Some((b, bi)) => {
                                if self.tags[k].version.lt(&self.tags[b].version) {
                                    Some((b, bi))
                                } else {
                                    Some((k, ci2))
                                }
                            },
                        };
                    } else {
                        proof {
                            assert(!self.tag_in_set(k as int, from, to));
                        }
                    }
                },
            }
            k += 1;
        }
        match best {
            None => None,
            Some((b, bi)) => Some((self.tags[b].clone(), bi)),
        }
    }

    /// Locates the most recent tag strictly below the given commit, the
    /// implicit default lower bound of a range. The search walks the
    /// ancestry of the commit's first parent, so it never returns a tag
    /// whose target is the commit itself, even if such a tag exists.
    pub fn get_latest_tag_starting_from(&self, starting_point: &Oid) -> (r: Result<Tag, Error>)
        requires
            self.wf(),
        ensures
            match self.idx_of(starting_point@) {
                None => r == Result::<Tag, Error>::Err(Error::RevisionNotFound),
                Some(ci) => match self.spec_latest_tag_below(ci) {
                    None => r == Result::<Tag, Error>::Err(Error::NoTagFound),
                    Some(t) => r is Ok && r->Ok_0@ == self.tags@[t]@,
                },
            },
            r is Ok ==> r->Ok_0@.oid != starting_point@,
    {
        let ci = match self.find_oid_idx(starting_point) {
            None => {
                return Err(Error::RevisionNotFound);
            },
            Some(ci) => ci,
        };
        proof {
            self.lemma_idx_of_from(starting_point@, 0);
        }
        match self.latest_tag_below(ci) {
            None => Err(Error::NoTagFound),
            Some((tag, ti)) => {
                proof {
                    let t = self.spec_latest_tag_below(ci as int)->0;
                    let parent = self.commits@[ci as int]@.parents[0];
                    self.lemma_latest_tag_in_upto(self.n() - 1, parent, self.tags@.len() as int);
                    assert(self.tag_in_set(t, self.n() - 1, parent));
                    self.lemma_idx_of_from(tag@.oid, 0);
                    assert(self.wf_commit(ci as int));
                    assert(self.in_ancestry(self.commits@[ci as int]@.parents[0], ti as int));
                    assert(ti as int >= self.commits@[ci as int]@.parents[0]) by {
                        if (ti as int) < self.commits@[ci as int]@.parents[0] {
                            assert(!self.in_ancestry(
                                self.commits@[ci as int]@.parents[0],
                                ti as int,
                            ));
                        }
                    }
                    assert(self.commits@[ti as int]@.oid != self.commits@[ci as int]@.oid);
                }
                Ok(tag)
            },
        }
    }

    /// Whether the text is a character prefix of the hash at position `i`.
    pub open spec fn prefix_matches(self, text: Seq<char>, i: int) -> bool {
        is_prefix_of(text, self.commits@[i]@.oid)
    }

    /// First position at or after `k` whose hash starts with the text.
    pub open spec fn spec_prefix_match_from(self, text: Seq<char>, k: int) -> Option<int>
        decreases self.n() - k,
    {
        if k < 0 || k >= self.n() {
            None
        } else if self.prefix_matches(text, k) {
            Some(k)
        } else {
            self.spec_prefix_match_from(text, k + 1)
        }
    }

    /// Generic revision text resolution, short of tag names: the branch
    /// head by its symbolic name, or a hash by an unambiguous prefix.
    pub open spec fn spec_revparse_plain(self, text: Seq<char>) -> Option<int> {
        if text == "HEAD"@ {
            if self.n() > 0 {
                Some(0)
            } else {
                None
            }
        } else {
            match self.spec_prefix_match_from(text, 0) {
                None => None,
                Some(i) => if self.spec_prefix_match_from(text, i + 1) is Some {
                    None
                } else {
                    Some(i)
                },
            }
        }
    }

    /// Full revision text resolution: a tag name (dereferenced to its
    /// target), the branch head, or an unambiguous hash prefix.
    pub open spec fn spec_revparse(self, text: Seq<char>) -> Option<int> {
        match self.spec_find_tag(text, 0) {
            Some(t) => self.idx_of(self.tags@[t]@.oid),
            None => self.spec_revparse_plain(text),
        }
    }

    pub(crate) fn prefix_match_from(&self, text: &str, k0: usize) -> (r: Option<usize>)
        requires
            k0 <= self.commits@.len(),
        ensures
            match r {
                Some(i) => self.spec_prefix_match_from(text@, k0 as int) == Some(i as int) && i
                    < self.commits@.len(),
                None => self.spec_prefix_match_from(text@, k0 as int) is None,
            },
    {
        let n = self.commits.len();
        let mut k: usize = k0;
        while k < n
            invariant
                k0 <= k <= n,
                n == self.n(),
                self.spec_prefix_match_from(text@, k0 as int) == self.spec_prefix_match_from(
                    text@,
                    k as int,
                ),
            decreases n - k,
        {
            if str_is_prefix(text, self.commits[k].oid.repr.as_str()) {
                return Some(k);
            }
            k += 1;
        }
        None
    }

    /// Resolves a revision text to a position in the commit table, as
    /// `spec_revparse` describes.
    pub(crate) fn revparse_idx(&self, text: &str) -> (r: Option<usize>)
        requires
            self.wf(),
        ensures
            match r {
                Some(i) => self.spec_revparse(text@) == Some(i as int) && i < self.commits@.len(),
                None => self.spec_revparse(text@) is None,
            },
    {
        match self.resolve_tag(text) {
            Some(tag) => {
                let r = self.find_oid_idx(&tag.oid);
                proof {
                    let t = self.spec_find_tag(text@, 0)->0;
                    self.lemma_spec_find_tag(text@, 0);
                    assert(self.idx_of(self.tags@[t]@.oid) is Some);
                    assert(tag@.oid == self.tags@[t]@.oid);
                    self.lemma_idx_of_from(tag@.oid, 0);
                }
                r
            },
            None => self.revparse_plain_idx(text),
        }
    }

    /// The outcome of resolving an endpoint text: the target position and
    /// the endpoint as displayed. A tag name resolves to that tag; any
    /// other resolvable text is upgraded to a tag when some tag targets the
    /// same commit, and stays a bare hash otherwise.
    pub open spec fn spec_resolve_oid_of(self, text: Seq<char>) -> Result<(int, OidOfView), Error> {
        match self.spec_find_tag(text, 0) {
            Some(t) => match self.idx_of(self.tags@[t]@.oid) {
                Some(ci) => Ok((ci, OidOfView::Tag(self.tags@[t]@))),
                None => Err(Error::RevisionNotFound),
            },
            None => match self.spec_revparse_plain(text) {
                None => Err(Error::RevisionNotFound),
                Some(ci) => match self.spec_tag_for_commit(self.commits@[ci]@.oid, 0) {
                    Some(t) => Ok((ci, OidOfView::Tag(self.tags@[t]@))),
                    None => Ok((ci, OidOfView::Other(self.commits@[ci]@.oid))),
                },
            },
        }
    }

    pub(crate) fn resolve_oid_of_idx(&self, from: &str) -> (r: Result<(usize, OidOf), Error>)
        requires
            self.wf(),
        ensures
            match r {
                Ok((ci, ep)) => self.spec_resolve_oid_of(from@) == Ok::<(int, OidOfView), Error>(
                    (ci as int, ep@),
                ) && ci < self.commits@.len(),
                Err(e) => self.spec_resolve_oid_of(from@) == Err::<(int, OidOfView), Error>(e),
            },
    {
        match self.resolve_tag(from) {
            Some(tag) => {
                proof {
                    let t = self.spec_find_tag(from@, 0)->0;
                    self.lemma_spec_find_tag(from@, 0);
                    assert(self.idx_of(self.tags@[t]@.oid) is Some);
                    assert(tag@.oid == self.tags@[t]@.oid);
                    self.lemma_idx_of_from(tag@.oid, 0);
                }
                match self.find_oid_idx(&tag.oid) {
                    Some(ci) => Ok((ci, OidOf::Tag(tag))),
                    None => {
                        proof {
                            assert(false);
                        }
                        Err(Error::RevisionNotFound)
                    },
                }
            },
            None => {
                let ci = match self.revparse_plain_idx(from) {
                    None => {
                        return Err(Error::RevisionNotFound);
                    },
                    Some(ci) => ci,
                };
                match self.find_tag_for_commit(&self.commits[ci].oid) {
                    Some(tag) => Ok((ci, OidOf::Tag(tag))),
                    None => Ok((ci, OidOf::Other(self.commits[ci].oid.clone()))),
                }
            },
        }
    }

    pub(crate) fn revparse_plain_idx(&self, text: &str) -> (r: Option<usize>)
        requires
            self.wf(),
        ensures
            match r {
                Some(i) => self.spec_revparse_plain(text@) == Some(i as int) && i
                    < self.commits@.len(),
                None => self.spec_revparse_plain(text@) is None,
            },
    {
        let n = self.commits.len();
        if str_eq_str(text, "HEAD") {
            if n > 0 {
                Some(0)
            } else {
                None
            }
        } else {
            match self.prefix_match_from(text, 0) {
                None => None,
                Some(i) => {
                    match self.prefix_match_from(text, i + 1) {
                        Some(_) => None,
                        None => Some(i),
                    }
                },
            }
        }
    }

    /// Resolves an endpoint text as the lower bound of a range: a tag
    /// name, or any revision text, upgraded to a tag when one targets the
    /// same commit.
    pub fn resolve_oid_of(&self, from: &str) -> (r: Result<OidOf, Error>)
        requires
            self.wf(),
        ensures
            match r {
                Ok(ep) => self.spec_resolve_oid_of(from@) is Ok && ep@ == self.spec_resolve_oid_of(
                    from@,
                )->Ok_0.1,
                Err(e) => self.spec_resolve_oid_of(from@) == Err::<(int, OidOfView), Error>(e),
            },
    {
        match self.resolve_oid_of_idx(from) {
            Ok((_, ep)) => Ok(ep),
            Err(e) => Err(e),
        }
    }

    /// The implicit lower bound of a range ending at `to_idx`: the latest
    /// tag strictly below it, or, when no tag qualifies, the repository's
    /// first commit.
    pub open spec fn spec_from_default(self, to_idx: int) -> (int, OidOfView) {
        match self.spec_latest_tag_below(to_idx) {
            Some(t) => match self.idx_of(self.tags@[t]@.oid) {
                Some(ci) => (ci, OidOfView::Tag(self.tags@[t]@)),
                None => (self.n() - 1, OidOfView::Other(self.commits@[self.n() - 1]@.oid)),
            },
            None => (self.n() - 1, OidOfView::Other(self.commits@[self.n() - 1]@.oid)),
        }
    }

    /// Computes `spec_from_default(to_idx)`.
    pub(crate) fn from_default(&self, to_idx: usize) -> (r: (usize, OidOf))
        requires
            self.wf(),
            to_idx < self.commits.len(),
        ensures
            r.0 as int == self.spec_from_default(to_idx as int).0,
            r.1@ == self.spec_from_default(to_idx as int).1,
            r.0 < self.commits@.len(),
    {
        match self.latest_tag_below(to_idx) {
            Some((tag, ti)) => (ti, OidOf::Tag(tag)),
            None => {
                let last = self.commits.len() - 1;
                (last, OidOf::Other(self.commits[last].oid.clone()))
            },
        }
    }
}

} // verus!
