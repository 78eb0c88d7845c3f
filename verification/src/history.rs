//! The replicated history: an append-only store of commits, each referencing
//! a snapshot tree and its parent commits, together with the ancestry
//! resolver that classifies how two commits relate.

use vstd::prelude::*;
use crate::tree::Tree;

verus! {

/// One commit: an immutable snapshot tree plus zero or more parents.
pub struct CommitNode {
    pub tree: Tree,
    pub parents: Vec<usize>,
}

/// An append-only store of commits; a commit id is its index.
pub struct HistoryStore {
    pub commits: Vec<CommitNode>,
}

impl HistoryStore {
    /// Every commit's tree is canonical and every parent points strictly
    /// backwards, so the commits form a directed acyclic graph.
    pub open spec fn wf(&self) -> bool {
        forall|i: int|
            0 <= i < self.commits@.len() ==> (#[trigger] self.commits@[i]).tree.wf() && forall|
                k: int,
            |
                0 <= k < self.commits@[i].parents@.len() ==> #[trigger] self.commits@[i].parents@[k]
                    < i
    }

    /// Whether a commit id names a commit of this store.
    pub open spec fn has(&self, id: int) -> bool {
        0 <= id < self.commits@.len()
    }

    /// The tree of the given commit.
    pub open spec fn tree_at(&self, id: int) -> Map<Seq<u8>, Seq<u8>> {
        self.commits@[id].tree@
    }

    pub fn new() -> (s: HistoryStore)
        ensures
            s.wf(),
            s.commits@.len() == 0,
    {
        HistoryStore { commits: Vec::new() }
    }

    /// Append a commit with the given tree and parents; returns its id.
    pub fn add_commit(&mut self, tree: Tree, parents: Vec<usize>) -> (id: usize)
        requires
            old(self).wf(),
            tree.wf(),
            forall|k: int| 0 <= k < parents@.len() ==> parents@[k] < old(self).commits@.len(),
        ensures
            final(self).wf(),
            id == old(self).commits@.len(),
            final(self).commits@.len() == old(self).commits@.len() + 1,
            forall|i: int|
                0 <= i < old(self).commits@.len() ==> final(self).commits@[i] == old(
                    self,
                ).commits@[i],
            final(self).commits@[id as int].tree == tree,
            final(self).commits@[id as int].parents == parents,
    {
        let id = self.commits.len();
        self.commits.push(CommitNode { tree, parents });
        id
    }

    /// Read access to a commit's tree.
    pub fn tree_of(&self, id: usize) -> (t: &Tree)
        requires
            self.wf(),
            self.has(id as int),
        ensures
            t.wf(),
            t@ == self.tree_at(id as int),
    {
        &self.commits[id].tree
    }
}

/// Whether `anc` is an ancestor of `from` (or the same commit), following
/// parent edges backwards. The guard `p < from` keeps the recursion well
/// founded; in a well-formed store it always holds of a parent.
pub open spec fn reachable(s: &HistoryStore, anc: int, from: int) -> bool
    decreases from,
{
    anc == from || (0 <= from < s.commits@.len() && exists|k: int|
        0 <= k < s.commits@[from].parents@.len() && (#[trigger] s.commits@[from].parents@[k]) < from
            && reachable(s, anc, s.commits@[from].parents@[k] as int))
}

/// An ancestor never sits above its descendant in an append-only store.
pub proof fn lemma_reachable_le(s: &HistoryStore, anc: int, from: int)
    requires
        reachable(s, anc, from),
    ensures
        anc <= from,
    decreases from,
{
    if anc != from {
        let k = choose|k: int|
            0 <= k < s.commits@[from].parents@.len() && (#[trigger] s.commits@[from].parents@[k])
                < from && reachable(s, anc, s.commits@[from].parents@[k] as int);
        lemma_reachable_le(s, anc, s.commits@[from].parents@[k] as int);
    }
}

/// Reachability survives appending commits: the old commits are untouched.
pub proof fn lemma_reachable_extend(s1: &HistoryStore, s2: &HistoryStore, anc: int, from: int)
    requires
        s1.commits@.len() <= s2.commits@.len(),
        forall|i: int| 0 <= i < s1.commits@.len() ==> s2.commits@[i] == s1.commits@[i],
        0 <= from < s1.commits@.len(),
    ensures
        reachable(s1, anc, from) == reachable(s2, anc, from),
    decreases from,
{
    assert(s2.commits@[from] == s1.commits@[from]);
    if anc != from {
        assert forall|k: int|
            0 <= k < s1.commits@[from].parents@.len()
                && (#[trigger] s1.commits@[from].parents@[k]) < from implies reachable(
            s1,
            anc,
            s1.commits@[from].parents@[k] as int,
        ) == reachable(s2, anc, s2.commits@[from].parents@[k] as int) by {
            lemma_reachable_extend(s1, s2, anc, s1.commits@[from].parents@[k] as int);
        }
    }
}

/// The merge-base scan also survives appending commits.
pub proof fn lemma_common_ancestor_from_extend(
    s1: &HistoryStore,
    s2: &HistoryStore,
    a: int,
    b: int,
    limit: int,
)
    requires
        s1.commits@.len() <= s2.commits@.len(),
        forall|i: int| 0 <= i < s1.commits@.len() ==> s2.commits@[i] == s1.commits@[i],
        0 <= a < s1.commits@.len(),
        0 <= b < s1.commits@.len(),
        limit < s1.commits@.len(),
    ensures
        common_ancestor_from(s1, a, b, limit) == common_ancestor_from(s2, a, b, limit),
    decreases limit + 1,
{
    if limit >= 0 {
        lemma_reachable_extend(s1, s2, limit, a);
        lemma_reachable_extend(s1, s2, limit, b);
        lemma_common_ancestor_from_extend(s1, s2, a, b, limit - 1);
    }
}

/// The merge base of two existing commits survives appending commits.
pub proof fn lemma_merge_base_extend(s1: &HistoryStore, s2: &HistoryStore, a: int, b: int)
    requires
        s1.commits@.len() <= s2.commits@.len(),
        forall|i: int| 0 <= i < s1.commits@.len() ==> s2.commits@[i] == s1.commits@[i],
        0 <= a < s1.commits@.len(),
        0 <= b < s1.commits@.len(),
    ensures
        spec_merge_base(s1, a, b) == spec_merge_base(s2, a, b),
{
    lemma_common_ancestor_from_extend(s1, s2, a, b, if a <= b {
        a
    } else {
        b
    });
}

/// Decide whether `anc` is an ancestor of `from` (or equal to it).
pub fn is_ancestor(s: &HistoryStore, anc: usize, from: usize) -> (r: bool)
    requires
        s.wf(),
        s.has(anc as int),
        s.has(from as int),
    ensures
        r == reachable(s, anc as int, from as int),
    decreases from,
{
    if anc == from {
        return true;
    }
    let parents = &s.commits[from].parents;
    let mut k: usize = 0;
    while k < parents.len()
        invariant
            s.wf(),
            s.has(anc as int),
            s.has(from as int),
            parents == s.commits@[from as int].parents,
            0 <= k <= parents@.len(),
            anc != from,
            forall|j: int|
                0 <= j < k ==> !reachable(s, anc as int, #[trigger] parents@[j] as int),
        decreases parents@.len() - k,
    {
        let p = parents[k];
        proof {
            assert(p < from);
        }
        if is_ancestor(s, anc, p) {
            return true;
        }
        k = k + 1;
    }
    proof {
        assert(!reachable(s, anc as int, from as int));
    }
    false
}

/// The latest common ancestor of two commits, scanning from `limit` down.
pub open spec fn common_ancestor_from(s: &HistoryStore, a: int, b: int, limit: int) -> Option<int>
    decreases limit + 1,
{
    if limit < 0 {
        None
    } else if reachable(s, limit, a) && reachable(s, limit, b) {
        Some(limit)
    } else {
        common_ancestor_from(s, a, b, limit - 1)
    }
}

/// The merge base of two commits: their latest common ancestor, if any.
pub open spec fn spec_merge_base(s: &HistoryStore, a: int, b: int) -> Option<int> {
    common_ancestor_from(s, a, b, if a <= b {
        a
    } else {
        b
    })
}

/// What `common_ancestor_from` returns, characterized.
pub proof fn lemma_common_ancestor_from(s: &HistoryStore, a: int, b: int, limit: int)
    ensures
        match common_ancestor_from(s, a, b, limit) {
            Some(c) => 0 <= c <= limit && reachable(s, c, a) && reachable(s, c, b) && forall|d: int|
                c < d <= limit ==> !(reachable(s, d, a) && reachable(s, d, b)),
            None => forall|d: int| 0 <= d <= limit ==> !(reachable(s, d, a) && reachable(s, d, b)),
        },
    decreases limit + 1,
{
    if limit >= 0 && !(reachable(s, limit, a) && reachable(s, limit, b)) {
        lemma_common_ancestor_from(s, a, b, limit - 1);
    }
}

/// Find the merge base of two commits, if their histories share one.
pub fn merge_base(s: &HistoryStore, a: usize, b: usize) -> (r: Option<usize>)
    requires
        s.wf(),
        s.has(a as int),
        s.has(b as int),
    ensures
        match r {
            Some(c) => spec_merge_base(s, a as int, b as int) == Some(c as int) && c <= a && c <= b
                && reachable(s, c as int, a as int) && reachable(s, c as int, b as int),
            None => spec_merge_base(s, a as int, b as int) is None && forall|d: int|
                !(reachable(s, d, a as int) && reachable(s, d, b as int)),
        },
{
    let limit = if a <= b {
        a
    } else {
        b
    };
    let mut c = limit;
    loop
        invariant
            s.wf(),
            s.has(a as int),
            s.has(b as int),
            0 <= c <= limit,
            limit == if a <= b {
                a
            } else {
                b
            },
            common_ancestor_from(s, a as int, b as int, limit as int) == common_ancestor_from(
                s,
                a as int,
                b as int,
                c as int,
            ),
        decreases c,
    {
        if is_ancestor(s, c, a) && is_ancestor(s, c, b) {
            proof {
                lemma_common_ancestor_from(s, a as int, b as int, c as int);
            }
            return Some(c);
        }
        if c == 0 {
            proof {
                assert(common_ancestor_from(s, a as int, b as int, -1) is None);
                assert(common_ancestor_from(s, a as int, b as int, 0) is None);
                lemma_no_common_ancestor(s, a as int, b as int, limit as int);
            }
            return None;
        }
        c = c - 1;
    }
}

/// When the scan reaches the bottom without a hit, no common ancestor exists
/// at all: an ancestor of both would sit at or below the smaller commit.
proof fn lemma_no_common_ancestor(s: &HistoryStore, a: int, b: int, limit: int)
    requires
        0 <= a,
        0 <= b,
        limit == if a <= b {
            a
        } else {
            b
        },
        common_ancestor_from(s, a, b, limit) is None,
    ensures
        forall|d: int| !(reachable(s, d, a) && reachable(s, d, b)),
{
    lemma_common_ancestor_from(s, a, b, limit);
    assert forall|d: int| !(reachable(s, d, a) && reachable(s, d, b)) by {
        if reachable(s, d, a) && reachable(s, d, b) {
            lemma_reachable_le(s, d, a);
            lemma_reachable_le(s, d, b);
            lemma_reachable_nonneg(s, d, a);
            assert(0 <= d <= limit);
        }
    }
}

/// Everything reachable from a commit is a commit index, hence nonnegative.
proof fn lemma_reachable_nonneg(s: &HistoryStore, anc: int, from: int)
    requires
        reachable(s, anc, from),
        from >= 0,
    ensures
        anc >= 0,
    decreases from,
{
    if anc != from {
        let k = choose|k: int|
            0 <= k < s.commits@[from].parents@.len() && (#[trigger] s.commits@[from].parents@[k])
                < from && reachable(s, anc, s.commits@[from].parents@[k] as int);
        lemma_reachable_nonneg(s, anc, s.commits@[from].parents@[k] as int);
    }
}

/// How two commits relate: equal, one a strict ancestor of the other,
/// diverged from a shared base, or from unrelated histories.
#[derive(PartialEq, Eq, Structural, Debug, Clone, Copy)]
pub enum Ancestry {
    Equal,
    FastForwardLocal,
    FastForwardRemote,
    Diverged,
    Unrelated,
}

/// Classify the relation of a local and a remote commit. Fast-forward
/// classification always takes priority over merging.
pub fn classify(s: &HistoryStore, local: usize, remote: usize) -> (r: Ancestry)
    requires
        s.wf(),
        s.has(local as int),
        s.has(remote as int),
    ensures
        (r == Ancestry::Equal) == (local == remote),
        (r == Ancestry::FastForwardRemote) == (local != remote && reachable(
            s,
            local as int,
            remote as int,
        )),
        (r == Ancestry::FastForwardLocal) == (local != remote && !reachable(
            s,
            local as int,
            remote as int,
        ) && reachable(s, remote as int, local as int)),
        (r == Ancestry::Diverged) == (local != remote && !reachable(s, local as int, remote as int)
            && !reachable(s, remote as int, local as int) && spec_merge_base(
            s,
            local as int,
            remote as int,
        ) is Some),
        (r == Ancestry::Unrelated) == (local != remote && !reachable(s, local as int, remote as int)
            && !reachable(s, remote as int, local as int) && spec_merge_base(
            s,
            local as int,
            remote as int,
        ) is None),
{
    if local == remote {
        Ancestry::Equal
    } else if is_ancestor(s, local, remote) {
        Ancestry::FastForwardRemote
    } else if is_ancestor(s, remote, local) {
        Ancestry::FastForwardLocal
    } else {
        match merge_base(s, local, remote) {
            Some(_) => Ancestry::Diverged,
            None => Ancestry::Unrelated,
        }
    }
}

} // verus!
