//! The sync orchestrator: reconcile before commit, commit if dirty, merge at
//! history level (fast-forward wins), and materialize the final tree back
//! into the working directory.
//!
//! A `Replica` is the local side of the protocol: the commit store, the
//! durable local ref, and the working directory's snapshot. Fetching and
//! pushing are the caller's concern; `sync` is handed the fetched remote
//! commit id, already present in the store, and never touches the network.

use vstd::prelude::*;
use crate::history::{
    Ancestry, HistoryStore, classify, lemma_merge_base_extend, lemma_reachable_extend, merge_base,
    reachable, spec_merge_base,
};
use crate::merge::{MergeOutcome, conflict_at, merge_map, merge_trees};
use crate::reconcile::{reconcile_map, reconcile_trees};
use crate::tree::Tree;

verus! {

/// The tree a ref points at; a missing ref stands for the empty tree.
pub open spec fn ref_tree(s: &HistoryStore, r: Option<usize>) -> Map<Seq<u8>, Seq<u8>> {
    match r {
        Some(l) => s.tree_at(l as int),
        None => Map::empty(),
    }
}

/// A failure of the sync protocol. Conflicts are fatal by design: the
/// item-level reconciliation step is expected to pre-empt them, so one
/// surfacing here is surfaced rather than silently resolved.
#[derive(Debug)]
pub enum SyncError {
    Conflict { paths: Vec<Vec<u8>> },
}

/// The local side of the synchronization protocol.
pub struct Replica {
    pub store: HistoryStore,
    pub local_ref: Option<usize>,
    pub workdir: Tree,
}

/// The working directory after the reconcile-before-commit step: when local
/// changes are uncommitted and a remote tree was fetched, remote-only items
/// are pulled in and local items win in full.
pub open spec fn step_work(pre: Replica, remote: Option<usize>) -> Map<Seq<u8>, Seq<u8>> {
    if pre.workdir@ != ref_tree(&pre.store, pre.local_ref) && remote is Some {
        reconcile_map(pre.workdir@, pre.store.tree_at(remote->0 as int))
    } else {
        pre.workdir@
    }
}

/// Whether the commit-if-dirty step creates a commit: only when the (possibly
/// reconciled) working tree differs from the local ref's tree.
pub open spec fn step_commits(pre: Replica, remote: Option<usize>) -> bool {
    step_work(pre, remote) != ref_tree(&pre.store, pre.local_ref)
}

/// The tree merged against: the merge base's tree, or the empty tree when
/// the two histories are unrelated.
pub open spec fn base_tree(s: &HistoryStore, a: int, b: int) -> Map<Seq<u8>, Seq<u8>> {
    match spec_merge_base(s, a, b) {
        Some(c) => s.tree_at(c),
        None => Map::<Seq<u8>, Seq<u8>>::empty(),
    }
}

/// A conflict outcome reports exactly the conflicting paths.
pub open spec fn conflict_report(
    base: Map<Seq<u8>, Seq<u8>>,
    lt: Map<Seq<u8>, Seq<u8>>,
    rt: Map<Seq<u8>, Seq<u8>>,
    r: Result<(), SyncError>,
) -> bool {
    match r {
        Err(e) => match e {
            SyncError::Conflict { paths } => {
                &&& paths@.len() > 0
                &&& forall|c: int| 0 <= c < paths@.len() ==> conflict_at(base, lt, rt, paths@[c]@)
                &&& forall|p: Seq<u8>|
                    conflict_at(base, lt, rt, p) ==> exists|c: int|
                        0 <= c < paths@.len() && paths@[c]@ == p
            },
        },
        Ok(_) => false,
    }
}

/// Number of commits after the commit-if-dirty step.
pub open spec fn step_len(pre: Replica, remote: Option<usize>) -> int {
    if step_commits(pre, remote) {
        pre.store.commits@.len() as int + 1
    } else {
        pre.store.commits@.len() as int
    }
}

/// The local ref after the commit-if-dirty step.
pub open spec fn step_ref(pre: Replica, remote: Option<usize>) -> Option<usize> {
    if step_commits(pre, remote) {
        Some(pre.store.commits@.len() as usize)
    } else {
        pre.local_ref
    }
}

/// The parents of the commit the commit-if-dirty step creates.
pub open spec fn step_parents(pre: Replica) -> Seq<usize> {
    match pre.local_ref {
        Some(l) => seq![l],
        None => Seq::<usize>::empty(),
    }
}

/// The full transition relation of one `sync` call: it ties the state after
/// the call (`post`) and its result to the state before it (`pre`) and the
/// fetched remote commit. Every clause mirrors one protocol step.
pub open spec fn sync_rel(
    pre: Replica,
    remote: Option<usize>,
    post: Replica,
    r: Result<(), SyncError>,
) -> bool {
    // the store is append-only: nothing before the call changes
    &&& post.store.commits@.len() >= step_len(pre, remote)
    &&& (forall|i: int|
        0 <= i < pre.store.commits@.len() ==> post.store.commits@[i] == pre.store.commits@[i])
    // the commit-if-dirty step records exactly the reconciled working tree,
    // with the previous local ref as its only parent
    &&& (step_commits(pre, remote)
        ==> post.store.commits@[pre.store.commits@.len() as int].tree@ == step_work(pre, remote)
        && post.store.commits@[pre.store.commits@.len() as int].parents@ == step_parents(pre))
    &&& match remote {
        Some(rm) => match step_ref(pre, remote) {
            Some(l) => {
                if l == rm {
                    // already in agreement: nothing to merge
                    &&& post.store.commits@.len() == step_len(pre, remote)
                    &&& post.local_ref == Some(l)
                    &&& post.workdir@ == post.store.tree_at(l as int)
                    &&& r is Ok
                } else if reachable(&post.store, l as int, rm as int) {
                    // local is a strict ancestor: fast-forward the ref to remote
                    &&& post.store.commits@.len() == step_len(pre, remote)
                    &&& post.local_ref == Some(rm)
                    &&& post.workdir@ == post.store.tree_at(rm as int)
                    &&& r is Ok
                } else if reachable(&post.store, rm as int, l as int) {
                    // local is ahead: keep it
                    &&& post.store.commits@.len() == step_len(pre, remote)
                    &&& post.local_ref == Some(l)
                    &&& post.workdir@ == post.store.tree_at(l as int)
                    &&& r is Ok
                } else if exists|p: Seq<u8>|
                    conflict_at(
                        base_tree(&post.store, l as int, rm as int),
                        post.store.tree_at(l as int),
                        post.store.tree_at(rm as int),
                        p,
                    ) {
                    // diverged or unrelated with a true conflict: fatal, and
                    // the call aborts before materializing
                    &&& post.store.commits@.len() == step_len(pre, remote)
                    &&& post.local_ref == step_ref(pre, remote)
                    &&& post.workdir@ == step_work(pre, remote)
                    &&& conflict_report(
                        base_tree(&post.store, l as int, rm as int),
                        post.store.tree_at(l as int),
                        post.store.tree_at(rm as int),
                        r,
                    )
                } else {
                    // diverged or unrelated, merged cleanly against the merge
                    // base (or the empty tree): one new merge commit whose
                    // parents are local and remote
                    &&& post.store.commits@.len() == step_len(pre, remote) + 1
                    &&& post.store.commits@[step_len(pre, remote)].tree@ == merge_map(
                        base_tree(&post.store, l as int, rm as int),
                        post.store.tree_at(l as int),
                        post.store.tree_at(rm as int),
                    )
                    &&& post.store.commits@[step_len(pre, remote)].parents@ == seq![l, rm]
                    &&& post.local_ref == Some(step_len(pre, remote) as usize)
                    &&& post.workdir@ == merge_map(
                        base_tree(&post.store, l as int, rm as int),
                        post.store.tree_at(l as int),
                        post.store.tree_at(rm as int),
                    )
                    &&& r is Ok
                }
            },
            None => {
                // no local history: adopt the remote ref outright
                &&& post.store.commits@.len() == step_len(pre, remote)
                &&& post.local_ref == Some(rm)
                &&& post.workdir@ == post.store.tree_at(rm as int)
                &&& r is Ok
            },
        },
        None => {
            // no remote: locally durable, the ref tracks the working tree
            &&& post.store.commits@.len() == step_len(pre, remote)
            &&& post.local_ref == step_ref(pre, remote)
            &&& post.workdir@ == ref_tree(&post.store, step_ref(pre, remote))
            &&& r is Ok
        },
    }
}

impl Replica {
    /// The store is well formed, the local ref (if set) points into it, and
    /// the working tree is canonical.
    pub open spec fn wf(&self) -> bool {
        &&& self.store.wf()
        &&& match self.local_ref {
            Some(l) => self.store.has(l as int),
            None => true,
        }
        &&& self.workdir.wf()
    }

    /// A replica with no history and an empty working directory.
    pub fn new() -> (rep: Replica)
        ensures
            rep.wf(),
            rep.store.commits@.len() == 0,
            rep.local_ref is None,
            rep.workdir@ == Map::<Seq<u8>, Seq<u8>>::empty(),
    {
        Replica { store: HistoryStore::new(), local_ref: None, workdir: Tree::empty() }
    }

    /// Run one synchronization round against an already-fetched remote
    /// commit (or none). Returns `Ok` unless the history-level merge finds a
    /// true conflict; the full effect is pinned down by [`sync_rel`].
    #[verifier::rlimit(100)]
    pub fn sync(&mut self, remote: Option<usize>) -> (r: Result<(), SyncError>)
        requires
            old(self).wf(),
            match remote {
                Some(rm) => old(self).store.has(rm as int),
                None => true,
            },
        ensures
            final(self).wf(),
            sync_rel(*old(self), remote, *final(self), r),
    {
        let ghost pre = *self;
        // the tree the local ref points at (empty when there is no ref)
        let ref_t: Tree = match self.local_ref {
            Some(l) => self.store.tree_of(l).duplicate(),
            None => Tree::empty(),
        };
        proof {
            assert(ref_t@ == ref_tree(&pre.store, pre.local_ref));
        }
        // reconcile before commit: preserve local edits, pull in remote-only
        // items, so plain remote additions do not look like divergence
        let dirty0 = !self.workdir.same_content(&ref_t);
        if dirty0 {
            match remote {
                Some(rm) => {
                    let merged = reconcile_trees(&self.workdir, self.store.tree_of(rm));
                    self.workdir = merged;
                },
                None => {},
            }
        }
        proof {
            assert(self.workdir@ == step_work(pre, remote));
        }
        // commit if dirty: record the working tree with the old ref as parent
        let dirty1 = !self.workdir.same_content(&ref_t);
        proof {
            assert(dirty1 == step_commits(pre, remote));
        }
        let ghost n0 = pre.store.commits@.len() as int;
        if dirty1 {
            let mut parents: Vec<usize> = Vec::new();
            match self.local_ref {
                Some(l) => {
                    parents.push(l);
                    proof {
                        assert(parents@ =~= seq![l]);
                    }
                },
                None => {
                    proof {
                        assert(parents@ =~= Seq::<usize>::empty());
                    }
                },
            }
            let snap = self.workdir.duplicate();
            let id = self.store.add_commit(snap, parents);
            self.local_ref = Some(id);
        }
        let ghost store1 = self.store;
        let ghost l1 = self.local_ref;
        // merge at history level
        match (self.local_ref, remote) {
            (Some(l), Some(rm)) => {
                if l != rm {
                    let cls = classify(&self.store, l, rm);
                    match cls {
                        Ancestry::FastForwardRemote => {
                            self.local_ref = Some(rm);
                        },
                        Ancestry::FastForwardLocal => {},
                        Ancestry::Equal => {},
                        _ => {
                            let base_t: Tree = match merge_base(&self.store, l, rm) {
                                Some(c) => self.store.tree_of(c).duplicate(),
                                None => Tree::empty(),
                            };
                            let outcome = merge_trees(
                                &base_t,
                                self.store.tree_of(l),
                                self.store.tree_of(rm),
                            );
                            match outcome {
                                MergeOutcome::Clean(t) => {
                                    let mut parents: Vec<usize> = Vec::new();
                                    parents.push(l);
                                    parents.push(rm);
                                    proof {
                                        assert(parents@ =~= seq![l, rm]);
                                    }
                                    let id = self.store.add_commit(t, parents);
                                    self.local_ref = Some(id);
                                    proof {
                                        lemma_reachable_extend(
                                            &store1,
                                            &self.store,
                                            l as int,
                                            rm as int,
                                        );
                                        lemma_reachable_extend(
                                            &store1,
                                            &self.store,
                                            rm as int,
                                            l as int,
                                        );
                                        lemma_merge_base_extend(
                                            &store1,
                                            &self.store,
                                            l as int,
                                            rm as int,
                                        );
                                    }
                                },
                                MergeOutcome::Conflict(paths) => {
                                    let ghost ps = paths@;
                                    let result: Result<(), SyncError> = Err(
                                        SyncError::Conflict { paths },
                                    );
                                    proof {
                                        let base = base_tree(&self.store, l as int, rm as int);
                                        let lt = self.store.tree_at(l as int);
                                        let rt = self.store.tree_at(rm as int);
                                        assert(conflict_at(base, lt, rt, ps[0]@));
                                        assert(result matches Err(
                                            SyncError::Conflict { paths },
                                        ) && paths@ == ps);
                                        assert(conflict_report(base, lt, rt, result));
                                    }
                                    return result;
                                },
                            }
                        },
                    }
                }
            },
            (None, Some(rm)) => {
                self.local_ref = Some(rm);
            },
            _ => {},
        }
        // materialize: the working directory becomes the final ref's tree
        match self.local_ref {
            Some(l) => {
                let t = self.store.tree_of(l).duplicate();
                self.workdir = t;
            },
            None => {
                self.workdir = Tree::empty();
            },
        }
        Ok(())
    }
}


} // verus!
