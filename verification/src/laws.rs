//! Laws of the synchronization protocol, proved against the transition
//! relation [`sync_rel`]: idempotence, fast-forward correctness, the
//! unrelated-history union merge, item-level precedence, remote-addition
//! pass-through, and resilience to a missing remote.

use vstd::prelude::*;
use crate::engine::{Replica, SyncError, base_tree, ref_tree, step_work, sync_rel};
use crate::history::{lemma_merge_base_extend, lemma_reachable_extend, lemma_reachable_le, reachable, spec_merge_base};
use crate::merge::{conflict_at, lookup, merge_map, merged_at};
use crate::reconcile::{map_has_item, reconcile_map, spec_item_of};

verus! {

/// Resilience to a missing remote: a sync without a remote always succeeds,
/// leaves the on-disk content as it was, and leaves the local ref pointing
/// at a commit whose tree is exactly that content — creating one new commit
/// when the directory had uncommitted changes, and none otherwise.
pub proof fn lemma_sync_without_remote(
    pre: Replica,
    post: Replica,
    r: Result<(), SyncError>,
)
    requires
        pre.wf(),
        pre.store.commits@.len() < usize::MAX,
        sync_rel(pre, None, post, r),
    ensures
        r is Ok,
        post.workdir@ == pre.workdir@,
        ref_tree(&post.store, post.local_ref) == pre.workdir@,
        pre.workdir@ != ref_tree(&pre.store, pre.local_ref) ==> post.store.commits@.len()
            == pre.store.commits@.len() + 1 && post.local_ref == Some(
            pre.store.commits@.len() as usize,
        ),
        pre.workdir@ == ref_tree(&pre.store, pre.local_ref) ==> post.store.commits@.len()
            == pre.store.commits@.len() && post.local_ref == pre.local_ref,
{
    assert(step_work(pre, None) == pre.workdir@);
    if pre.workdir@ != ref_tree(&pre.store, pre.local_ref) {
        let n0 = pre.store.commits@.len() as int;
        assert(post.store.commits@[n0].tree@ == pre.workdir@);
    } else {
        match pre.local_ref {
            Some(l) => {
                assert(post.store.commits@[l as int] == pre.store.commits@[l as int]);
            },
            None => {},
        }
    }
}

/// Idempotence: running sync twice in succession with no intervening changes
/// and no remote produces identical on-disk content and does not create a
/// second commit.
pub proof fn lemma_sync_idempotent(
    pre: Replica,
    mid: Replica,
    post: Replica,
    r1: Result<(), SyncError>,
    r2: Result<(), SyncError>,
)
    requires
        pre.wf(),
        mid.wf(),
        pre.store.commits@.len() < usize::MAX,
        mid.store.commits@.len() < usize::MAX,
        sync_rel(pre, None, mid, r1),
        sync_rel(mid, None, post, r2),
    ensures
        r1 is Ok,
        r2 is Ok,
        post.workdir@ == mid.workdir@,
        post.store.commits@.len() == mid.store.commits@.len(),
        post.local_ref == mid.local_ref,
{
    lemma_sync_without_remote(pre, mid, r1);
    assert(mid.workdir@ == ref_tree(&mid.store, mid.local_ref));
    lemma_sync_without_remote(mid, post, r2);
}

/// Fast-forward correctness: when the working directory is clean and the
/// local ref is a strict ancestor of the fetched remote ref, sync advances
/// the local ref to the remote commit without creating any commit, and
/// materializes the remote tree.
pub proof fn lemma_fast_forward(
    pre: Replica,
    post: Replica,
    l: usize,
    rm: usize,
    r: Result<(), SyncError>,
)
    requires
        pre.wf(),
        pre.store.commits@.len() < usize::MAX,
        pre.local_ref == Some(l),
        pre.store.has(rm as int),
        pre.workdir@ == ref_tree(&pre.store, pre.local_ref),
        l != rm,
        reachable(&pre.store, l as int, rm as int),
        sync_rel(pre, Some(rm), post, r),
    ensures
        r is Ok,
        post.local_ref == Some(rm),
        post.store.commits@.len() == pre.store.commits@.len(),
        post.workdir@ == pre.store.tree_at(rm as int),
{
    assert(step_work(pre, Some(rm)) == pre.workdir@);
    lemma_reachable_extend(&pre.store, &post.store, l as int, rm as int);
    assert(post.store.commits@[rm as int] == pre.store.commits@[rm as int]);
}

/// Unrelated-history merge: two committed histories with no common ancestor
/// and disjoint item sets merge cleanly into one new merge commit, whose
/// parents are the two heads and whose materialized tree is the union of
/// both sides.
pub proof fn lemma_unrelated_union(
    pre: Replica,
    post: Replica,
    l: usize,
    rm: usize,
    r: Result<(), SyncError>,
)
    requires
        pre.wf(),
        pre.store.commits@.len() < usize::MAX,
        pre.local_ref == Some(l),
        pre.store.has(rm as int),
        pre.workdir@ == ref_tree(&pre.store, pre.local_ref),
        l != rm,
        !reachable(&pre.store, l as int, rm as int),
        !reachable(&pre.store, rm as int, l as int),
        spec_merge_base(&pre.store, l as int, rm as int) is None,
        forall|p: Seq<u8>, q: Seq<u8>|
            #![trigger spec_item_of(p), spec_item_of(q)]
            pre.store.tree_at(l as int).contains_key(p) && pre.store.tree_at(
                rm as int,
            ).contains_key(q) ==> spec_item_of(p) != spec_item_of(q),
        sync_rel(pre, Some(rm), post, r),
    ensures
        r is Ok,
        post.store.commits@.len() == pre.store.commits@.len() + 1,
        post.local_ref == Some(pre.store.commits@.len() as usize),
        post.store.commits@[pre.store.commits@.len() as int].parents@ == seq![l, rm],
        post.workdir@ == pre.store.tree_at(l as int).union_prefer_right(
            pre.store.tree_at(rm as int),
        ),
{
    assert(step_work(pre, Some(rm)) == pre.workdir@);
    lemma_reachable_extend(&pre.store, &post.store, l as int, rm as int);
    lemma_reachable_extend(&pre.store, &post.store, rm as int, l as int);
    lemma_merge_base_extend(&pre.store, &post.store, l as int, rm as int);
    assert(post.store.commits@[l as int] == pre.store.commits@[l as int]);
    assert(post.store.commits@[rm as int] == pre.store.commits@[rm as int]);
    let lt = pre.store.tree_at(l as int);
    let rt = pre.store.tree_at(rm as int);
    let base = Map::<Seq<u8>, Seq<u8>>::empty();
    assert(base_tree(&post.store, l as int, rm as int) == base);
    // disjoint item sets leave no path present on both sides, so no path can
    // conflict against the empty base
    assert forall|p: Seq<u8>| !conflict_at(base, lt, rt, p) by {
        reveal(conflict_at);
        if lt.contains_key(p) && rt.contains_key(p) {
            assert(pre.store.tree_at(l as int).contains_key(p));
            assert(pre.store.tree_at(rm as int).contains_key(p));
            assert(spec_item_of(p) == spec_item_of(p));
            assert(false);
        }
    }
    // merging against the empty base keeps each side's files: the union
    assert(merge_map(base, lt, rt) =~= lt.union_prefer_right(rt)) by {
        reveal(merged_at);
        assert forall|p: Seq<u8>|
            #[trigger] merge_map(base, lt, rt).contains_key(p)
                == lt.union_prefer_right(rt).contains_key(p) && (merge_map(
                base,
                lt,
                rt,
            ).contains_key(p) ==> merge_map(base, lt, rt)[p] == lt.union_prefer_right(rt)[p]) by {
            if lt.contains_key(p) && rt.contains_key(p) {
                assert(pre.store.tree_at(l as int).contains_key(p));
                assert(pre.store.tree_at(rm as int).contains_key(p));
                assert(spec_item_of(p) == spec_item_of(p));
                assert(false);
            }
        }
    }
}

/// Item-level precedence: when the fetched remote ref equals the local ref
/// and the working directory holds edits to an item, the materialized
/// content of that item after sync is exactly the local version.
pub proof fn lemma_item_precedence(
    pre: Replica,
    post: Replica,
    rm: usize,
    x: Seq<u8>,
    r: Result<(), SyncError>,
)
    requires
        pre.wf(),
        pre.store.commits@.len() < usize::MAX,
        pre.local_ref == Some(rm),
        pre.store.has(rm as int),
        map_has_item(pre.workdir@, x),
        sync_rel(pre, Some(rm), post, r),
    ensures
        r is Ok,
        forall|p: Seq<u8>|
            spec_item_of(p) == x ==> lookup(post.workdir@, p) == lookup(pre.workdir@, p),
{
    let n0 = pre.store.commits@.len() as int;
    let rt = pre.store.tree_at(rm as int);
    if pre.workdir@ == ref_tree(&pre.store, pre.local_ref) {
        // clean: nothing to reconcile or commit, the ref already agrees
        assert(step_work(pre, Some(rm)) == pre.workdir@);
        assert(post.store.commits@[rm as int] == pre.store.commits@[rm as int]);
        assert(post.workdir@ == pre.workdir@);
    } else {
        let w1 = reconcile_map(pre.workdir@, rt);
        assert(step_work(pre, Some(rm)) == w1);
        // reconciliation keeps every locally present item untouched
        assert forall|p: Seq<u8>|
            spec_item_of(p) == x implies lookup(w1, p) == lookup(pre.workdir@, p) by {
            if !pre.workdir@.contains_key(p) {
                assert(map_has_item(pre.workdir@, spec_item_of(p)));
                assert(!w1.contains_key(p));
            }
        }
        if w1 == ref_tree(&pre.store, pre.local_ref) {
            // the reconciled tree already matches the ref: no commit
            assert(post.store.commits@[rm as int] == pre.store.commits@[rm as int]);
            assert(post.workdir@ == rt);
            assert(rt == w1);
        } else {
            // a commit is created on top of the shared head, so the local
            // side is strictly ahead and wins without a merge
            assert(rm < n0);
            assert(post.store.commits@[n0].tree@ == w1);
            assert(post.store.commits@[n0].parents@ == seq![rm]);
            assert(!reachable(&post.store, n0, rm as int)) by {
                if reachable(&post.store, n0, rm as int) {
                    lemma_reachable_le(&post.store, n0, rm as int);
                }
            }
            assert(reachable(&post.store, rm as int, n0)) by {
                assert(post.store.commits@[n0].parents@[0] == rm);
                assert(reachable(&post.store, rm as int, rm as int));
            }
            assert(post.workdir@ == post.store.tree_at(n0));
        }
    }
}

/// Remote-addition pass-through: with a clean working directory and the
/// local ref at or behind the remote ref, every file the remote side has —
/// in particular a newly added item — appears unchanged after sync.
pub proof fn lemma_remote_addition(
    pre: Replica,
    post: Replica,
    l: usize,
    rm: usize,
    py: Seq<u8>,
    r: Result<(), SyncError>,
)
    requires
        pre.wf(),
        pre.store.commits@.len() < usize::MAX,
        pre.local_ref == Some(l),
        pre.store.has(rm as int),
        pre.workdir@ == ref_tree(&pre.store, pre.local_ref),
        reachable(&pre.store, l as int, rm as int),
        pre.store.tree_at(rm as int).contains_key(py),
        sync_rel(pre, Some(rm), post, r),
    ensures
        r is Ok,
        post.workdir@.contains_key(py),
        post.workdir@[py] == pre.store.tree_at(rm as int)[py],
{
    assert(step_work(pre, Some(rm)) == pre.workdir@);
    if l == rm {
        assert(post.store.commits@[l as int] == pre.store.commits@[l as int]);
    } else {
        lemma_reachable_extend(&pre.store, &post.store, l as int, rm as int);
        assert(post.store.commits@[rm as int] == pre.store.commits@[rm as int]);
    }
}

} // verus!
