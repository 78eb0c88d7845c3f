use yx::engine::{Replica, SyncError};
use yx::history::{Ancestry, HistoryStore, classify, is_ancestor, merge_base};
use yx::merge::{MergeOutcome, merge_trees};
use yx::reconcile::reconcile_trees;
use yx::text::string_of;
use yx::tree::{Tree, TreeEntry, build_tree};

fn entry(path: &str, data: &str) -> TreeEntry {
    TreeEntry { path: path.as_bytes().to_vec(), data: data.as_bytes().to_vec() }
}

fn tree(entries: Vec<TreeEntry>) -> Tree {
    build_tree(entries)
}

fn get<'a>(t: &'a Tree, path: &str) -> Option<&'a Vec<u8>> {
    t.get(&path.as_bytes().to_vec())
}

#[test]
fn test_build_tree_is_deterministic() {
    let a = tree(vec![entry("a/x", "1"), entry("b/y", "2"), entry("a/z", "3")]);
    let b = tree(vec![entry("a/z", "3"), entry("a/x", "1"), entry("b/y", "2")]);
    assert!(a.same_content(&b));
    assert_eq!(a.entries.len(), 3);
    assert_eq!(a.entries[0].path, b"a/x".to_vec());
    assert_eq!(b.entries[0].path, b"a/x".to_vec());
}

#[test]
fn test_tree_get_and_empty() {
    let t = tree(vec![entry("a/x", "1")]);
    assert_eq!(get(&t, "a/x").map(|d| d.clone()), Some(b"1".to_vec()));
    assert!(get(&t, "a/y").is_none());
    assert!(!t.is_empty());
    assert!(Tree::empty().is_empty());
    assert!(!t.same_content(&Tree::empty()));
}

#[test]
fn test_merge_takes_each_side_changes() {
    let base = tree(vec![entry("a/n", "0"), entry("b/n", "0"), entry("c/n", "0")]);
    let local = tree(vec![entry("a/n", "L"), entry("b/n", "0"), entry("c/n", "0")]);
    let remote = tree(vec![entry("a/n", "0"), entry("b/n", "R"), entry("c/n", "0")]);
    match merge_trees(&base, &local, &remote) {
        MergeOutcome::Clean(t) => {
            assert_eq!(get(&t, "a/n").unwrap(), &b"L".to_vec());
            assert_eq!(get(&t, "b/n").unwrap(), &b"R".to_vec());
            assert_eq!(get(&t, "c/n").unwrap(), &b"0".to_vec());
        },
        MergeOutcome::Conflict(_) => panic!("unexpected conflict"),
    }
}

#[test]
fn test_merge_handles_deletion() {
    let base = tree(vec![entry("a/n", "0"), entry("b/n", "0")]);
    let local = tree(vec![entry("a/n", "0")]);
    let remote = tree(vec![entry("a/n", "0"), entry("b/n", "0"), entry("c/n", "new")]);
    match merge_trees(&base, &local, &remote) {
        MergeOutcome::Clean(t) => {
            assert!(get(&t, "b/n").is_none());
            assert_eq!(get(&t, "c/n").unwrap(), &b"new".to_vec());
        },
        MergeOutcome::Conflict(_) => panic!("unexpected conflict"),
    }
}

#[test]
fn test_merge_reports_conflicts() {
    let base = tree(vec![entry("a/n", "0")]);
    let local = tree(vec![entry("a/n", "L")]);
    let remote = tree(vec![entry("a/n", "R")]);
    match merge_trees(&base, &local, &remote) {
        MergeOutcome::Clean(_) => panic!("expected a conflict"),
        MergeOutcome::Conflict(paths) => {
            assert_eq!(paths.len(), 1);
            assert_eq!(paths[0], b"a/n".to_vec());
        },
    }
}

#[test]
fn test_reconcile_local_items_win() {
    let local = tree(vec![entry("a/note", "local"), entry("b/note", "mine")]);
    let remote = tree(vec![entry("a/note", "remote"), entry("a/done", ""), entry("c/note", "new")]);
    let merged = reconcile_trees(&local, &remote);
    // the locally present item `a` keeps exactly its local files
    assert_eq!(get(&merged, "a/note").unwrap(), &b"local".to_vec());
    assert!(get(&merged, "a/done").is_none());
    // local-only and remote-only items survive unchanged
    assert_eq!(get(&merged, "b/note").unwrap(), &b"mine".to_vec());
    assert_eq!(get(&merged, "c/note").unwrap(), &b"new".to_vec());
}

#[test]
fn test_ancestry_classification() {
    let mut store = HistoryStore::new();
    let c0 = store.add_commit(tree(vec![entry("a", "0")]), vec![]);
    let c1 = store.add_commit(tree(vec![entry("a", "1")]), vec![c0]);
    let c2 = store.add_commit(tree(vec![entry("a", "2")]), vec![c0]);
    let c3 = store.add_commit(tree(vec![entry("z", "9")]), vec![]);

    assert!(is_ancestor(&store, c0, c1));
    assert!(!is_ancestor(&store, c1, c0));
    assert_eq!(classify(&store, c0, c0), Ancestry::Equal);
    assert_eq!(classify(&store, c0, c1), Ancestry::FastForwardRemote);
    assert_eq!(classify(&store, c1, c0), Ancestry::FastForwardLocal);
    assert_eq!(classify(&store, c1, c2), Ancestry::Diverged);
    assert_eq!(classify(&store, c1, c3), Ancestry::Unrelated);
    assert_eq!(merge_base(&store, c1, c2), Some(c0));
    assert_eq!(merge_base(&store, c1, c3), None);
}

#[test]
fn test_sync_without_remote_commits_once() {
    let mut rep = Replica::new();
    rep.workdir = tree(vec![entry("a/context.md", "hello")]);
    rep.sync(None).unwrap();
    assert_eq!(rep.store.commits.len(), 1);
    assert_eq!(rep.local_ref, Some(0));
    assert_eq!(get(&rep.workdir, "a/context.md").unwrap(), &b"hello".to_vec());

    // running sync again with nothing changed creates no second commit
    let before = rep.workdir.duplicate();
    rep.sync(None).unwrap();
    assert_eq!(rep.store.commits.len(), 1);
    assert_eq!(rep.local_ref, Some(0));
    assert!(rep.workdir.same_content(&before));
}

#[test]
fn test_sync_empty_replica_is_a_no_op() {
    let mut rep = Replica::new();
    rep.sync(None).unwrap();
    assert_eq!(rep.store.commits.len(), 0);
    assert_eq!(rep.local_ref, None);
    assert!(rep.workdir.is_empty());
}

#[test]
fn test_sync_fast_forwards_to_remote() {
    let mut store = HistoryStore::new();
    let c0 = store.add_commit(tree(vec![entry("a/n", "0")]), vec![]);
    let c1 = store.add_commit(tree(vec![entry("a/n", "0"), entry("y/n", "new")]), vec![c0]);
    let workdir = store.tree_of(c0).duplicate();
    let mut rep = Replica { store, local_ref: Some(c0), workdir };

    rep.sync(Some(c1)).unwrap();

    assert_eq!(rep.local_ref, Some(c1));
    assert_eq!(rep.store.commits.len(), 2);
    // the remote-added item arrives unchanged
    assert_eq!(get(&rep.workdir, "y/n").unwrap(), &b"new".to_vec());
}

#[test]
fn test_sync_keeps_local_edit_of_shared_item() {
    let mut store = HistoryStore::new();
    let c0 = store.add_commit(tree(vec![entry("x/context.md", "shared")]), vec![]);
    let workdir = tree(vec![entry("x/context.md", "edited locally")]);
    let mut rep = Replica { store, local_ref: Some(c0), workdir };

    rep.sync(Some(c0)).unwrap();

    // the local edit wins over the remote version of the same item
    assert_eq!(get(&rep.workdir, "x/context.md").unwrap(), &b"edited locally".to_vec());
    // the edit was committed on top of the shared head
    assert_eq!(rep.store.commits.len(), 2);
    assert_eq!(rep.local_ref, Some(1));
    assert_eq!(rep.store.commits[1].parents, vec![c0]);
}

#[test]
fn test_sync_pulls_remote_addition_into_dirty_workdir() {
    let mut store = HistoryStore::new();
    let c0 = store.add_commit(tree(vec![entry("a/n", "0")]), vec![]);
    let c1 = store.add_commit(tree(vec![entry("a/n", "0"), entry("y/n", "added")]), vec![c0]);
    // local is at c0 with an uncommitted edit of its own item
    let workdir = tree(vec![entry("a/n", "mine")]);
    let mut rep = Replica { store, local_ref: Some(c0), workdir };

    let r = rep.sync(Some(c1));

    // reconciliation keeps the local item and adopts the remote-only item;
    // the merge then resolves a/n in local's favor since remote left it alone
    assert!(r.is_ok());
    assert_eq!(get(&rep.workdir, "a/n").unwrap(), &b"mine".to_vec());
    assert_eq!(get(&rep.workdir, "y/n").unwrap(), &b"added".to_vec());
}

#[test]
fn test_sync_reports_conflict_between_committed_edits() {
    let mut store = HistoryStore::new();
    let c0 = store.add_commit(tree(vec![entry("f/n", "0")]), vec![]);
    let c1 = store.add_commit(tree(vec![entry("f/n", "ours")]), vec![c0]);
    let c2 = store.add_commit(tree(vec![entry("f/n", "theirs")]), vec![c0]);
    let workdir = store.tree_of(c1).duplicate();
    let mut rep = Replica { store, local_ref: Some(c1), workdir };

    let r = rep.sync(Some(c2));

    match r {
        Ok(()) => panic!("expected a conflict"),
        Err(SyncError::Conflict { paths }) => {
            assert_eq!(paths.len(), 1);
            assert_eq!(paths[0], b"f/n".to_vec());
        },
    }
    // the failed merge created no merge commit and moved no ref
    assert_eq!(rep.store.commits.len(), 3);
    assert_eq!(rep.local_ref, Some(c1));
}

#[test]
fn test_sync_merges_unrelated_histories() {
    // local has A (done) and B committed; remote has A (open) and C committed
    // with a completely unrelated history; the note of A agrees
    let mut store = HistoryStore::new();
    let local_tree = tree(vec![
        entry("a/context.md", ""),
        entry("a/done", ""),
        entry("b/context.md", ""),
    ]);
    let remote_tree = tree(vec![entry("a/context.md", ""), entry("c/context.md", "")]);
    let c_local = store.add_commit(local_tree, vec![]);
    let c_remote = store.add_commit(remote_tree, vec![]);
    let workdir = store.tree_of(c_local).duplicate();
    let mut rep = Replica { store, local_ref: Some(c_local), workdir };

    rep.sync(Some(c_remote)).unwrap();

    // exactly one new merge commit, with the two heads as parents
    assert_eq!(rep.store.commits.len(), 3);
    assert_eq!(rep.local_ref, Some(2));
    assert_eq!(rep.store.commits[2].parents, vec![c_local, c_remote]);
    // A stays done (the local version wins), B and C both survive
    assert!(get(&rep.workdir, "a/done").is_some());
    assert!(get(&rep.workdir, "a/context.md").is_some());
    assert!(get(&rep.workdir, "b/context.md").is_some());
    assert!(get(&rep.workdir, "c/context.md").is_some());
}

#[test]
fn test_sync_adopts_remote_when_no_local_history() {
    let mut store = HistoryStore::new();
    let c0 = store.add_commit(tree(vec![entry("a/n", "x")]), vec![]);
    let mut rep = Replica { store, local_ref: None, workdir: Tree::empty() };

    rep.sync(Some(c0)).unwrap();

    assert_eq!(rep.local_ref, Some(c0));
    assert_eq!(get(&rep.workdir, "a/n").unwrap(), &b"x".to_vec());
}

#[test]
fn test_string_of_builds_text() {
    assert_eq!(string_of(&vec!['y', 'a', 'k']), "yak".to_string());
    assert_eq!(string_of(&Vec::new()), String::new());
}
