//! Item-level reconciliation: a last-write-wins policy applied per whole
//! item rather than per file.
//!
//! An item is the top-level directory of a path — everything up to the first
//! separator. Reconciling a local snapshot against a remote tree keeps, for
//! every item present locally, exactly the local subtree, and adopts remote
//! files only for items that do not exist locally.

use vstd::prelude::*;
use crate::tree::{
    Tree, TreeEntry, bytes_eq, copy_bytes, distinct_paths, entries_map, lemma_entries_map_domain,
    lemma_entries_map_index, lemma_sorted_implies_distinct,
};

verus! {

/// The path separator inside snapshot paths.
pub const SEPARATOR: u8 = 47;

/// Index of the first separator in a path, or the path's length if none.
pub open spec fn first_sep(p: Seq<u8>) -> int
    decreases p.len(),
{
    if p.len() == 0 {
        0
    } else if p[0] == SEPARATOR {
        0
    } else {
        1 + first_sep(p.drop_first())
    }
}

/// The item a path belongs to: its leading segment up to the first separator.
pub open spec fn spec_item_of(p: Seq<u8>) -> Seq<u8> {
    p.take(first_sep(p))
}

/// `first_sep` points at the first separator, or past the end if none.
pub proof fn lemma_first_sep(p: Seq<u8>)
    ensures
        0 <= first_sep(p) <= p.len(),
        first_sep(p) < p.len() ==> p[first_sep(p)] == SEPARATOR,
        forall|j: int| 0 <= j < first_sep(p) ==> p[j] != SEPARATOR,
    decreases p.len(),
{
    if p.len() > 0 && p[0] != SEPARATOR {
        lemma_first_sep(p.drop_first());
        assert(forall|j: int| 0 <= j < first_sep(p.drop_first()) ==> p.drop_first()[j] != SEPARATOR);
        assert forall|j: int| 0 <= j < first_sep(p) implies p[j] != SEPARATOR by {
            if j > 0 {
                assert(p.drop_first()[j - 1] != SEPARATOR);
            }
        }
    }
}

/// Any position with no separator before it and a separator (or the end) at
/// it is `first_sep`.
pub proof fn lemma_first_sep_at(p: Seq<u8>, k: int)
    requires
        0 <= k <= p.len(),
        forall|j: int| 0 <= j < k ==> p[j] != SEPARATOR,
        k < p.len() ==> p[k] == SEPARATOR,
    ensures
        first_sep(p) == k,
    decreases p.len(),
{
    if p.len() > 0 && p[0] != SEPARATOR {
        assert(k > 0);
        assert forall|j: int| 0 <= j < k - 1 implies p.drop_first()[j] != SEPARATOR by {
            assert(p[j + 1] != SEPARATOR);
        }
        lemma_first_sep_at(p.drop_first(), k - 1);
    }
}

/// Extract the item (leading segment) of a path.
pub fn item_of(p: &Vec<u8>) -> (r: Vec<u8>)
    ensures
        r@ == spec_item_of(p@),
{
    proof {
        lemma_first_sep(p@);
    }
    let mut i: usize = 0;
    while i < p.len() && p[i] != SEPARATOR
        invariant
            0 <= i <= p@.len(),
            forall|j: int| 0 <= j < i ==> p@[j] != SEPARATOR,
        decreases p@.len() - i,
    {
        i = i + 1;
    }
    proof {
        lemma_first_sep_at(p@, i as int);
    }
    let mut out: Vec<u8> = Vec::new();
    let mut j: usize = 0;
    while j < i
        invariant
            0 <= j <= i <= p@.len(),
            out@ =~= p@.take(j as int),
        decreases i - j,
    {
        out.push(p[j]);
        j = j + 1;
    }
    proof {
        assert(out@ =~= p@.take(i as int));
    }
    out
}

/// Whether some path of the map belongs to the given item.
pub open spec fn map_has_item(m: Map<Seq<u8>, Seq<u8>>, item: Seq<u8>) -> bool {
    exists|p: Seq<u8>| m.contains_key(p) && spec_item_of(p) == item
}

/// Whether the tree holds any file under the given item.
pub fn tree_has_item(t: &Tree, item: &Vec<u8>) -> (r: bool)
    requires
        t.wf(),
    ensures
        r == map_has_item(t@, item@),
{
    proof {
        lemma_sorted_implies_distinct(t.entries@);
    }
    let mut i: usize = 0;
    while i < t.entries.len()
        invariant
            0 <= i <= t.entries@.len(),
            distinct_paths(t.entries@),
            t.wf(),
            forall|j: int| 0 <= j < i ==> spec_item_of(t.entries@[j].path@) != item@,
        decreases t.entries@.len() - i,
    {
        let candidate = item_of(&t.entries[i].path);
        if bytes_eq(&candidate, item) {
            proof {
                lemma_entries_map_index(t.entries@, i as int);
            }
            return true;
        }
        i = i + 1;
    }
    proof {
        if map_has_item(t@, item@) {
            let p = choose|p: Seq<u8>| t@.contains_key(p) && spec_item_of(p) == item@;
            lemma_entries_map_domain(t.entries@, p);
            let j = choose|j: int| 0 <= j < t.entries@.len() && t.entries@[j].path@ == p;
            assert(spec_item_of(t.entries@[j].path@) == item@);
        }
    }
    false
}

/// The reconciled content: every locally present file wins in full, and a
/// remote file is adopted only when its whole item is absent locally.
pub open spec fn reconcile_map(
    local: Map<Seq<u8>, Seq<u8>>,
    remote: Map<Seq<u8>, Seq<u8>>,
) -> Map<Seq<u8>, Seq<u8>> {
    Map::new(
        |p: Seq<u8>|
            local.contains_key(p) || (remote.contains_key(p) && !map_has_item(
                local,
                spec_item_of(p),
            )),
        |p: Seq<u8>|
            if local.contains_key(p) {
                local[p]
            } else {
                remote[p]
            },
    )
}

/// Merge a remote tree into the local snapshot at item granularity: local
/// items win in full; items that exist only remotely are adopted unchanged.
#[verifier::rlimit(60)]
pub fn reconcile_trees(local: &Tree, remote: &Tree) -> (t: Tree)
    requires
        local.wf(),
        remote.wf(),
    ensures
        t.wf(),
        t@ == reconcile_map(local@, remote@),
{
    proof {
        lemma_sorted_implies_distinct(local.entries@);
        lemma_sorted_implies_distinct(remote.entries@);
    }
    let mut list: Vec<TreeEntry> = Vec::new();
    let mut i: usize = 0;
    while i < local.entries.len()
        invariant
            0 <= i <= local.entries@.len(),
            list@.len() == i,
            forall|j: int|
                0 <= j < i ==> list@[j].path@ == local.entries@[j].path@ && list@[j].data@
                    == local.entries@[j].data@,
        decreases local.entries@.len() - i,
    {
        let e = TreeEntry {
            path: copy_bytes(&local.entries[i].path),
            data: copy_bytes(&local.entries[i].data),
        };
        list.push(e);
        i = i + 1;
    }
    let ghost nl = local.entries@.len() as int;
    let mut k: usize = 0;
    while k < remote.entries.len()
        invariant
            0 <= k <= remote.entries@.len(),
            local.wf(),
            remote.wf(),
            distinct_paths(local.entries@),
            distinct_paths(remote.entries@),
            nl == local.entries@.len(),
            list@.len() >= nl,
            forall|j: int|
                0 <= j < nl ==> list@[j].path@ == local.entries@[j].path@ && list@[j].data@
                    == local.entries@[j].data@,
            // entries past the local prefix are exactly the adopted remote files
            forall|j: int|
                nl <= j < list@.len() ==> remote@.contains_key(#[trigger] list@[j].path@)
                    && list@[j].data@ == remote@[list@[j].path@] && !map_has_item(
                    local@,
                    spec_item_of(list@[j].path@),
                ),
            // every remote file examined so far was adopted unless its item is local
            forall|j: int|
                0 <= j < k && !map_has_item(local@, spec_item_of(#[trigger] remote.entries@[j].path@))
                    ==> exists|m: int|
                    nl <= m < list@.len() && list@[m].path@ == remote.entries@[j].path@,
            // adopted paths come from the first k remote entries, in order, so
            // they are distinct
            forall|m1: int, m2: int|
                nl <= m1 < m2 < list@.len() ==> #[trigger] list@[m1].path@ != #[trigger] list@[m2].path@,
            forall|m: int|
                nl <= m < list@.len() ==> exists|j: int|
                    0 <= j < k && remote.entries@[j].path@ == #[trigger] list@[m].path@,
        decreases remote.entries@.len() - k,
    {
        let item = item_of(&remote.entries[k].path);
        let ghost pre_list = list@;
        if !tree_has_item(local, &item) {
            let e = TreeEntry {
                path: copy_bytes(&remote.entries[k].path),
                data: copy_bytes(&remote.entries[k].data),
            };
            proof {
                lemma_entries_map_index(remote.entries@, k as int);
            }
            list.push(e);
            proof {
                let last = list@.len() - 1;
                assert(list@[last].path@ == remote.entries@[k as int].path@);
                assert(forall|j: int| 0 <= j < last ==> list@[j] == pre_list[j]);
                assert forall|m1: int, m2: int|
                    nl <= m1 < m2 < list@.len() implies #[trigger] list@[m1].path@
                    != #[trigger] list@[m2].path@ by {
                    if m2 == last {
                        let j = choose|j: int|
                            0 <= j < k && remote.entries@[j].path@ == pre_list[m1].path@;
                        assert(remote.entries@[j].path@ != remote.entries@[k as int].path@);
                    }
                }
                assert forall|j: int|
                    0 <= j < k + 1 && !map_has_item(
                        local@,
                        spec_item_of(#[trigger] remote.entries@[j].path@),
                    ) implies exists|m: int|
                    nl <= m < list@.len() && list@[m].path@ == remote.entries@[j].path@ by {
                    if j == k {
                        assert(list@[last].path@ == remote.entries@[j].path@);
                    } else {
                        let m = choose|m: int|
                            nl <= m < pre_list.len() && pre_list[m].path@
                                == remote.entries@[j].path@;
                        assert(list@[m].path@ == remote.entries@[j].path@);
                    }
                }
            }
        }
        k = k + 1;
    }
    proof {
        // all collected paths are distinct
        assert forall|a: int, b: int| 0 <= a < b < list@.len() implies list@[a].path@
            != list@[b].path@ by {
            if b < nl {
                assert(local.entries@[a].path@ != local.entries@[b].path@);
            } else if a < nl {
                // a local path's own item is an item of the local map
                lemma_entries_map_index(local.entries@, a);
                assert(local@.contains_key(local.entries@[a].path@));
                if list@[a].path@ == list@[b].path@ {
                    assert(map_has_item(local@, spec_item_of(list@[b].path@)));
                }
            }
        }
        assert(distinct_paths(list@));
        let target = reconcile_map(local@, remote@);
        assert forall|p: Seq<u8>| #[trigger] entries_map(list@).contains_key(p) implies target.contains_key(p)
            && entries_map(list@)[p] == target[p] by {
            lemma_entries_map_domain(list@, p);
            let j = choose|j: int| 0 <= j < list@.len() && list@[j].path@ == p;
            lemma_entries_map_index(list@, j);
            if j < nl {
                lemma_entries_map_index(local.entries@, j);
            } else {
                if local@.contains_key(p) {
                    lemma_entries_map_domain(local.entries@, p);
                    let a = choose|a: int|
                        0 <= a < local.entries@.len() && local.entries@[a].path@ == p;
                    lemma_entries_map_index(local.entries@, a);
                    assert(map_has_item(local@, spec_item_of(p)));
                }
            }
        }
        assert forall|p: Seq<u8>| #[trigger] target.contains_key(p) implies entries_map(
            list@,
        ).contains_key(p) by {
            if local@.contains_key(p) {
                lemma_entries_map_domain(local.entries@, p);
                let a = choose|a: int| 0 <= a < local.entries@.len() && local.entries@[a].path@ == p;
                assert(list@[a].path@ == p);
                lemma_entries_map_domain(list@, p);
            } else {
                lemma_entries_map_domain(remote.entries@, p);
                let j = choose|j: int|
                    0 <= j < remote.entries@.len() && remote.entries@[j].path@ == p;
                assert(!map_has_item(local@, spec_item_of(remote.entries@[j].path@)));
                let m = choose|m: int|
                    nl <= m < list@.len() && list@[m].path@ == remote.entries@[j].path@;
                lemma_entries_map_domain(list@, p);
            }
        }
        assert(entries_map(list@) =~= target);
    }
    crate::tree::build_tree(list)
}

} // verus!
