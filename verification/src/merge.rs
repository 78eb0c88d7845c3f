//! Structural three-way merge of snapshot trees.
//!
//! For every path, the base, local and remote versions are compared:
//! unchanged in both sides keeps the base; changed on one side takes that
//! side; changed differently on both sides is a conflict. Conflicts are
//! reported as the set of conflicting paths — the merger never guesses.

use vstd::prelude::*;
use crate::tree::{
    Tree, TreeEntry, bytes_eq, copy_bytes, distinct_paths, entries_map, lemma_entries_map_domain,
    lemma_entries_map_index, lemma_sorted_implies_distinct,
};

verus! {

/// The contents a map holds at a path, if any.
pub open spec fn lookup(m: Map<Seq<u8>, Seq<u8>>, p: Seq<u8>) -> Option<Seq<u8>> {
    if m.contains_key(p) {
        Some(m[p])
    } else {
        None
    }
}

/// A path conflicts when both sides changed it away from the base, and
/// differently from each other.
#[verifier::opaque]
pub open spec fn conflict_at(
    base: Map<Seq<u8>, Seq<u8>>,
    local: Map<Seq<u8>, Seq<u8>>,
    remote: Map<Seq<u8>, Seq<u8>>,
    p: Seq<u8>,
) -> bool {
    let b = lookup(base, p);
    let lv = lookup(local, p);
    let rv = lookup(remote, p);
    lv != rv && lv != b && rv != b
}

/// The merged contents at one path: agreement wins, otherwise the side that
/// changed away from the base wins. (At a conflicting path this formula is
/// not meaningful; a conflict-free merge never consults it there.)
#[verifier::opaque]
pub open spec fn merged_at(
    base: Map<Seq<u8>, Seq<u8>>,
    local: Map<Seq<u8>, Seq<u8>>,
    remote: Map<Seq<u8>, Seq<u8>>,
    p: Seq<u8>,
) -> Option<Seq<u8>> {
    let b = lookup(base, p);
    let lv = lookup(local, p);
    let rv = lookup(remote, p);
    if lv == rv {
        lv
    } else if lv == b {
        rv
    } else {
        lv
    }
}

/// The clean three-way merge of three trees, as a map.
pub open spec fn merge_map(
    base: Map<Seq<u8>, Seq<u8>>,
    local: Map<Seq<u8>, Seq<u8>>,
    remote: Map<Seq<u8>, Seq<u8>>,
) -> Map<Seq<u8>, Seq<u8>> {
    Map::new(
        |p: Seq<u8>| merged_at(base, local, remote, p) is Some,
        |p: Seq<u8>| merged_at(base, local, remote, p)->Some_0,
    )
}

/// Result of a structural merge: a clean merged tree, or the non-empty set
/// of conflicting paths.
pub enum MergeOutcome {
    Clean(Tree),
    Conflict(Vec<Vec<u8>>),
}

/// Decide whether one path conflicts between the three trees.
fn is_conflict_at(base: &Tree, local: &Tree, remote: &Tree, p: &Vec<u8>) -> (r: bool)
    requires
        base.wf(),
        local.wf(),
        remote.wf(),
    ensures
        r == conflict_at(base@, local@, remote@, p@),
{
    proof {
        reveal(conflict_at);
    }
    let bv = base.get(p);
    let lv = local.get(p);
    let rv = remote.get(p);
    let l_ne_r = match (lv, rv) {
        (Some(a), Some(b)) => !bytes_eq(a, b),
        (None, None) => false,
        _ => true,
    };
    let l_ne_b = match (lv, bv) {
        (Some(a), Some(b)) => !bytes_eq(a, b),
        (None, None) => false,
        _ => true,
    };
    let r_ne_b = match (rv, bv) {
        (Some(a), Some(b)) => !bytes_eq(a, b),
        (None, None) => false,
        _ => true,
    };
    l_ne_r && l_ne_b && r_ne_b
}

/// Compute the merged contents at one path, if the merge keeps the path.
fn merged_value_at(base: &Tree, local: &Tree, remote: &Tree, p: &Vec<u8>) -> (r: Option<Vec<u8>>)
    requires
        base.wf(),
        local.wf(),
        remote.wf(),
    ensures
        match r {
            Some(d) => merged_at(base@, local@, remote@, p@) == Some(d@),
            None => merged_at(base@, local@, remote@, p@) is None,
        },
{
    proof {
        reveal(merged_at);
    }
    let bv = base.get(p);
    let lv = local.get(p);
    let rv = remote.get(p);
    let l_eq_r = match (lv, rv) {
        (Some(a), Some(b)) => bytes_eq(a, b),
        (None, None) => true,
        _ => false,
    };
    let l_eq_b = match (lv, bv) {
        (Some(a), Some(b)) => bytes_eq(a, b),
        (None, None) => true,
        _ => false,
    };
    if l_eq_r {
        match lv {
            Some(d) => Some(copy_bytes(d)),
            None => None,
        }
    } else if l_eq_b {
        match rv {
            Some(d) => Some(copy_bytes(d)),
            None => None,
        }
    } else {
        match lv {
            Some(d) => Some(copy_bytes(d)),
            None => None,
        }
    }
}

/// Collect every path of either tree, each exactly once.
fn union_paths(local: &Tree, remote: &Tree) -> (ps: Vec<Vec<u8>>)
    requires
        local.wf(),
        remote.wf(),
    ensures
        forall|j1: int, j2: int| 0 <= j1 < j2 < ps@.len() ==> ps@[j1]@ != ps@[j2]@,
        forall|j: int|
            0 <= j < ps@.len() ==> local@.contains_key(#[trigger] ps@[j]@) || remote@.contains_key(
                ps@[j]@,
            ),
        forall|p: Seq<u8>|
            local@.contains_key(p) || remote@.contains_key(p) ==> exists|j: int|
                0 <= j < ps@.len() && ps@[j]@ == p,
{
    proof {
        lemma_sorted_implies_distinct(local.entries@);
        lemma_sorted_implies_distinct(remote.entries@);
    }
    let mut ps: Vec<Vec<u8>> = Vec::new();
    let mut i: usize = 0;
    while i < local.entries.len()
        invariant
            0 <= i <= local.entries@.len(),
            local.wf(),
            distinct_paths(local.entries@),
            ps@.len() == i,
            forall|j: int| 0 <= j < i ==> ps@[j]@ == local.entries@[j].path@,
        decreases local.entries@.len() - i,
    {
        ps.push(copy_bytes(&local.entries[i].path));
        i = i + 1;
    }
    let ghost nl = ps@.len() as int;
    proof {
        assert forall|j: int| 0 <= j < nl implies local@.contains_key(#[trigger] ps@[j]@) by {
            lemma_entries_map_index(local.entries@, j);
        }
    }
    let mut k: usize = 0;
    while k < remote.entries.len()
        invariant
            0 <= k <= remote.entries@.len(),
            local.wf(),
            remote.wf(),
            distinct_paths(remote.entries@),
            nl <= ps@.len(),
            forall|j: int| 0 <= j < nl ==> ps@[j]@ == local.entries@[j].path@,
            nl == local.entries@.len(),
            forall|j: int| 0 <= j < nl ==> local@.contains_key(#[trigger] ps@[j]@),
            forall|j: int|
                nl <= j < ps@.len() ==> !local@.contains_key(#[trigger] ps@[j]@)
                    && remote@.contains_key(ps@[j]@),
            forall|j: int|
                nl <= j < ps@.len() ==> exists|a: int|
                    0 <= a < k && remote.entries@[a].path@ == #[trigger] ps@[j]@,
            forall|j1: int, j2: int| nl <= j1 < j2 < ps@.len() ==> ps@[j1]@ != ps@[j2]@,
            forall|a: int|
                0 <= a < k && !local@.contains_key(#[trigger] remote.entries@[a].path@)
                    ==> exists|j: int|
                    nl <= j < ps@.len() && ps@[j]@ == remote.entries@[a].path@,
        decreases remote.entries@.len() - k,
    {
        let p = &remote.entries[k].path;
        let ghost pre = ps@;
        if local.get(p).is_none() {
            proof {
                lemma_entries_map_index(remote.entries@, k as int);
            }
            ps.push(copy_bytes(p));
            proof {
                assert forall|j: int|
                    nl <= j < ps@.len() implies exists|a: int|
                    0 <= a < k + 1 && remote.entries@[a].path@ == #[trigger] ps@[j]@ by {
                    if j < pre.len() {
                        let a = choose|a: int|
                            0 <= a < k && remote.entries@[a].path@ == pre[j]@;
                        assert(remote.entries@[a].path@ == ps@[j]@);
                    } else {
                        assert(remote.entries@[k as int].path@ == ps@[j]@);
                    }
                }
                assert forall|j1: int, j2: int| nl <= j1 < j2 < ps@.len() implies ps@[j1]@
                    != ps@[j2]@ by {
                    if j2 == ps@.len() - 1 {
                        let a = choose|a: int|
                            0 <= a < k && remote.entries@[a].path@ == pre[j1]@;
                        assert(remote.entries@[a].path@ != remote.entries@[k as int].path@);
                    }
                }
            }
        }
        proof {
            assert forall|a: int|
                0 <= a < k + 1 && !local@.contains_key(#[trigger] remote.entries@[a].path@)
                    implies exists|j: int|
                nl <= j < ps@.len() && ps@[j]@ == remote.entries@[a].path@ by {
                if a < k {
                    let j = choose|j: int|
                        nl <= j < pre.len() && pre[j]@ == remote.entries@[a].path@;
                    assert(ps@[j]@ == remote.entries@[a].path@);
                } else {
                    assert(ps@[ps@.len() - 1]@ == remote.entries@[a].path@);
                }
            }
        }
        k = k + 1;
    }
    proof {
        // distinctness: the first block lists distinct local paths, the rest
        // distinct remote paths absent from the local map
        assert forall|j1: int, j2: int| 0 <= j1 < j2 < ps@.len() implies ps@[j1]@ != ps@[j2]@ by {
            if j2 < nl {
                assert(local.entries@[j1].path@ != local.entries@[j2].path@);
            }
        }
        // coverage
        assert forall|p: Seq<u8>|
            local@.contains_key(p) || remote@.contains_key(p) implies exists|j: int|
            0 <= j < ps@.len() && ps@[j]@ == p by {
            if local@.contains_key(p) {
                lemma_entries_map_domain(local.entries@, p);
                let a = choose|a: int|
                    0 <= a < local.entries@.len() && local.entries@[a].path@ == p;
                assert(ps@[a]@ == p);
            } else {
                lemma_entries_map_domain(remote.entries@, p);
                let a = choose|a: int|
                    0 <= a < remote.entries@.len() && remote.entries@[a].path@ == p;
                let j = choose|j: int| nl <= j < ps@.len() && ps@[j]@ == remote.entries@[a].path@;
                assert(ps@[j]@ == p);
            }
        }
    }
    ps
}

/// Three-way merge of `local` and `remote` against `base`.
///
/// Returns the merged tree exactly when no path conflicts; otherwise returns
/// exactly the conflicting paths, without guessing a resolution.
#[verifier::rlimit(100)]
pub fn merge_trees(base: &Tree, local: &Tree, remote: &Tree) -> (r: MergeOutcome)
    requires
        base.wf(),
        local.wf(),
        remote.wf(),
    ensures
        match r {
            MergeOutcome::Clean(t) => {
                &&& forall|p: Seq<u8>| !conflict_at(base@, local@, remote@, p)
                &&& t.wf()
                &&& t@ == merge_map(base@, local@, remote@)
            },
            MergeOutcome::Conflict(ps) => {
                &&& ps@.len() > 0
                &&& forall|c: int|
                    0 <= c < ps@.len() ==> conflict_at(base@, local@, remote@, ps@[c]@)
                &&& forall|p: Seq<u8>|
                    conflict_at(base@, local@, remote@, p) ==> exists|c: int|
                        0 <= c < ps@.len() && ps@[c]@ == p
            },
        },
{
    let cands = union_paths(local, remote);
    let mut out: Vec<TreeEntry> = Vec::new();
    let mut conflicts: Vec<Vec<u8>> = Vec::new();
    merge_candidates(base, local, remote, &cands, &mut out, &mut conflicts);
    let ghost bm = base@;
    let ghost lm = local@;
    let ghost rm = remote@;
    proof {
        reveal(conflict_at);
        reveal(merged_at);
        // a path in neither tree can neither conflict nor appear in the merge
        assert(forall|p: Seq<u8>|
            conflict_at(bm, lm, rm, p) || merged_at(bm, lm, rm, p) is Some ==> lm.contains_key(p)
                || rm.contains_key(p));
    }
    if conflicts.len() > 0 {
        proof {
            assert forall|p: Seq<u8>| conflict_at(bm, lm, rm, p) implies exists|c: int|
                0 <= c < conflicts@.len() && conflicts@[c]@ == p by {
                assert(local@.contains_key(p) || remote@.contains_key(p));
                assert(exists|j: int| 0 <= j < cands@.len() && cands@[j]@ == p);
                let a = choose|a: int| 0 <= a < cands@.len() && cands@[a]@ == p;
                assert(conflict_at(bm, lm, rm, cands@[a]@));
            }
        }
        return MergeOutcome::Conflict(conflicts);
    }
    proof {
        assert forall|p: Seq<u8>| !conflict_at(bm, lm, rm, p) by {
            if conflict_at(bm, lm, rm, p) {
                assert(local@.contains_key(p) || remote@.contains_key(p));
                assert(exists|j: int| 0 <= j < cands@.len() && cands@[j]@ == p);
                let a = choose|a: int| 0 <= a < cands@.len() && cands@[a]@ == p;
                assert(conflict_at(bm, lm, rm, cands@[a]@));
            }
        }
        let target = merge_map(bm, lm, rm);
        assert forall|p: Seq<u8>| #[trigger] entries_map(out@).contains_key(p) implies target.contains_key(
            p,
        ) && entries_map(out@)[p] == target[p] by {
            lemma_entries_map_domain(out@, p);
            let j = choose|j: int| 0 <= j < out@.len() && out@[j].path@ == p;
            lemma_entries_map_index(out@, j);
        }
        assert forall|p: Seq<u8>| #[trigger] target.contains_key(p) implies entries_map(
            out@,
        ).contains_key(p) by {
            assert(merged_at(bm, lm, rm, p) is Some);
            assert(local@.contains_key(p) || remote@.contains_key(p));
            assert(exists|j: int| 0 <= j < cands@.len() && cands@[j]@ == p);
            let a = choose|a: int| 0 <= a < cands@.len() && cands@[a]@ == p;
            assert(!conflict_at(bm, lm, rm, cands@[a]@));
            let m = choose|m: int| 0 <= m < out@.len() && out@[m].path@ == p;
            lemma_entries_map_domain(out@, p);
        }
        assert(entries_map(out@) =~= target);
    }
    MergeOutcome::Clean(crate::tree::build_tree(out))
}

/// Walk the candidate paths once, deciding each: conflicting paths are
/// collected, merged paths keep their merged contents.
#[verifier::rlimit(60)]
fn merge_candidates(
    base: &Tree,
    local: &Tree,
    remote: &Tree,
    cands: &Vec<Vec<u8>>,
    out: &mut Vec<TreeEntry>,
    conflicts: &mut Vec<Vec<u8>>,
)
    requires
        base.wf(),
        local.wf(),
        remote.wf(),
        old(out)@.len() == 0,
        old(conflicts)@.len() == 0,
        forall|j1: int, j2: int| 0 <= j1 < j2 < cands@.len() ==> cands@[j1]@ != cands@[j2]@,
    ensures
        forall|j: int|
            0 <= j < final(out)@.len() ==> merged_at(
                base@,
                local@,
                remote@,
                #[trigger] final(out)@[j].path@,
            ) == Some(final(out)@[j].data@),
        distinct_paths(final(out)@),
        forall|a: int|
            0 <= a < cands@.len() && !conflict_at(base@, local@, remote@, #[trigger] cands@[a]@)
                && merged_at(base@, local@, remote@, cands@[a]@) is Some ==> exists|m: int|
                0 <= m < final(out)@.len() && final(out)@[m].path@ == cands@[a]@,
        forall|c: int|
            0 <= c < final(conflicts)@.len() ==> conflict_at(
                base@,
                local@,
                remote@,
                #[trigger] final(conflicts)@[c]@,
            ),
        forall|a: int|
            0 <= a < cands@.len() && conflict_at(base@, local@, remote@, #[trigger] cands@[a]@)
                ==> exists|c: int|
                0 <= c < final(conflicts)@.len() && final(conflicts)@[c]@ == cands@[a]@,
{
    let ghost bm = base@;
    let ghost lm = local@;
    let ghost rm = remote@;
    // ghost bookkeeping: for each merged entry its candidate index, and for
    // each candidate the index of its merged entry or conflict record (or -1)
    let ghost mut osrc: Seq<int> = Seq::empty();
    let ghost mut ocov: Seq<int> = Seq::empty();
    let ghost mut ccov: Seq<int> = Seq::empty();
    let mut i: usize = 0;
    while i < cands.len()
        invariant
            0 <= i <= cands@.len(),
            base.wf(),
            local.wf(),
            remote.wf(),
            bm == base@ && lm == local@ && rm == remote@,
            forall|j1: int, j2: int| 0 <= j1 < j2 < cands@.len() ==> cands@[j1]@ != cands@[j2]@,
            osrc.len() == out@.len(),
            ocov.len() == i,
            ccov.len() == i,
            forall|j: int|
                0 <= j < out@.len() ==> 0 <= #[trigger] osrc[j] < i && cands@[osrc[j]]@
                    == out@[j].path@,
            forall|j1: int, j2: int| 0 <= j1 < j2 < out@.len() ==> osrc[j1] < osrc[j2],
            forall|j: int|
                0 <= j < out@.len() ==> merged_at(bm, lm, rm, #[trigger] out@[j].path@) == Some(
                    out@[j].data@,
                ),
            forall|a: int|
                0 <= a < i ==> #[trigger] ocov[a] == -1 || (0 <= ocov[a] < out@.len()
                    && out@[ocov[a]].path@ == cands@[a]@),
            forall|a: int|
                0 <= a < i && !conflict_at(bm, lm, rm, cands@[a]@) && merged_at(
                    bm,
                    lm,
                    rm,
                    cands@[a]@,
                ) is Some ==> #[trigger] ocov[a] >= 0,
            forall|a: int|
                0 <= a < i ==> #[trigger] ccov[a] == -1 || (0 <= ccov[a] < conflicts@.len()
                    && conflicts@[ccov[a]]@ == cands@[a]@),
            forall|a: int|
                0 <= a < i && conflict_at(bm, lm, rm, cands@[a]@) ==> #[trigger] ccov[a] >= 0,
            forall|c: int|
                0 <= c < conflicts@.len() ==> conflict_at(bm, lm, rm, #[trigger] conflicts@[c]@),
        decreases cands@.len() - i,
    {
        let p = &cands[i];
        let ghost pre_out = out@;
        let ghost pre_conf = conflicts@;
        if is_conflict_at(base, local, remote, p) {
            conflicts.push(copy_bytes(p));
            proof {
                ccov = ccov.push(conflicts@.len() - 1);
                ocov = ocov.push(-1);
                assert(conflicts@[conflicts@.len() - 1]@ == cands@[i as int]@);
            }
        } else {
            match merged_value_at(base, local, remote, p) {
                Some(d) => {
                    out.push(TreeEntry { path: copy_bytes(p), data: d });
                    proof {
                        osrc = osrc.push(i as int);
                        ocov = ocov.push(out@.len() - 1);
                        ccov = ccov.push(-1);
                        assert(out@[out@.len() - 1].path@ == cands@[i as int]@);
                    }
                },
                None => {
                    proof {
                        ocov = ocov.push(-1);
                        ccov = ccov.push(-1);
                    }
                },
            }
        }
        proof {
            assert(forall|j: int| 0 <= j < pre_out.len() ==> out@[j] == pre_out[j]);
            assert(forall|c: int| 0 <= c < pre_conf.len() ==> conflicts@[c] == pre_conf[c]);
        }
        i = i + 1;
    }
    proof {
        assert forall|a: int|
            0 <= a < cands@.len() && !conflict_at(bm, lm, rm, #[trigger] cands@[a]@) && merged_at(
                bm,
                lm,
                rm,
                cands@[a]@,
            ) is Some implies exists|m: int|
            0 <= m < out@.len() && out@[m].path@ == cands@[a]@ by {
            assert(ocov[a] >= 0);
            assert(out@[ocov[a]].path@ == cands@[a]@);
        }
        assert forall|a: int|
            0 <= a < cands@.len() && conflict_at(base@, local@, remote@, #[trigger] cands@[a]@)
            implies exists|c: int| 0 <= c < conflicts@.len() && conflicts@[c]@ == cands@[a]@ by {
            assert(conflict_at(bm, lm, rm, cands@[a]@));
            assert(ccov[a] >= 0);
            assert(conflicts@[ccov[a]]@ == cands@[a]@);
            assert(0 <= ccov[a] < conflicts@.len() && conflicts@[ccov[a]]@ == cands@[a]@);
        }
        assert forall|j1: int, j2: int|
            0 <= j1 < j2 < out@.len() implies #[trigger] out@[j1].path@ != #[trigger] out@[j2].path@ by {
            assert(osrc[j1] < osrc[j2]);
            assert(cands@[osrc[j1]]@ != cands@[osrc[j2]]@);
        }
        assert(distinct_paths(out@));
    }
}

} // verus!
