//! Snapshot trees: the content-addressed representation of a working
//! directory at one instant.
//!
//! A tree is a set of files, each a relative path (as bytes) with its byte
//! contents. Trees are kept in a canonical form — entries strictly sorted by
//! path — so that two directories with identical content always produce the
//! same tree value, and trees can be compared cheaply.

use vstd::prelude::*;

verus! {

/// One file inside a snapshot: a relative path and the file's bytes.
pub struct TreeEntry {
    pub path: Vec<u8>,
    pub data: Vec<u8>,
}

/// Strict lexicographic order on byte sequences.
pub open spec fn lex_lt(a: Seq<u8>, b: Seq<u8>) -> bool
    decreases a.len(),
{
    if b.len() == 0 {
        false
    } else if a.len() == 0 {
        true
    } else if a[0] < b[0] {
        true
    } else if a[0] > b[0] {
        false
    } else {
        lex_lt(a.drop_first(), b.drop_first())
    }
}

pub proof fn lemma_lex_irreflexive(a: Seq<u8>)
    ensures
        !lex_lt(a, a),
    decreases a.len(),
{
    if a.len() > 0 {
        lemma_lex_irreflexive(a.drop_first());
    }
}

pub proof fn lemma_lex_connected(a: Seq<u8>, b: Seq<u8>)
    requires
        !lex_lt(a, b),
        !lex_lt(b, a),
    ensures
        a == b,
    decreases a.len(),
{
    if a.len() == 0 && b.len() == 0 {
        assert(a =~= b);
    } else if a.len() > 0 && b.len() > 0 {
        lemma_lex_connected(a.drop_first(), b.drop_first());
        assert(a =~= seq![a[0]] + a.drop_first());
        assert(b =~= seq![b[0]] + b.drop_first());
    }
}

pub proof fn lemma_lex_transitive(a: Seq<u8>, b: Seq<u8>, c: Seq<u8>)
    requires
        lex_lt(a, b),
        lex_lt(b, c),
    ensures
        lex_lt(a, c),
    decreases a.len() + b.len() + c.len(),
{
    if a.len() > 0 && b.len() > 0 && c.len() > 0 && a[0] == b[0] && b[0] == c[0] {
        lemma_lex_transitive(a.drop_first(), b.drop_first(), c.drop_first());
    }
}

/// A common prefix of equal characters does not affect the comparison.
pub proof fn lemma_lex_common_prefix(a: Seq<u8>, b: Seq<u8>, i: int)
    requires
        0 <= i <= a.len(),
        0 <= i <= b.len(),
        forall|j: int| 0 <= j < i ==> a[j] == b[j],
    ensures
        lex_lt(a, b) == lex_lt(a.skip(i), b.skip(i)),
    decreases i,
{
    if i == 0 {
        assert(a.skip(0) =~= a);
        assert(b.skip(0) =~= b);
    } else {
        lemma_lex_common_prefix(a.drop_first(), b.drop_first(), i - 1);
        assert(a.drop_first().skip(i - 1) =~= a.skip(i));
        assert(b.drop_first().skip(i - 1) =~= b.skip(i));
        assert(a[0] == b[0]);
        assert(lex_lt(a, b) == lex_lt(a.drop_first(), b.drop_first()));
    }
}

/// Compare two byte vectors in lexicographic order.
pub fn bytes_lt(a: &Vec<u8>, b: &Vec<u8>) -> (r: bool)
    ensures
        r == lex_lt(a@, b@),
{
    let n = if a.len() < b.len() {
        a.len()
    } else {
        b.len()
    };
    let mut i: usize = 0;
    while i < n
        invariant
            0 <= i <= n,
            n == if a@.len() < b@.len() {
                a@.len()
            } else {
                b@.len()
            },
            forall|j: int| 0 <= j < i ==> a@[j] == b@[j],
        decreases n - i,
    {
        let x = a[i];
        let y = b[i];
        if x < y {
            proof {
                lemma_lex_common_prefix(a@, b@, i as int);
            }
            return true;
        }
        if x > y {
            proof {
                lemma_lex_common_prefix(a@, b@, i as int);
            }
            return false;
        }
        i = i + 1;
    }
    proof {
        lemma_lex_common_prefix(a@, b@, n as int);
    }
    a.len() < b.len()
}

/// Compare two byte vectors for equality of contents.
pub fn bytes_eq(a: &Vec<u8>, b: &Vec<u8>) -> (r: bool)
    ensures
        r == (a@ == b@),
{
    if a.len() != b.len() {
        return false;
    }
    let mut i: usize = 0;
    while i < a.len()
        invariant
            0 <= i <= a@.len(),
            a@.len() == b@.len(),
            forall|j: int| 0 <= j < i ==> a@[j] == b@[j],
        decreases a@.len() - i,
    {
        if a[i] != b[i] {
            return false;
        }
        i = i + 1;
    }
    proof {
        assert(a@ =~= b@);
    }
    true
}

/// Copy the contents of a byte vector.
pub fn copy_bytes(v: &Vec<u8>) -> (r: Vec<u8>)
    ensures
        r@ == v@,
{
    let mut out: Vec<u8> = Vec::new();
    let mut i: usize = 0;
    while i < v.len()
        invariant
            0 <= i <= v@.len(),
            out@ =~= v@.take(i as int),
        decreases v@.len() - i,
    {
        out.push(v[i]);
        i = i + 1;
    }
    proof {
        assert(out@ =~= v@);
    }
    out
}

/// Entries are strictly ascending by path, so each path occurs once.
pub open spec fn sorted_strict(s: Seq<TreeEntry>) -> bool {
    forall|i: int, j: int| 0 <= i < j < s.len() ==> lex_lt(s[i].path@, s[j].path@)
}

/// The map described by a sequence of entries; a later entry overrides an
/// earlier one with the same path.
pub open spec fn entries_map(s: Seq<TreeEntry>) -> Map<Seq<u8>, Seq<u8>>
    decreases s.len(),
{
    if s.len() == 0 {
        Map::empty()
    } else {
        entries_map(s.drop_last()).insert(s.last().path@, s.last().data@)
    }
}

/// All paths of a sequence of entries are distinct.
pub open spec fn distinct_paths(s: Seq<TreeEntry>) -> bool {
    forall|i: int, j: int| 0 <= i < j < s.len() ==> s[i].path@ != s[j].path@
}

pub proof fn lemma_sorted_implies_distinct(s: Seq<TreeEntry>)
    requires
        sorted_strict(s),
    ensures
        distinct_paths(s),
{
    assert forall|i: int, j: int| 0 <= i < j < s.len() implies s[i].path@ != s[j].path@ by {
        lemma_lex_irreflexive(s[i].path@);
    }
}

/// Membership in the entry map is membership among the paths.
pub proof fn lemma_entries_map_domain(s: Seq<TreeEntry>, p: Seq<u8>)
    ensures
        entries_map(s).contains_key(p) <==> exists|i: int| 0 <= i < s.len() && s[i].path@ == p,
    decreases s.len(),
{
    if s.len() > 0 {
        lemma_entries_map_domain(s.drop_last(), p);
        if s.last().path@ == p {
            assert(s[s.len() - 1].path@ == p);
        } else if entries_map(s).contains_key(p) {
            let i = choose|i: int| 0 <= i < s.len() - 1 && s.drop_last()[i].path@ == p;
            assert(s[i].path@ == p);
        } else if exists|i: int| 0 <= i < s.len() && s[i].path@ == p {
            let i = choose|i: int| 0 <= i < s.len() && s[i].path@ == p;
            assert(s.drop_last()[i].path@ == p);
        }
    }
}

/// With distinct paths, each entry gives the map's value at its path.
pub proof fn lemma_entries_map_index(s: Seq<TreeEntry>, i: int)
    requires
        distinct_paths(s),
        0 <= i < s.len(),
    ensures
        entries_map(s).contains_key(s[i].path@),
        entries_map(s)[s[i].path@] == s[i].data@,
    decreases s.len(),
{
    lemma_entries_map_domain(s, s[i].path@);
    if i < s.len() - 1 {
        lemma_entries_map_index(s.drop_last(), i);
        assert(s.drop_last()[i] == s[i]);
        assert(s.last().path@ != s[i].path@);
    }
}

/// Two sorted entry sequences describing the same map are the same sequence,
/// viewed path by path and datum by datum: the canonical form is unique.
pub proof fn lemma_canonical_unique(s1: Seq<TreeEntry>, s2: Seq<TreeEntry>)
    requires
        sorted_strict(s1),
        sorted_strict(s2),
        entries_map(s1) == entries_map(s2),
    ensures
        s1.len() == s2.len(),
        forall|i: int|
            0 <= i < s1.len() ==> s1[i].path@ == s2[i].path@ && s1[i].data@ == s2[i].data@,
    decreases s1.len(),
{
    lemma_sorted_implies_distinct(s1);
    lemma_sorted_implies_distinct(s2);
    if s1.len() == 0 {
        if s2.len() > 0 {
            lemma_entries_map_index(s2, 0);
            lemma_entries_map_domain(s1, s2[0].path@);
        }
    } else if s2.len() == 0 {
        lemma_entries_map_index(s1, 0);
        lemma_entries_map_domain(s2, s1[0].path@);
    } else {
        // The largest path of each sequence is its last entry's path; equal
        // maps have equal largest keys, so the last entries agree.
        let p1 = s1.last().path@;
        let p2 = s2.last().path@;
        lemma_entries_map_index(s1, s1.len() - 1);
        lemma_entries_map_index(s2, s2.len() - 1);
        lemma_entries_map_domain(s2, p1);
        lemma_entries_map_domain(s1, p2);
        let i2 = choose|i: int| 0 <= i < s2.len() && s2[i].path@ == p1;
        let i1 = choose|i: int| 0 <= i < s1.len() && s1[i].path@ == p2;
        if i2 < s2.len() - 1 {
            // p1 sits strictly before p2 in s2, so lex_lt(p1, p2); and p2
            // sits at or before the end of s1, so lex_lt(p2, p1) or p1 == p2.
            assert(lex_lt(p1, p2));
            if i1 < s1.len() - 1 {
                assert(lex_lt(p2, p1));
                lemma_lex_transitive(p1, p2, p1);
                lemma_lex_irreflexive(p1);
            } else {
                assert(p1 == p2);
                lemma_lex_irreflexive(p1);
            }
        }
        assert(p1 == p2);
        assert(s1.last().data@ == entries_map(s1)[p1]);
        assert(s2.last().data@ == entries_map(s2)[p1]);
        // Removing the last entries leaves equal maps of the strictly
        // smaller sequences.
        assert forall|p: Seq<u8>| entries_map(s1.drop_last()).contains_key(p) implies p != p1 by {
            lemma_entries_map_domain(s1.drop_last(), p);
            let i = choose|i: int| 0 <= i < s1.len() - 1 && s1.drop_last()[i].path@ == p;
            assert(lex_lt(s1[i].path@, p1));
            lemma_lex_irreflexive(p1);
        }
        assert forall|p: Seq<u8>| entries_map(s2.drop_last()).contains_key(p) implies p != p1 by {
            lemma_entries_map_domain(s2.drop_last(), p);
            let i = choose|i: int| 0 <= i < s2.len() - 1 && s2.drop_last()[i].path@ == p;
            assert(lex_lt(s2[i].path@, p1));
            lemma_lex_irreflexive(p1);
        }
        assert(entries_map(s1.drop_last()) =~= entries_map(s1).remove(p1));
        assert(entries_map(s2.drop_last()) =~= entries_map(s2).remove(p1));
        lemma_canonical_unique(s1.drop_last(), s2.drop_last());
        assert forall|i: int|
            0 <= i < s1.len() implies s1[i].path@ == s2[i].path@ && s1[i].data@
            == s2[i].data@ by {
            if i < s1.len() - 1 {
                assert(s1.drop_last()[i].path@ == s2.drop_last()[i].path@);
                assert(s1.drop_last()[i].data@ == s2.drop_last()[i].data@);
            }
        }
    }
}

/// A snapshot tree in canonical (strictly sorted) form.
pub struct Tree {
    pub entries: Vec<TreeEntry>,
}

impl Tree {
    /// The tree as a map from each file's path to its contents.
    pub open spec fn view(&self) -> Map<Seq<u8>, Seq<u8>> {
        entries_map(self.entries@)
    }

    /// Canonical form: entries strictly sorted by path.
    pub open spec fn wf(&self) -> bool {
        sorted_strict(self.entries@)
    }

    /// The tree with no files at all.
    pub fn empty() -> (t: Tree)
        ensures
            t.wf(),
            t@ == Map::<Seq<u8>, Seq<u8>>::empty(),
            t.entries@.len() == 0,
    {
        Tree { entries: Vec::new() }
    }

    /// Whether the tree has no files.
    pub fn is_empty(&self) -> (r: bool)
        requires
            self.wf(),
        ensures
            r == (self@ == Map::<Seq<u8>, Seq<u8>>::empty()),
    {
        proof {
            if self.entries@.len() > 0 {
                lemma_sorted_implies_distinct(self.entries@);
                lemma_entries_map_index(self.entries@, 0);
            }
            assert(self.entries@.len() == 0 ==> self@ =~= Map::<Seq<u8>, Seq<u8>>::empty());
        }
        self.entries.len() == 0
    }

    /// Look up the contents stored under a path.
    pub fn get<'a>(&'a self, path: &Vec<u8>) -> (r: Option<&'a Vec<u8>>)
        requires
            self.wf(),
        ensures
            match r {
                Some(d) => self@.contains_key(path@) && d@ == self@[path@],
                None => !self@.contains_key(path@),
            },
    {
        proof {
            lemma_sorted_implies_distinct(self.entries@);
        }
        let mut i: usize = 0;
        while i < self.entries.len()
            invariant
                0 <= i <= self.entries@.len(),
                distinct_paths(self.entries@),
                sorted_strict(self.entries@),
                forall|j: int| 0 <= j < i ==> self.entries@[j].path@ != path@,
            decreases self.entries@.len() - i,
        {
            if bytes_eq(&self.entries[i].path, path) {
                proof {
                    lemma_entries_map_index(self.entries@, i as int);
                }
                return Some(&self.entries[i].data);
            }
            i = i + 1;
        }
        proof {
            lemma_entries_map_domain(self.entries@, path@);
        }
        None
    }

    /// Deep copy of the tree.
    pub fn duplicate(&self) -> (t: Tree)
        ensures
            t.entries@.len() == self.entries@.len(),
            forall|i: int|
                0 <= i < self.entries@.len() ==> t.entries@[i].path@ == self.entries@[i].path@
                    && t.entries@[i].data@ == self.entries@[i].data@,
            self.wf() ==> t.wf(),
            t@ == self@,
    {
        let mut out: Vec<TreeEntry> = Vec::new();
        let mut i: usize = 0;
        while i < self.entries.len()
            invariant
                0 <= i <= self.entries@.len(),
                out@.len() == i,
                forall|j: int|
                    0 <= j < i ==> out@[j].path@ == self.entries@[j].path@ && out@[j].data@
                        == self.entries@[j].data@,
            decreases self.entries@.len() - i,
        {
            let e = TreeEntry {
                path: copy_bytes(&self.entries[i].path),
                data: copy_bytes(&self.entries[i].data),
            };
            out.push(e);
            i = i + 1;
        }
        proof {
            lemma_entries_map_congruent(out@, self.entries@);
            if self.wf() {
                assert forall|x: int, y: int|
                    0 <= x < y < out@.len() implies lex_lt(out@[x].path@, out@[y].path@) by {
                    assert(lex_lt(self.entries@[x].path@, self.entries@[y].path@));
                }
            }
        }
        Tree { entries: out }
    }

    /// Compare two canonical trees for equal content.
    pub fn same_content(&self, other: &Tree) -> (r: bool)
        requires
            self.wf(),
            other.wf(),
        ensures
            r == (self@ == other@),
    {
        if self.entries.len() != other.entries.len() {
            proof {
                if self@ == other@ {
                    lemma_canonical_unique(self.entries@, other.entries@);
                }
            }
            return false;
        }
        let mut i: usize = 0;
        while i < self.entries.len()
            invariant
                0 <= i <= self.entries@.len(),
                self.entries@.len() == other.entries@.len(),
                self.wf(),
                other.wf(),
                forall|j: int|
                    0 <= j < i ==> self.entries@[j].path@ == other.entries@[j].path@
                        && self.entries@[j].data@ == other.entries@[j].data@,
            decreases self.entries@.len() - i,
        {
            if !bytes_eq(&self.entries[i].path, &other.entries[i].path) || !bytes_eq(
                &self.entries[i].data,
                &other.entries[i].data,
            ) {
                proof {
                    if self@ == other@ {
                        lemma_canonical_unique(self.entries@, other.entries@);
                    }
                }
                return false;
            }
            i = i + 1;
        }
        proof {
            lemma_entries_map_congruent(self.entries@, other.entries@);
        }
        true
    }
}

/// Entry sequences equal path by path and datum by datum describe equal maps.
pub proof fn lemma_entries_map_congruent(s1: Seq<TreeEntry>, s2: Seq<TreeEntry>)
    requires
        s1.len() == s2.len(),
        forall|i: int|
            0 <= i < s1.len() ==> s1[i].path@ == s2[i].path@ && s1[i].data@ == s2[i].data@,
    ensures
        entries_map(s1) == entries_map(s2),
    decreases s1.len(),
{
    if s1.len() > 0 {
        assert(forall|i: int|
            0 <= i < s1.len() - 1 ==> s1.drop_last()[i].path@ == s2.drop_last()[i].path@
                && s1.drop_last()[i].data@ == s2.drop_last()[i].data@);
        lemma_entries_map_congruent(s1.drop_last(), s2.drop_last());
    }
}

/// Inserting an entry with a fresh path anywhere in a sequence updates the
/// map as a plain insertion.
pub proof fn lemma_entries_map_insert(s: Seq<TreeEntry>, k: int, e: TreeEntry)
    requires
        0 <= k <= s.len(),
        forall|i: int| 0 <= i < s.len() ==> s[i].path@ != e.path@,
    ensures
        entries_map(s.insert(k, e)) == entries_map(s).insert(e.path@, e.data@),
    decreases s.len(),
{
    let t = s.insert(k, e);
    if k == s.len() {
        assert(t.drop_last() =~= s);
        assert(t.last() == e);
    } else {
        assert(t.len() == s.len() + 1);
        assert(t.last() == s.last());
        assert(t.drop_last() =~= s.drop_last().insert(k, e));
        assert(forall|i: int| 0 <= i < s.len() - 1 ==> s.drop_last()[i].path@ != e.path@);
        lemma_entries_map_insert(s.drop_last(), k, e);
        assert(entries_map(t) == entries_map(s.drop_last()).insert(e.path@, e.data@).insert(
            s.last().path@,
            s.last().data@,
        ));
        assert(s[s.len() - 1].path@ != e.path@);
        assert(entries_map(s.drop_last()).insert(e.path@, e.data@).insert(
            s.last().path@,
            s.last().data@,
        ) =~= entries_map(s).insert(e.path@, e.data@));
    }
}

/// Build a canonical tree from entries in arbitrary order.
///
/// The result depends only on which (path, contents) pairs appear, not on
/// their order: identical directory content always yields an identical tree.
pub fn build_tree(list: Vec<TreeEntry>) -> (t: Tree)
    requires
        distinct_paths(list@),
    ensures
        t.wf(),
        t@ == entries_map(list@),
{
    let mut out: Vec<TreeEntry> = Vec::new();
    let ghost mut i: int = 0;
    proof {
        assert(list@.take(0) =~= Seq::<TreeEntry>::empty());
    }
    let ghost full = list@;
    let mut rest = list;
    while rest.len() > 0
        invariant
            distinct_paths(full),
            i == full.len() - rest@.len(),
            0 <= i <= full.len(),
            rest@ =~= full.skip(i),
            sorted_strict(out@),
            entries_map(out@) == entries_map(full.take(i)),
            forall|j: int|
                0 <= j < out@.len() ==> exists|k: int|
                    0 <= k < i && full[k].path@ == #[trigger] out@[j].path@,
        decreases rest@.len(),
    {
        let e = rest.remove(0);
        proof {
            assert(e == full[i]);
            assert(rest@ =~= full.skip(i + 1));
        }
        // find the insertion position
        let mut pos: usize = 0;
        while pos < out.len() && bytes_lt(&out[pos].path, &e.path)
            invariant
                0 <= pos <= out@.len(),
                forall|j: int| 0 <= j < pos ==> lex_lt(out@[j].path@, e.path@),
            decreases out@.len() - pos,
        {
            pos = pos + 1;
        }
        proof {
            // every path already in out differs from e's path
            assert forall|j: int| 0 <= j < out@.len() implies out@[j].path@ != e.path@ by {
                let k = choose|k: int| 0 <= k < i && full[k].path@ == out@[j].path@;
                assert(full[k].path@ != full[i as int].path@);
            }
            // out[pos..] is not below e and differs from e, hence is strictly
            // above e
            assert forall|j: int| pos <= j < out@.len() implies lex_lt(e.path@, out@[j].path@) by {
                assert(!lex_lt(out@[pos as int].path@, e.path@));
                if !lex_lt(e.path@, out@[pos as int].path@) {
                    lemma_lex_connected(e.path@, out@[pos as int].path@);
                }
                if j > pos {
                    lemma_lex_transitive(e.path@, out@[pos as int].path@, out@[j].path@);
                }
            }
            lemma_entries_map_insert(out@, pos as int, e);
            assert(full.take(i as int + 1).drop_last() =~= full.take(i as int));
            assert(full.take(i as int + 1).last() == e);
        }
        let ghost old_out = out@;
        out.insert(pos, e);
        proof {
            assert(out@ =~= old_out.insert(pos as int, e));
            assert(sorted_strict(out@)) by {
                assert forall|x: int, y: int|
                    0 <= x < y < out@.len() implies lex_lt(out@[x].path@, out@[y].path@) by {
                    let p = pos as int;
                    if x == p {
                        assert(out@[y] == old_out[y - 1]);
                    } else if y == p {
                        assert(out@[x] == old_out[x]);
                    } else if x < p && y < p {
                        assert(out@[x] == old_out[x] && out@[y] == old_out[y]);
                    } else if x < p && y > p {
                        assert(out@[x] == old_out[x] && out@[y] == old_out[y - 1]);
                    } else {
                        assert(out@[x] == old_out[x - 1] && out@[y] == old_out[y - 1]);
                    }
                }
            }
            assert forall|j: int| 0 <= j < out@.len() implies exists|k: int|
                0 <= k < i + 1 && full[k].path@ == #[trigger] out@[j].path@ by {
                if j == pos as int {
                    assert(full[i as int].path@ == out@[j].path@);
                } else {
                    let jj: int = if j < pos as int {
                        j
                    } else {
                        j - 1
                    };
                    assert(out@[j] == old_out[jj]);
                    let k = choose|k: int| 0 <= k < i && full[k].path@ == old_out[jj].path@;
                    assert(full[k].path@ == out@[j].path@);
                }
            }
            i = i + 1;
        }
    }
    proof {
        assert(full.take(i) =~= full);
    }
    Tree { entries: out }
}

} // verus!
