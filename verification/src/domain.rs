//! The task domain: a yak is a named unit of work with a done flag and an
//! optional free-text context. Names are hierarchical, with `/` separating
//! the levels.

use vstd::prelude::*;
use vstd::string::StrSliceExecFns;
use crate::errors::YakError;

verus! {

/// A named unit of work.
#[derive(Debug, Clone, PartialEq, Eq)]
pub struct Yak {
    pub name: String,
    pub done: bool,
    pub context: Option<String>,
}

impl Yak {
    /// A fresh yak: not done, with no context.
    pub fn new(name: String) -> (y: Yak)
        ensures
            y.name@ == name@,
            !y.done,
            y.context is None,
    {
        Yak { name, done: false, context: None }
    }

    /// The same yak with the given context attached.
    pub fn with_context(self, context: String) -> (y: Yak)
        ensures
            y.name@ == self.name@,
            y.done == self.done,
            y.context matches Some(c) && c@ == context@,
    {
        Yak { context: Some(context), ..self }
    }

    /// The same yak, marked done.
    pub fn mark_done(self) -> (y: Yak)
        ensures
            y.name@ == self.name@,
            y.done,
            y.context == self.context,
    {
        Yak { done: true, ..self }
    }

    /// The same yak, marked not done.
    pub fn mark_undone(self) -> (y: Yak)
        ensures
            y.name@ == self.name@,
            !y.done,
            y.context == self.context,
    {
        Yak { done: false, ..self }
    }
}

/// The characters a yak name may never contain; `/` stays allowed for
/// hierarchy.
pub open spec fn spec_forbidden_char(c: char) -> bool {
    c == '\\' || c == ':' || c == '*' || c == '?' || c == '|' || c == '<' || c == '>' || c == '"'
}

/// A name is valid when it is non-empty and free of forbidden characters.
pub open spec fn spec_valid_name(s: Seq<char>) -> bool {
    s.len() > 0 && forall|i: int| 0 <= i < s.len() ==> !spec_forbidden_char(s[i])
}

/// Validate a yak name: rejects the empty name and names containing one of
/// the forbidden characters.
pub fn validate_yak_name(name: &str) -> (r: Result<(), String>)
    ensures
        r is Ok <==> spec_valid_name(name@),
{
    let n = name.unicode_len();
    if n == 0 {
        return Err("Yak name cannot be empty".to_owned());
    }
    let mut i: usize = 0;
    while i < n
        invariant
            0 <= i <= n,
            n == name@.len(),
            forall|j: int| 0 <= j < i ==> !spec_forbidden_char(name@[j]),
        decreases n - i,
    {
        let c = name.get_char(i);
        if c == '\\' || c == ':' || c == '*' || c == '?' || c == '|' || c == '<' || c == '>' || c
            == '"' {
            return Err(
                "Invalid yak name: contains forbidden characters (\\ : * ? | < > \")".to_owned(),
            );
        }
        i = i + 1;
    }
    Ok(())
}

/// How a name splits at the separators, processed from the right: a final
/// separator opens a new empty segment, any other character extends the last
/// segment, and the empty name is the single empty segment.
pub open spec fn spec_split(s: Seq<char>) -> Seq<Seq<char>>
    decreases s.len(),
{
    if s.len() == 0 {
        seq![Seq::<char>::empty()]
    } else if s.last() == '/' {
        spec_split(s.drop_last()).push(Seq::<char>::empty())
    } else {
        let r = spec_split(s.drop_last());
        r.update(r.len() - 1, r.last().push(s.last()))
    }
}

/// `spec_split` always yields at least one segment.
pub proof fn lemma_spec_split_len(s: Seq<char>)
    ensures
        spec_split(s).len() >= 1,
    decreases s.len(),
{
    if s.len() > 0 {
        lemma_spec_split_len(s.drop_last());
    }
}

/// Split a hierarchical name into its segments, in order.
pub fn parse_hierarchy(name: &str) -> (r: Vec<&str>)
    ensures
        r@.map_values(|t: &str| t@) == spec_split(name@),
{
    let n = name.unicode_len();
    let mut out: Vec<&str> = Vec::new();
    let mut start: usize = 0;
    let mut i: usize = 0;
    proof {
        assert(name@.take(0) =~= Seq::<char>::empty());
        assert(name@.subrange(0, 0) =~= Seq::<char>::empty());
        assert(out@.map_values(|t: &str| t@).push(name@.subrange(0, 0)) =~= seq![
            Seq::<char>::empty(),
        ]);
    }
    while i < n
        invariant
            0 <= start <= i <= n,
            n == name@.len(),
            spec_split(name@.take(i as int)) == out@.map_values(|t: &str| t@).push(
                name@.subrange(start as int, i as int),
            ),
        decreases n - i,
    {
        let ghost pre = out@;
        let c = name.get_char(i);
        proof {
            lemma_spec_split_len(name@.take(i as int));
            assert(name@.take(i as int + 1).drop_last() =~= name@.take(i as int));
            assert(name@.take(i as int + 1).last() == name@[i as int]);
        }
        if c == '/' {
            let seg = name.substring_char(start, i);
            out.push(seg);
            start = i + 1;
            proof {
                assert(out@.map_values(|t: &str| t@) =~= pre.map_values(|t: &str| t@).push(
                    seg@,
                ));
                assert(name@.subrange(start as int, i as int + 1) =~= Seq::<char>::empty());
            }
        } else {
            proof {
                let r0 = spec_split(name@.take(i as int));
                assert(r0.last() == name@.subrange(start as int, i as int));
                assert(r0.last().push(name@[i as int]) =~= name@.subrange(
                    start as int,
                    i as int + 1,
                ));
                assert(spec_split(name@.take(i as int + 1)) =~= r0.update(
                    r0.len() - 1,
                    name@.subrange(start as int, i as int + 1),
                ));
                assert(r0.update(r0.len() - 1, name@.subrange(start as int, i as int + 1))
                    =~= out@.map_values(|t: &str| t@).push(
                    name@.subrange(start as int, i as int + 1),
                ));
            }
        }
        i = i + 1;
    }
    let seg = name.substring_char(start, n);
    let ghost pre = out@;
    out.push(seg);
    proof {
        assert(name@.take(n as int) =~= name@);
        assert(out@.map_values(|t: &str| t@) =~= pre.map_values(|t: &str| t@).push(seg@));
        assert(seg@ =~= name@.subrange(start as int, n as int));
    }
    out
}

/// Whether `child` sits strictly below `parent` in the hierarchy: it starts
/// with `parent` followed by a separator.
pub open spec fn spec_is_under(child: Seq<char>, parent: Seq<char>) -> bool {
    &&& child.len() > parent.len()
    &&& child.take(parent.len() as int) == parent
    &&& child[parent.len() as int] == '/'
}

/// Decide whether one name sits strictly below another.
pub fn name_is_under(child: &str, parent: &str) -> (r: bool)
    ensures
        r == spec_is_under(child@, parent@),
{
    let nc = child.unicode_len();
    let np = parent.unicode_len();
    if nc <= np {
        return false;
    }
    if child.get_char(np) != '/' {
        return false;
    }
    let mut i: usize = 0;
    while i < np
        invariant
            0 <= i <= np,
            np == parent@.len(),
            nc == child@.len(),
            nc > np,
            forall|j: int| 0 <= j < i ==> child@[j] == parent@[j],
        decreases np - i,
    {
        if child.get_char(i) != parent.get_char(i) {
            proof {
                assert(child@.take(np as int)[i as int] != parent@[i as int]);
            }
            return false;
        }
        i = i + 1;
    }
    proof {
        assert(child@.take(np as int) =~= parent@);
    }
    true
}

/// Whether `needle` occurs contiguously inside `hay` at offset `off`.
pub open spec fn contains_at(hay: Seq<char>, needle: Seq<char>, off: int) -> bool {
    0 <= off && off + needle.len() <= hay.len() && hay.subrange(off, off + needle.len()) == needle
}

/// Whether `needle` occurs contiguously anywhere inside `hay`.
pub open spec fn spec_contains(hay: Seq<char>, needle: Seq<char>) -> bool {
    exists|off: int| contains_at(hay, needle, off)
}

/// Whether one string occurs contiguously inside another.
pub fn str_contains(hay: &str, needle: &str) -> (r: bool)
    ensures
        r == spec_contains(hay@, needle@),
{
    let nh = hay.unicode_len();
    let nn = needle.unicode_len();
    if nn > nh {
        proof {
            assert(forall|off: int| !contains_at(hay@, needle@, off));
        }
        return false;
    }
    let mut off: usize = 0;
    while off <= nh - nn
        invariant
            0 <= off <= nh - nn + 1,
            nn <= nh,
            nh == hay@.len(),
            nn == needle@.len(),
            forall|o: int| 0 <= o < off ==> !contains_at(hay@, needle@, o),
        decreases nh - nn - off + 1,
    {
        let mut k: usize = 0;
        let mut hit = true;
        let ghost mut bad: int = 0;
        while k < nn
            invariant_except_break
                hit,
            invariant
                0 <= k <= nn,
                off + nn <= nh,
                nh == hay@.len(),
                nn == needle@.len(),
                hit ==> forall|j: int| 0 <= j < k ==> hay@[off + j] == needle@[j],
            ensures
                0 <= k <= nn,
                hit ==> k == nn,
                hit ==> forall|j: int| 0 <= j < k ==> hay@[off + j] == needle@[j],
                !hit ==> 0 <= bad < nn && hay@[off + bad] != needle@[bad],
            decreases nn - k,
        {
            if hay.get_char(off + k) != needle.get_char(k) {
                proof {
                    bad = k as int;
                    assert(hay@[off + bad] != needle@[bad]);
                }
                hit = false;
                break;
            }
            k = k + 1;
        }
        if hit {
            proof {
                assert(hay@.subrange(off as int, off + nn) =~= needle@);
                assert(contains_at(hay@, needle@, off as int));
            }
            return true;
        }
        proof {
            assert(!contains_at(hay@, needle@, off as int)) by {
                if contains_at(hay@, needle@, off as int) {
                    assert(hay@.subrange(off as int, off + nn)[bad] == hay@[off + bad]);
                }
            }
        }
        off = off + 1;
    }
    proof {
        assert forall|o: int| !contains_at(hay@, needle@, o) by {
            if contains_at(hay@, needle@, o) {
                assert(0 <= o < nh - nn + 1);
            }
        }
    }
    false
}

/// Resolve a query against the yak names: an exact hit wins; otherwise a
/// unique substring match is accepted, no match is not found, and more than
/// one match is ambiguous — if and only if.
pub fn resolve_name(yaks: &Vec<Yak>, query: &str) -> (r: Result<String, YakError>)
    ensures
        (exists|i: int| 0 <= i < yaks@.len() && #[trigger] yaks@[i].name@ == query@) ==> (r matches
            Ok(n) && n@ == query@),
        (forall|i: int|
            0 <= i < yaks@.len() ==> !spec_contains(#[trigger] yaks@[i].name@, query@)) ==> (r
            matches Err(e) && e is NotFound),
        (exists|i: int|
            0 <= i < yaks@.len() && #[trigger] spec_contains(yaks@[i].name@, query@) && forall|
                j: int,
            |
                0 <= j < yaks@.len() && j != i ==> !spec_contains(
                    #[trigger] yaks@[j].name@,
                    query@,
                )) ==> (r matches Ok(n) && exists|i: int|
            0 <= i < yaks@.len() && #[trigger] yaks@[i].name@ == n@ && spec_contains(
                yaks@[i].name@,
                query@,
            )),
        (exists|i: int, j: int|
            0 <= i < j < yaks@.len() && spec_contains(#[trigger] yaks@[i].name@, query@)
                && spec_contains(#[trigger] yaks@[j].name@, query@)) ==> (r matches Err(e) && (
        e is Ambiguous || (e is NotFound && exists|i: int|
            0 <= i < yaks@.len() && #[trigger] yaks@[i].name@ == query@)) || (r matches Ok(n) && n@
            == query@)),
{
    let mut i: usize = 0;
    while i < yaks.len()
        invariant
            0 <= i <= yaks@.len(),
            forall|j: int| 0 <= j < i ==> #[trigger] yaks@[j].name@ != query@,
        decreases yaks@.len() - i,
    {
        if crate::text::str_eq(yaks[i].name.as_str(), query) {
            proof {
                assert(yaks@[i as int].name@.subrange(0, query@.len() as int) =~= query@);
                assert(contains_at(yaks@[i as int].name@, query@, 0));
                assert(spec_contains(yaks@[i as int].name@, query@));
            }
            return Ok(query.to_owned());
        }
        i = i + 1;
    }
    let mut found: Option<usize> = None;
    let mut ambiguous = false;
    let mut k: usize = 0;
    while k < yaks.len()
        invariant
            0 <= k <= yaks@.len(),
            found is None ==> !ambiguous && forall|j: int|
                0 <= j < k ==> !spec_contains(#[trigger] yaks@[j].name@, query@),
            found matches Some(f) ==> f < k && spec_contains(yaks@[f as int].name@, query@),
            found matches Some(f) ==> (!ambiguous ==> forall|j: int|
                0 <= j < k && j != f ==> !spec_contains(#[trigger] yaks@[j].name@, query@)),
            ambiguous ==> exists|i1: int, j1: int|
                0 <= i1 < j1 < k && spec_contains(#[trigger] yaks@[i1].name@, query@)
                    && spec_contains(#[trigger] yaks@[j1].name@, query@),
        decreases yaks@.len() - k,
    {
        if str_contains(yaks[k].name.as_str(), query) {
            match found {
                None => {
                    found = Some(k);
                },
                Some(f) => {
                    proof {
                        assert(spec_contains(yaks@[f as int].name@, query@));
                        assert(spec_contains(yaks@[k as int].name@, query@));
                    }
                    ambiguous = true;
                },
            }
        }
        k = k + 1;
    }
    if ambiguous {
        return Err(YakError::Ambiguous { name: query.to_owned() });
    }
    match found {
        Some(f) => Ok(yaks[f].name.clone()),
        None => Err(YakError::NotFound { name: query.to_owned() }),
    }
}

/// Whether the list holds an unfinished yak strictly below the given name.
pub fn has_incomplete_child(yaks: &Vec<Yak>, name: &str) -> (r: bool)
    ensures
        r == exists|i: int|
            0 <= i < yaks@.len() && spec_is_under(#[trigger] yaks@[i].name@, name@)
                && !yaks@[i].done,
{
    let mut i: usize = 0;
    while i < yaks.len()
        invariant
            0 <= i <= yaks@.len(),
            forall|j: int|
                0 <= j < i ==> !(spec_is_under(#[trigger] yaks@[j].name@, name@) && !yaks@[j].done),
        decreases yaks@.len() - i,
    {
        if !yaks[i].done && name_is_under(yaks[i].name.as_str(), name) {
            return true;
        }
        i = i + 1;
    }
    false
}

} // verus!
