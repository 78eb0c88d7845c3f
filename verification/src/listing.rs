//! Rendering of the hierarchical yak listing: implicit parents are shown for
//! nested names, finished items sort before open ones at each level, and
//! levels are indented. Formatting is presentation, not protocol: its shape
//! is pinned by the tests rather than by contracts.

use vstd::prelude::*;
use vstd::string::{StrSliceExecFns, StringExecFns};
use crate::domain::Yak;
use crate::text::{chars_of, push_indent, string_of};

verus! {

/// One row of the hierarchy: a full path, its leaf name, and whether a real
/// (done or open) yak lives there or it is only an implicit parent.
struct Node {
    path: Vec<char>,
    leaf: Vec<char>,
    done: bool,
    is_yak: bool,
}

/// Which rows a listing shows.
pub(crate) enum Shown {
    All,
    DoneOnly,
    OpenOnly,
}

fn copy_chars(v: &Vec<char>) -> (r: Vec<char>)
    ensures
        r@ == v@,
{
    let mut out: Vec<char> = Vec::new();
    let mut i: usize = 0;
    while i < v.len()
        invariant
            0 <= i <= v@.len(),
            out@ =~= v@.take(i as int),
        decreases v@.len() - i,
    {
        out.push(v[i]);
        i = i + 1;
    }
    proof {
        assert(out@ =~= v@);
    }
    out
}

fn chars_eq(a: &Vec<char>, b: &Vec<char>) -> (r: bool)
    ensures
        r == (a@ == b@),
{
    if a.len() != b.len() {
        return false;
    }
    let mut i: usize = 0;
    while i < a.len()
        invariant
            0 <= i <= a@.len(),
            a@.len() == b@.len(),
            forall|j: int| 0 <= j < i ==> a@[j] == b@[j],
        decreases a@.len() - i,
    {
        if a[i] != b[i] {
            return false;
        }
        i = i + 1;
    }
    proof {
        assert(a@ =~= b@);
    }
    true
}

/// Leaf-name order: character by character by code point, shorter first.
fn chars_lt(a: &Vec<char>, b: &Vec<char>) -> bool {
    let n = if a.len() < b.len() {
        a.len()
    } else {
        b.len()
    };
    let mut i: usize = 0;
    while i < n
        invariant
            0 <= i <= n,
            n <= a@.len(),
            n <= b@.len(),
        decreases n - i,
    {
        let x = a[i] as u32;
        let y = b[i] as u32;
        if x < y {
            return true;
        }
        if x > y {
            return false;
        }
        i = i + 1;
    }
    a.len() < b.len()
}

fn copy_node(n: &Node) -> (r: Node)
    ensures
        r.path@ == n.path@,
        r.leaf@ == n.leaf@,
        r.done == n.done,
        r.is_yak == n.is_yak,
{
    Node { path: copy_chars(&n.path), leaf: copy_chars(&n.leaf), done: n.done, is_yak: n.is_yak }
}

/// The leaf of a path: everything after its last separator.
fn leaf_of(path: &Vec<char>) -> Vec<char> {
    let mut start: usize = 0;
    let mut i: usize = 0;
    while i < path.len()
        invariant
            0 <= start <= i <= path@.len(),
        decreases path@.len() - i,
    {
        if path[i] == '/' {
            start = i + 1;
        }
        i = i + 1;
    }
    let mut out: Vec<char> = Vec::new();
    let mut j: usize = start;
    while j < path.len()
        invariant
            start <= j <= path@.len(),
        decreases path@.len() - j,
    {
        out.push(path[j]);
        j = j + 1;
    }
    out
}

/// Collect one row per yak plus one per implicit parent level; a later yak
/// with the same name overrides an earlier row.
fn collect_nodes(yaks: &Vec<Yak>) -> Vec<Node> {
    let mut nodes: Vec<Node> = Vec::new();
    let mut y: usize = 0;
    while y < yaks.len()
        decreases yaks@.len() - y,
    {
        let name = chars_of(yaks[y].name.as_str());
        // implicit parents for every prefix that ends at a separator
        let mut i: usize = 0;
        while i < name.len()
            invariant
                0 <= i <= name@.len(),
            decreases name@.len() - i,
        {
            if name[i] == '/' {
                let mut prefix: Vec<char> = Vec::new();
                let mut j: usize = 0;
                while j < i
                    invariant
                        0 <= j <= i <= name@.len(),
                    decreases i - j,
                {
                    prefix.push(name[j]);
                    j = j + 1;
                }
                let mut seen = false;
                let mut k: usize = 0;
                while k < nodes.len()
                    invariant
                        0 <= k <= nodes@.len(),
                    decreases nodes@.len() - k,
                {
                    if chars_eq(&nodes[k].path, &prefix) {
                        seen = true;
                    }
                    k = k + 1;
                }
                if !seen {
                    let leaf = leaf_of(&prefix);
                    nodes.push(Node { path: prefix, leaf, done: false, is_yak: false });
                }
            }
            i = i + 1;
        }
        // the yak's own row, overriding an implicit or earlier row
        let done = yaks[y].done;
        let mut replaced = false;
        let mut k: usize = 0;
        while k < nodes.len()
            invariant
                0 <= k <= nodes@.len(),
            decreases nodes@.len() - k,
        {
            if chars_eq(&nodes[k].path, &name) {
                let leaf = leaf_of(&name);
                nodes.set(k, Node { path: copy_chars(&name), leaf, done, is_yak: true });
                replaced = true;
            }
            k = k + 1;
        }
        if !replaced {
            let leaf = leaf_of(&name);
            nodes.push(Node { path: name, leaf, done, is_yak: true });
        }
        y = y + 1;
    }
    nodes
}

/// The direct children of a path (or the roots, for the empty prefix): rows
/// exactly one level below it.
fn direct_children(nodes: &Vec<Node>, prefix: &Vec<char>, bound: usize) -> (r: Vec<Node>)
    requires
        forall|i: int| 0 <= i < nodes@.len() ==> (#[trigger] nodes@[i].path@).len() <= bound,
    ensures
        forall|i: int|
            0 <= i < r@.len() ==> (#[trigger] r@[i].path@).len() <= bound && r@[i].path@.len()
                > prefix@.len(),
{
    let mut out: Vec<Node> = Vec::new();
    let mut k: usize = 0;
    while k < nodes.len()
        invariant
            0 <= k <= nodes@.len(),
            forall|i: int| 0 <= i < nodes@.len() ==> (#[trigger] nodes@[i].path@).len() <= bound,
            forall|i: int|
                0 <= i < out@.len() ==> (#[trigger] out@[i].path@).len() <= bound
                    && out@[i].path@.len() > prefix@.len(),
        decreases nodes@.len() - k,
    {
        let node = &nodes[k];
        let is_child = if prefix.len() == 0 {
            // a root: a non-empty name with no separator anywhere
            let mut has_sep = false;
            let mut i: usize = 0;
            while i < node.path.len()
                invariant
                    0 <= i <= node.path@.len(),
                decreases node.path@.len() - i,
            {
                if node.path[i] == '/' {
                    has_sep = true;
                }
                i = i + 1;
            }
            !has_sep && node.path.len() > 0
        } else if node.path.len() <= prefix.len() {
            false
        } else {
            // starts with the prefix, a separator, and a final segment
            let mut matches_prefix = node.path.len() > prefix.len() + 1 && node.path[prefix.len()]
                == '/';
            let mut i: usize = 0;
            while i < prefix.len()
                invariant
                    0 <= i <= prefix@.len(),
                    prefix@.len() < node.path@.len(),
                decreases prefix@.len() - i,
            {
                if node.path[i] != prefix[i] {
                    matches_prefix = false;
                }
                i = i + 1;
            }
            if matches_prefix {
                let mut tail_sep = false;
                let mut i2: usize = prefix.len() + 1;
                while i2 < node.path.len()
                    invariant
                        prefix@.len() + 1 <= i2 <= node.path@.len(),
                    decreases node.path@.len() - i2,
                {
                    if node.path[i2] == '/' {
                        tail_sep = true;
                    }
                    i2 = i2 + 1;
                }
                !tail_sep
            } else {
                false
            }
        };
        if is_child {
            // insert in display order: done rows first, then by leaf name
            let e = copy_node(node);
            let mut pos: usize = 0;
            while pos < out.len()
                invariant
                    0 <= pos <= out@.len(),
                ensures
                    0 <= pos <= out@.len(),
                decreases out@.len() - pos,
            {
                let ahead = &out[pos];
                let before = ahead.done && !e.done || (ahead.done == e.done && chars_lt(
                    &ahead.leaf,
                    &e.leaf,
                ));
                if !before {
                    break;
                }
                pos = pos + 1;
            }
            let ghost pre_out = out@;
            out.insert(pos, e);
            proof {
                assert forall|i: int|
                    0 <= i < out@.len() implies (#[trigger] out@[i].path@).len() <= bound
                        && out@[i].path@.len() > prefix@.len() by {
                    if i < pos {
                        assert(out@[i] == pre_out[i]);
                    } else if i > pos {
                        assert(out@[i] == pre_out[i - 1]);
                    }
                }
            }
        }
        k = k + 1;
    }
    out
}

/// One printed row.
fn render_line(node: &Node, depth: usize, markdown: bool) -> String {
    if !markdown {
        return string_of(&node.path);
    }
    let mut line = String::new();
    push_indent(&mut line, depth);
    line.append("- ");
    if node.done {
        line.append("[x] ");
    } else {
        line.append("[ ] ");
    }
    let leaf = string_of(&node.leaf);
    line.append(leaf.as_str());
    if node.done {
        let mut wrapped = "\u{1b}[90m".to_owned();
        wrapped.append(line.as_str());
        wrapped.append("\u{1b}[0m");
        return wrapped;
    }
    line
}

fn should_show(node: &Node, shown: &Shown) -> bool {
    match shown {
        Shown::All => true,
        Shown::DoneOnly => node.is_yak && node.done,
        Shown::OpenOnly => !node.done || !node.is_yak,
    }
}

/// Emit a subtree: the node's own row (when the filter keeps it), then its
/// children, each level sorted done-first then by name.
fn render_subtree(
    nodes: &Vec<Node>,
    node: &Node,
    depth: usize,
    markdown: bool,
    shown: &Shown,
    bound: usize,
    out: &mut Vec<String>,
)
    requires
        forall|i: int| 0 <= i < nodes@.len() ==> (#[trigger] nodes@[i].path@).len() <= bound,
        node.path@.len() <= bound,
        depth <= bound,
    decreases bound - node.path@.len(),
{
    if should_show(node, shown) {
        let line = render_line(node, depth, markdown);
        out.push(line);
    }
    let children = direct_children(nodes, &node.path, bound);
    let mut k: usize = 0;
    while k < children.len()
        invariant
            0 <= k <= children@.len(),
            depth <= bound,
            forall|i: int| 0 <= i < nodes@.len() ==> (#[trigger] nodes@[i].path@).len() <= bound,
            forall|i: int|
                0 <= i < children@.len() ==> (#[trigger] children@[i].path@).len() <= bound
                    && children@[i].path@.len() > node.path@.len(),
        decreases children@.len() - k,
    {
        let child = &children[k];
        let next_depth = if depth < bound {
            depth + 1
        } else {
            depth
        };
        render_subtree(nodes, child, next_depth, markdown, shown, bound, out);
        k = k + 1;
    }
}

/// Render the whole listing.
pub(crate) fn render_yak_list(yaks: &Vec<Yak>, markdown: bool, shown: &Shown) -> Vec<String> {
    let nodes = collect_nodes(yaks);
    // a bound on every path length, for termination of the tree walk
    let mut bound: usize = 0;
    let mut k: usize = 0;
    while k < nodes.len()
        invariant
            0 <= k <= nodes@.len(),
            forall|i: int| 0 <= i < k ==> (#[trigger] nodes@[i].path@).len() <= bound,
        decreases nodes@.len() - k,
    {
        if nodes[k].path.len() > bound {
            bound = nodes[k].path.len();
        }
        k = k + 1;
    }
    let mut out: Vec<String> = Vec::new();
    let empty_prefix: Vec<char> = Vec::new();
    let roots = direct_children(&nodes, &empty_prefix, bound);
    let mut r: usize = 0;
    while r < roots.len()
        invariant
            0 <= r <= roots@.len(),
            forall|i: int| 0 <= i < nodes@.len() ==> (#[trigger] nodes@[i].path@).len() <= bound,
            forall|i: int| 0 <= i < roots@.len() ==> (#[trigger] roots@[i].path@).len() <= bound,
        decreases roots@.len() - r,
    {
        render_subtree(&nodes, &roots[r], 0, markdown, shown, bound, &mut out);
        r = r + 1;
    }
    out
}

} // verus!
