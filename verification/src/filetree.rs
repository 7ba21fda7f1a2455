use vstd::prelude::*;

use crate::paths::path_components;
use crate::search::{step_down, step_up};
use crate::text::chars_of;

verus! {

#[verifier::external_type_specification]
#[verifier::external_body]
pub struct ExAnyhowError(anyhow::Error);

/// One entry of a directory walk, as plain values.
#[derive(Debug, Clone)]
pub struct WalkEntry {
    /// The path of the entry.
    pub path: String,
    /// Its file name.
    pub name: String,
    /// Whether it is a directory, where its type could be read.
    pub is_dir: Option<bool>,
    /// Whether it is a regular file, where its type could be read.
    pub is_file: Option<bool>,
    /// How deep below the walk's root it lies (the root itself is 0).
    pub depth: usize,
}

/// A walk entry as plain values: path, name, directory flag, file flag, depth.
pub type EntryView = (Seq<char>, Seq<char>, Option<bool>, Option<bool>, usize);

impl WalkEntry {
    pub open spec fn view_entry(&self) -> EntryView {
        (self.path@, self.name@, self.is_dir, self.is_file, self.depth)
    }
}

/// The views of walk entries.
pub open spec fn entry_views(v: Seq<WalkEntry>) -> Seq<EntryView> {
    v.map_values(|e: WalkEntry| e.view_entry())
}

/// `dir` followed by a path separator, as `PathBuf::join` puts one before a
/// name: none after an empty path or one that already ends in a separator.
pub open spec fn dir_prefix(dir: Seq<char>) -> Seq<char> {
    if dir.len() == 0 || dir.last() == '/' {
        dir
    } else {
        dir + "/"@
    }
}

/// A path that `ignore::WalkBuilder` reads as standard input rather than a
/// directory: one equal, as a `Path`, to `-`.
pub open spec fn names_stdin(dir: Seq<char>) -> bool {
    path_components(dir) == path_components("-"@)
}

/// `l` is a listing of `dir` and its direct children: `dir` itself at depth
/// 0 (an entry for standard input where `dir` names it), and each child at
/// depth 1 with its path `dir` joined with its name.
pub open spec fn listed_from(dir: Seq<char>, l: Seq<EntryView>) -> bool {
    forall|i: int|
        0 <= i < l.len() ==> {
            &&& (#[trigger] l[i]).4 <= 1
            &&& l[i].4 == 0 ==> l[i].0 == dir || names_stdin(dir)
            &&& l[i].4 == 1 ==> l[i].0 == dir_prefix(dir) + l[i].1
        }
}

/// `l` is a walk of everything under `root`: `root` itself at depth 0 (an
/// entry for standard input where `root` names it), and every deeper entry
/// at a path that begins with `root` and a separator.
pub open spec fn walked_from(root: Seq<char>, l: Seq<EntryView>) -> bool {
    forall|i: int|
        0 <= i < l.len() ==> {
            &&& (#[trigger] l[i]).4 == 0 ==> l[i].0 == root || names_stdin(root)
            &&& l[i].4 > 0 ==> dir_prefix(root).is_prefix_of(l[i].0)
        }
}

/// Lists `dir` and its direct children with `ignore::WalkBuilder` (depth at
/// most 1, hidden files and git-ignored files left out), skipping entries
/// that could not be read, and reads each entry's path, name, type and depth
/// (`DirEntry::path`, `file_name`, `file_type`, `depth`). The walk yields
/// `dir` at depth 0 (for `-`, a single entry for standard input) and each
/// child at `dir` joined with its name; which children there are is not
/// promised.
#[verifier::external_body]
fn list_dir(dir: &str) -> (r: Vec<WalkEntry>)
    ensures
        listed_from(dir@, entry_views(r@)),
{
    let walk = ignore::WalkBuilder::new(dir).max_depth(Some(1)).hidden(true).git_ignore(true).build();
    walk.flatten().map(|e| WalkEntry {
        path: e.path().to_string_lossy().into_owned(),
        name: e.file_name().to_string_lossy().into_owned(),
        is_dir: e.file_type().map(|t| t.is_dir()),
        is_file: e.file_type().map(|t| t.is_file()),
        depth: e.depth(),
    }).collect()
}

/// Walks everything under `root` with `ignore::WalkBuilder` and its default
/// filters, skipping entries that could not be read, and reads each entry as
/// `list_dir` does. Each entry below `root` lies at a path joined onto
/// `root`; which entries there are is not promised.
#[verifier::external_body]
fn walk_all(root: &str) -> (r: Vec<WalkEntry>)
    ensures
        walked_from(root@, entry_views(r@)),
{
    ignore::WalkBuilder::new(root).build().flatten().map(|e| WalkEntry {
        path: e.path().to_string_lossy().into_owned(),
        name: e.file_name().to_string_lossy().into_owned(),
        is_dir: e.file_type().map(|t| t.is_dir()),
        is_file: e.file_type().map(|t| t.is_file()),
        depth: e.depth(),
    }).collect()
}

/// A node of the sidebar's file tree.
#[derive(Debug, Clone)]
pub struct FileNode {
    /// The path of the file or directory.
    pub path: String,
    /// The name shown.
    pub name: String,
    /// Whether it is a directory.
    pub is_dir: bool,
    /// How deep it lies in the tree.
    pub depth: usize,
    /// Whether, being a directory, its children are shown.
    pub expanded: bool,
}

/// A node as plain values: path, name, directory flag, depth, expanded flag.
pub type NodeView = (Seq<char>, Seq<char>, bool, usize, bool);

impl FileNode {
    pub open spec fn view_node(&self) -> NodeView {
        (self.path@, self.name@, self.is_dir, self.depth, self.expanded)
    }
}

/// The sidebar's file explorer: the visible nodes, flattened in display order.
pub struct FileTree {
    pub root: String,
    pub flat: Vec<FileNode>,
    pub selected: usize,
}

/// `a` comes before `b` in the order of code points, a proper prefix first.
pub open spec fn seq_lt(a: Seq<char>, b: Seq<char>) -> bool
    decreases a.len(),
{
    if b.len() == 0 {
        false
    } else if a.len() == 0 {
        true
    } else if a[0] != b[0] {
        (a[0] as u32) < (b[0] as u32)
    } else {
        seq_lt(a.drop_first(), b.drop_first())
    }
}

/// Whether a walk entry is a directory (an unreadable type counts as not).
pub open spec fn entry_is_dir(e: EntryView) -> bool {
    e.2 == Some(true)
}

/// `a` is listed before `b`: directories first, then by name.
pub open spec fn entry_before(a: EntryView, b: EntryView) -> bool {
    ||| entry_is_dir(a) && !entry_is_dir(b)
    ||| entry_is_dir(a) == entry_is_dir(b) && seq_lt(a.1, b.1)
}

/// `s` with `e` put before the first element that `e` is listed before.
pub open spec fn insert_sorted(s: Seq<EntryView>, e: EntryView) -> Seq<EntryView>
    decreases s.len(),
{
    if s.len() == 0 {
        seq![e]
    } else if entry_before(e, s[0]) {
        seq![e] + s
    } else {
        seq![s[0]] + insert_sorted(s.drop_first(), e)
    }
}

/// The entries of `s` below the walk's root, in listing order: directories
/// first, then by name, entries that tie keeping their order.
pub open spec fn sorted_children(s: Seq<EntryView>) -> Seq<EntryView>
    decreases s.len(),
{
    if s.len() == 0 {
        Seq::empty()
    } else if s.last().4 > 0 {
        insert_sorted(sorted_children(s.drop_last()), s.last())
    } else {
        sorted_children(s.drop_last())
    }
}

/// The node shown for a walk entry.
pub open spec fn node_of(e: EntryView, depth: usize, expanded: bool) -> NodeView {
    (e.0, e.1, entry_is_dir(e), depth, expanded)
}

/// Collapsed nodes at `depth` for the entries of `s`.
pub open spec fn child_nodes(s: Seq<EntryView>, depth: usize) -> Seq<NodeView> {
    s.map_values(|e: EntryView| node_of(e, depth, false))
}

/// The node with its expanded flag flipped.
pub open spec fn flipped(n: NodeView) -> NodeView {
    (n.0, n.1, n.2, n.3, !n.4)
}

/// The index of the first node after `sel` that is not deeper than it, from `j` on.
pub open spec fn subtree_end(nodes: Seq<NodeView>, sel: int, j: int) -> int
    decreases nodes.len() - j,
{
    if j >= nodes.len() || j < 0 {
        nodes.len() as int
    } else if nodes[j].3 <= nodes[sel].3 {
        j
    } else {
        subtree_end(nodes, sel, j + 1)
    }
}

/// The nodes after the directory at `sel` is collapsed: its flag flips and
/// the nodes below it up to the next one at its depth or shallower go.
pub open spec fn collapsed_at(nodes: Seq<NodeView>, sel: int) -> Seq<NodeView> {
    nodes.take(sel) + seq![flipped(nodes[sel])] + nodes.skip(subtree_end(nodes, sel, sel + 1))
}

/// The nodes after the directory at `sel` is expanded with `children`: its
/// flag flips and the children follow it.
pub open spec fn expanded_at(nodes: Seq<NodeView>, sel: int, children: Seq<NodeView>) -> Seq<NodeView> {
    nodes.take(sel) + seq![flipped(nodes[sel])] + children + nodes.skip(sel + 1)
}

/// The nodes after the collapsed directory at `sel` is expanded with the
/// entries of `listing` below the listed directory, sorted, one level deeper.
pub open spec fn expansion(nodes: Seq<NodeView>, sel: int, listing: Seq<EntryView>) -> Seq<NodeView> {
    expanded_at(nodes, sel, child_nodes(sorted_children(listing), (nodes[sel].3 + 1) as usize))
}

/// `after` is the tree `before` with the node at `sel` toggled: an expanded
/// directory collapsed, a collapsed one expanded with some listing of its
/// children one level deeper, and anything else left as it is.
pub open spec fn toggled(before: Seq<NodeView>, sel: int, after: Seq<NodeView>) -> bool {
    if 0 <= sel < before.len() && before[sel].2 {
        if before[sel].4 {
            after == collapsed_at(before, sel)
        } else {
            exists|listing: Seq<EntryView>|
                listed_from(before[sel].0, listing) && after == expanded_at(
                    before,
                    sel,
                    child_nodes(sorted_children(listing), (before[sel].3 + 1) as usize),
                )
        }
    } else {
        after == before
    }
}

/// `after`, with `after_sel` selected, is the tree `before` after the step to
/// the left from `sel`: an expanded directory is collapsed; otherwise the
/// selection moves to the folder above a nested node, and stays elsewhere.
pub open spec fn left_step(before: Seq<NodeView>, sel: int, after: Seq<NodeView>, after_sel: int) -> bool {
    if 0 <= sel < before.len() {
        let n = before[sel];
        if n.2 && n.4 {
            after == collapsed_at(before, sel) && after_sel == sel
        } else {
            let p = last_shallower(before, n.3 as int, sel);
            after == before && after_sel == if n.3 > 0 && p >= 0 {
                p
            } else {
                sel
            }
        }
    } else {
        after == before && after_sel == sel
    }
}

/// The shape of a displayed tree: only directories are expanded, the first
/// node is at depth 0, each node is at most one level deeper than the one
/// before it, and exactly one level deeper only below an expanded directory.
pub open spec fn tree_wf(nodes: Seq<NodeView>) -> bool {
    &&& forall|i: int| 0 <= i < nodes.len() ==> #[trigger] nodes[i].4 ==> nodes[i].2
    &&& nodes.len() > 0 ==> nodes[0].3 == 0
    &&& forall|i: int|
        0 <= i < nodes.len() - 1 ==> #[trigger] nodes[i + 1].3 <= nodes[i].3 + 1
    &&& forall|i: int|
        0 <= i < nodes.len() - 1 ==> #[trigger] nodes[i + 1].3 == nodes[i].3 + 1 ==> nodes[i].4
}

impl FileTree {
    /// The visible nodes as plain values.
    pub open spec fn nodes(&self) -> Seq<NodeView> {
        self.flat@.map_values(|n: FileNode| n.view_node())
    }
}

/// Whether `a` comes before `b` in the order of code points.
pub fn chars_less(a: &Vec<char>, b: &Vec<char>) -> (r: bool)
    ensures
        r == seq_lt(a@, b@),
{
    let mut i: usize = 0;
    assert(a@.skip(0) =~= a@);
    assert(b@.skip(0) =~= b@);
    while i < a.len() && i < b.len()
        invariant
            i <= a@.len(),
            i <= b@.len(),
            seq_lt(a@, b@) == seq_lt(a@.skip(i as int), b@.skip(i as int)),
        decreases a@.len() - i,
    {
        if a[i] != b[i] {
            return (a[i] as u32) < (b[i] as u32);
        }
        assert(a@.skip(i as int).drop_first() =~= a@.skip(i + 1));
        assert(b@.skip(i as int).drop_first() =~= b@.skip(i + 1));
        i += 1;
    }
    i < b.len()
}

/// Whether entry `a` is listed before entry `b`.
pub fn listed_before(a: &WalkEntry, b: &WalkEntry) -> (r: bool)
    ensures
        r == entry_before(a.view_entry(), b.view_entry()),
{
    let ad = match a.is_dir {
        Some(d) => d,
        None => false,
    };
    let bd = match b.is_dir {
        Some(d) => d,
        None => false,
    };
    if ad && !bd {
        return true;
    }
    if ad != bd {
        return false;
    }
    let an = chars_of(a.name.as_str());
    let bn = chars_of(b.name.as_str());
    chars_less(&an, &bn)
}

/// `insert_sorted` puts `e` at the first index whose element `e` is listed before.
proof fn lemma_insert_sorted_at(s: Seq<EntryView>, e: EntryView, p: int)
    requires
        0 <= p <= s.len(),
        forall|j: int| 0 <= j < p ==> !entry_before(e, #[trigger] s[j]),
        p < s.len() ==> entry_before(e, s[p]),
    ensures
        insert_sorted(s, e) == s.insert(p, e),
    decreases s.len(),
{
    if s.len() == 0 {
        assert(s.insert(p, e) =~= seq![e]);
    } else if p == 0 {
        assert(s.insert(0, e) =~= seq![e] + s);
    } else {
        let t = s.drop_first();
        assert forall|j: int| 0 <= j < p - 1 implies !entry_before(e, #[trigger] t[j]) by {
            assert(t[j] == s[j + 1]);
        }
        lemma_insert_sorted_at(t, e, p - 1);
        assert(s.insert(p, e) =~= seq![s[0]] + t.insert(p - 1, e));
    }
}

/// The entries below the walk's root in `raw`, in listing order.
pub fn sort_children(raw: Vec<WalkEntry>) -> (r: Vec<WalkEntry>)
    ensures
        entry_views(r@) == sorted_children(entry_views(raw@)),
{
    let ghost rv = entry_views(raw@);
    let mut out: Vec<WalkEntry> = Vec::new();
    for e in it: raw.into_iter()
        invariant
            rv == entry_views(it.seq()),
            entry_views(out@) == sorted_children(rv.take(it.index() as int)),
    {
        let ghost k = it.index() as int;
        assert(rv.take(k + 1).drop_last() =~= rv.take(k));
        assert(rv.take(k + 1).last() == e.view_entry());
        if e.depth > 0 {
            let ghost s = entry_views(out@);
            let mut p: usize = 0;
            while p < out.len() && !listed_before(&e, &out[p])
                invariant
                    p <= out@.len(),
                    s == entry_views(out@),
                    forall|j: int| 0 <= j < p ==> !entry_before(e.view_entry(), #[trigger] s[j]),
                decreases out@.len() - p,
            {
                p += 1;
            }
            proof {
                lemma_insert_sorted_at(s, e.view_entry(), p as int);
            }
            out.insert(p, e);
            assert(entry_views(out@) =~= s.insert(p as int, e.view_entry()));
        }
    }
    assert(rv.take(rv.len() as int) =~= rv);
    out
}

/// The node, as plain values, that a walk entry becomes.
fn make_node(e: WalkEntry, depth: usize, expanded: bool) -> (n: FileNode)
    ensures
        n.view_node() == node_of(e.view_entry(), depth, expanded),
{
    let is_dir = match e.is_dir {
        Some(d) => d,
        None => false,
    };
    FileNode { path: e.path, name: e.name, is_dir, depth, expanded }
}

/// The nodes can take a node at `depth` next: the tree is empty and `depth`
/// is 0, or the last node is an expanded directory one level up.
pub open spec fn appendable(nodes: Seq<NodeView>, depth: int) -> bool {
    if nodes.len() == 0 {
        depth == 0
    } else {
        nodes.last().3 + 1 == depth && nodes.last().4
    }
}

/// The expanded flag of the first node with this path, or false where there is none.
pub open spec fn expanded_in(nodes: Seq<NodeView>, path: Seq<char>, i: int) -> bool
    decreases nodes.len() - i,
{
    if i < 0 || i >= nodes.len() {
        false
    } else if nodes[i].0 == path {
        nodes[i].4
    } else {
        expanded_in(nodes, path, i + 1)
    }
}

/// `subtree_end` lies after `sel`, and the node there (if any) is not deeper than `sel`.
proof fn lemma_subtree_end(nodes: Seq<NodeView>, sel: int, j: int)
    requires
        0 <= sel < nodes.len(),
        sel < j <= nodes.len(),
    ensures
        j <= subtree_end(nodes, sel, j) <= nodes.len(),
        subtree_end(nodes, sel, j) < nodes.len() ==> nodes[subtree_end(nodes, sel, j)].3
            <= nodes[sel].3,
        forall|k: int| j <= k < subtree_end(nodes, sel, j) ==> nodes[k].3 > nodes[sel].3,
    decreases nodes.len() - j,
{
    if j < nodes.len() && nodes[j].3 > nodes[sel].3 {
        lemma_subtree_end(nodes, sel, j + 1);
    }
}

/// Collapsing an expanded directory keeps the tree's shape.
pub proof fn lemma_collapse_keeps_shape(nodes: Seq<NodeView>, sel: int)
    requires
        tree_wf(nodes),
        0 <= sel < nodes.len(),
        nodes[sel].2,
        nodes[sel].4,
    ensures
        tree_wf(collapsed_at(nodes, sel)),
{
    lemma_subtree_end(nodes, sel, sel + 1);
    let end = subtree_end(nodes, sel, sel + 1);
    let r = collapsed_at(nodes, sel);
    assert(r.len() == sel + 1 + nodes.len() - end);
    assert forall|i: int| 0 <= i < r.len() implies r[i] == if i < sel {
        nodes[i]
    } else if i == sel {
        flipped(nodes[sel])
    } else {
        nodes[i - sel - 1 + end]
    } by {}
    assert forall|i: int| 0 <= i < r.len() - 1 implies #[trigger] r[i + 1].3 <= r[i].3 + 1 && (
    r[i + 1].3 == r[i].3 + 1 ==> r[i].4) by {
        if i < sel {
            assert(r[i + 1].3 == nodes[i + 1].3);
        } else if i == sel {
        } else {
            assert(nodes[i - sel - 1 + end + 1] == r[i + 1]);
        }
    }
    assert forall|i: int| 0 <= i < r.len() implies #[trigger] r[i].4 ==> r[i].2 by {}
}

/// Expanding a collapsed directory with children one level deeper keeps the tree's shape.
pub proof fn lemma_expand_keeps_shape(nodes: Seq<NodeView>, sel: int, children: Seq<NodeView>)
    requires
        tree_wf(nodes),
        0 <= sel < nodes.len(),
        nodes[sel].2,
        !nodes[sel].4,
        forall|k: int|
            0 <= k < children.len() ==> (#[trigger] children[k]).3 == nodes[sel].3 + 1
                && !children[k].4,
    ensures
        tree_wf(expanded_at(nodes, sel, children)),
{
    let r = expanded_at(nodes, sel, children);
    let c = children.len();
    assert(r.len() == nodes.len() + c);
    assert forall|i: int| 0 <= i < r.len() implies r[i] == if i < sel {
        nodes[i]
    } else if i == sel {
        flipped(nodes[sel])
    } else if i <= sel + c {
        children[i - sel - 1]
    } else {
        nodes[i - c]
    } by {}
    if sel + 1 < nodes.len() {
        assert(nodes[sel + 1].3 <= nodes[sel].3 + 1);
    }
    assert forall|i: int| 0 <= i < r.len() - 1 implies #[trigger] r[i + 1].3 <= r[i].3 + 1 && (
    r[i + 1].3 == r[i].3 + 1 ==> r[i].4) by {
        if i + 1 < sel {
            assert(r[i + 1] == nodes[i + 1]);
        } else if i + 1 == sel {
        } else if i + 1 <= sel + c {
        } else if i == sel + c {
            assert(r[i + 1] == nodes[sel + 1]);
        } else {
            assert(r[i + 1] == nodes[i + 1 - c]);
            assert(r[i] == nodes[i - c]);
            assert(nodes[(i - c) + 1] == nodes[i + 1 - c]);
        }
    }
    assert forall|i: int| 0 <= i < r.len() implies #[trigger] r[i].4 ==> r[i].2 by {}
}

/// Collapsing a directory just expanded gives back the tree as it was before:
/// the children that the expansion inserted are exactly what the collapse
/// removes, where nothing below the collapsed directory was shown.
pub proof fn lemma_collapse_undoes_expand(nodes: Seq<NodeView>, sel: int, children: Seq<NodeView>)
    requires
        0 <= sel < nodes.len(),
        nodes[sel].2,
        !nodes[sel].4,
        sel + 1 < nodes.len() ==> nodes[sel + 1].3 <= nodes[sel].3,
        forall|k: int| 0 <= k < children.len() ==> (#[trigger] children[k]).3 == nodes[sel].3 + 1,
    ensures
        collapsed_at(expanded_at(nodes, sel, children), sel) == nodes,
{
    let r = expanded_at(nodes, sel, children);
    let c = children.len();
    assert forall|i: int| 0 <= i < r.len() implies r[i] == if i < sel {
        nodes[i]
    } else if i == sel {
        flipped(nodes[sel])
    } else if i <= sel + c {
        children[i - sel - 1]
    } else {
        nodes[i - c]
    } by {}
    assert forall|j: int| sel + 1 <= j <= sel + 1 + c implies subtree_end(r, sel, j) == sel + 1 + c by {
        lemma_end_after_children(r, sel, j, c as int);
    }
    assert(collapsed_at(r, sel) =~= nodes);
}

/// Toggling a collapsed directory twice gives back the tree as it was,
/// whatever listing the expansion read: the first toggle expands it, the
/// second collapses it again. Nothing is shown below it beforehand, as in a
/// well-shaped tree.
pub proof fn lemma_toggle_twice(before: Seq<NodeView>, sel: int, mid: Seq<NodeView>, after: Seq<NodeView>)
    requires
        0 <= sel < before.len(),
        before[sel].2,
        !before[sel].4,
        before[sel].3 < usize::MAX,
        sel + 1 < before.len() ==> before[sel + 1].3 <= before[sel].3,
        toggled(before, sel, mid),
        toggled(mid, sel, after),
    ensures
        after == before,
{
    let listing = choose|listing: Seq<EntryView>|
        listed_from(before[sel].0, listing) && mid == expanded_at(
            before,
            sel,
            child_nodes(sorted_children(listing), (before[sel].3 + 1) as usize),
        );
    let children = child_nodes(sorted_children(listing), (before[sel].3 + 1) as usize);
    assert(mid[sel] == flipped(before[sel]));
    lemma_collapse_undoes_expand(before, sel, children);
}

/// In a well-shaped tree nothing is shown below a collapsed directory.
pub proof fn lemma_collapsed_has_no_children(nodes: Seq<NodeView>, sel: int)
    requires
        tree_wf(nodes),
        0 <= sel < nodes.len(),
        !nodes[sel].4,
    ensures
        sel + 1 < nodes.len() ==> nodes[sel + 1].3 <= nodes[sel].3,
{
    if sel + 1 < nodes.len() {
        assert(nodes[sel + 1].3 <= nodes[sel].3 + 1);
    }
}

proof fn lemma_end_after_children(r: Seq<NodeView>, sel: int, j: int, c: int)
    requires
        0 <= sel,
        sel + 1 <= j <= sel + 1 + c,
        sel + 1 + c <= r.len(),
        forall|k: int| sel + 1 <= k < sel + 1 + c ==> #[trigger] r[k].3 > r[sel].3,
        sel + 1 + c < r.len() ==> r[sel + 1 + c].3 <= r[sel].3,
    ensures
        subtree_end(r, sel, j) == sel + 1 + c,
    decreases sel + 1 + c - j,
{
    if j < sel + 1 + c {
        lemma_end_after_children(r, sel, j + 1, c);
    }
}

/// Where no node is expanded, no path is shown expanded.
proof fn lemma_none_expanded(nodes: Seq<NodeView>, path: Seq<char>, i: int)
    requires
        forall|k: int| 0 <= k < nodes.len() ==> !(#[trigger] nodes[k]).4,
    ensures
        !expanded_in(nodes, path, i),
    decreases nodes.len() - i,
{
    if 0 <= i < nodes.len() && nodes[i].0 != path {
        lemma_none_expanded(nodes, path, i + 1);
    }
}

impl FileTree {
    /// The expanded flag of the first visible node with this path, or false.
    fn expanded_of(&self, path: &String) -> (r: bool)
        ensures
            r == expanded_in(self.nodes(), path@, 0),
    {
        let mut i: usize = 0;
        while i < self.flat.len()
            invariant
                i <= self.flat@.len(),
                expanded_in(self.nodes(), path@, 0) == expanded_in(self.nodes(), path@, i as int),
            decreases self.flat@.len() - i,
        {
            if self.flat[i].path == *path {
                return self.flat[i].expanded;
            }
            i += 1;
        }
        false
    }

    /// Appends the listing of `dir` at `depth`, and below each directory that
    /// was shown expanded, its own listing one level deeper.
    fn build_from(&mut self, dir: &str, depth: usize)
        requires
            tree_wf(old(self).nodes()),
            appendable(old(self).nodes(), depth as int),
        ensures
            tree_wf(final(self).nodes()),
            final(self).nodes().take(old(self).nodes().len() as int) == old(self).nodes(),
            final(self).nodes().len() >= old(self).nodes().len(),
            final(self).nodes().len() > old(self).nodes().len() ==> final(self).nodes().last().3
                >= depth,
            final(self).root == old(self).root,
            final(self).selected == old(self).selected,
            old(self).nodes().len() == 0 ==> exists|listing: Seq<EntryView>|
                listed_from(dir@, listing) && final(self).nodes() == child_nodes(
                    sorted_children(listing),
                    depth,
                ),
        decreases usize::MAX - depth,
    {
        let ghost start = self.nodes();
        let raw = list_dir(dir);
        let ghost listing = entry_views(raw@);
        let entries = sort_children(raw);
        let ghost ev = entry_views(entries@);
        for entry in it: entries.into_iter()
            invariant
                ev == entry_views(it.seq()),
                ev == sorted_children(listing),
                start.len() == 0 ==> self.nodes() == child_nodes(ev.take(it.index() as int), depth),
                tree_wf(self.nodes()),
                self.nodes().take(start.len() as int) == start,
                self.nodes().len() >= start.len(),
                self.nodes().len() == start.len() ==> appendable(self.nodes(), depth as int),
                self.nodes().len() > start.len() ==> self.nodes().last().3 >= depth,
                self.root == old(self).root,
                self.selected == old(self).selected,
        {
            let ghost k = it.index() as int;
            let is_dir = match entry.is_dir {
                Some(d) => d,
                None => false,
            };
            proof {
                if start.len() == 0 {
                    lemma_none_expanded(self.nodes(), entry.path@, 0);
                }
            }
            let expanded = if is_dir {
                self.expanded_of(&entry.path)
            } else {
                false
            };
            assert(start.len() == 0 ==> !expanded);
            let path = entry.path.clone();
            let node = make_node(entry, depth, expanded);
            let ghost before = self.nodes();
            self.flat.push(node);
            assert(self.nodes() =~= before.push(node.view_node()));
            assert(self.nodes().take(start.len() as int) =~= before.take(start.len() as int));
            let ghost mid = self.nodes();
            if is_dir && expanded && depth < usize::MAX {
                self.build_from(path.as_str(), depth + 1);
            }
            assert(self.nodes().take(mid.len() as int) == mid);
            assert(self.nodes().len() == mid.len() ==> self.nodes() =~= mid);
            assert(self.nodes().take(start.len() as int) =~= mid.take(start.len() as int));
            assert(ev[k] == entry.view_entry());
            assert(child_nodes(ev.take(k + 1), depth) =~= child_nodes(ev.take(k), depth).push(
                node_of(ev[k], depth, false),
            ));
        }
        assert(ev.take(ev.len() as int) =~= ev);
    }

    /// Lists the root again, from scratch: its direct children, directories
    /// first and then by name, all collapsed.
    pub fn rebuild(&mut self)
        ensures
            tree_wf(final(self).nodes()),
            exists|listing: Seq<EntryView>|
                listed_from(old(self).root@, listing) && final(self).nodes() == child_nodes(
                    sorted_children(listing),
                    0,
                ),
            final(self).root == old(self).root,
            final(self).selected == old(self).selected,
    {
        self.flat.clear();
        assert(self.nodes() =~= Seq::<NodeView>::empty());
        let root = self.root.clone();
        self.build_from(root.as_str(), 0);
    }

    /// The tree of the directory `root` whose listing is `listing`: the
    /// entries below it, directories first and then by name, all collapsed,
    /// with the first one selected.
    pub fn from_listing(root: &str, listing: Vec<WalkEntry>) -> (t: FileTree)
        ensures
            t.root@ == root@,
            t.selected == 0,
            t.nodes() == child_nodes(sorted_children(entry_views(listing@)), 0),
            tree_wf(t.nodes()),
    {
        let sorted = sort_children(listing);
        let ghost ev = entry_views(sorted@);
        let mut flat: Vec<FileNode> = Vec::new();
        for e in it: sorted.into_iter()
            invariant
                ev == entry_views(it.seq()),
                flat@.map_values(|n: FileNode| n.view_node()) == child_nodes(ev.take(it.index() as int), 0),
        {
            let ghost k = it.index() as int;
            let ghost before = flat@.map_values(|n: FileNode| n.view_node());
            let node = make_node(e, 0, false);
            flat.push(node);
            assert(flat@.map_values(|n: FileNode| n.view_node()) =~= before.push(node.view_node()));
            assert(child_nodes(ev.take(k + 1), 0) =~= child_nodes(ev.take(k), 0).push(node_of(ev[k], 0, false)));
        }
        assert(ev.take(ev.len() as int) =~= ev);
        FileTree { root: String::from_str(root), flat, selected: 0 }
    }

    /// A tree of the directory `root`, listed as `rebuild` lists it, with the first node selected.
    pub fn new(root: &str) -> (r: Result<FileTree, anyhow::Error>)
        ensures
            r matches Ok(t) && t.root@ == root@ && t.selected == 0 && tree_wf(t.nodes()) && exists|
                listing: Seq<EntryView>,
            | listed_from(root@, listing) && t.nodes() == child_nodes(sorted_children(listing), 0),
    {
        let mut tree = FileTree { root: String::from_str(root), flat: Vec::new(), selected: 0 };
        tree.rebuild();
        Ok(tree)
    }

    /// The path of the selected node, if one is selected.
    pub fn selected_path(&self) -> (r: Option<&String>)
        ensures
            match r {
                Some(p) => self.selected < self.flat@.len() && p@ == self.flat@[self.selected as int].path@,
                None => self.selected >= self.flat@.len(),
            },
    {
        if self.selected < self.flat.len() {
            Some(&self.flat[self.selected].path)
        } else {
            None
        }
    }

    /// Selects the next node, stopping at the last.
    pub fn move_down(&mut self)
        ensures
            final(self).selected == step_down(old(self).selected as int, old(self).flat@.len() as int),
            final(self).flat == old(self).flat,
            final(self).root == old(self).root,
    {
        if self.selected < self.flat.len() && self.selected + 1 < self.flat.len() {
            self.selected += 1;
        }
    }

    /// Selects the previous node, stopping at the first.
    pub fn move_up(&mut self)
        ensures
            final(self).selected == step_up(old(self).selected as int),
            final(self).flat == old(self).flat,
            final(self).root == old(self).root,
    {
        if self.selected > 0 {
            self.selected -= 1;
        }
    }
}

/// The index of the last node before `i` that is shallower than `d`, or -1.
pub open spec fn last_shallower(nodes: Seq<NodeView>, d: int, i: int) -> int
    decreases i,
{
    if i <= 0 {
        -1
    } else if nodes[i - 1].3 < d {
        i - 1
    } else {
        last_shallower(nodes, d, i - 1)
    }
}

/// In a well-shaped tree, the last node before a nested node that is
/// shallower than it is its folder: an expanded directory one level up.
pub proof fn lemma_parent_is_folder(nodes: Seq<NodeView>, sel: int)
    requires
        tree_wf(nodes),
        0 <= sel < nodes.len(),
        nodes[sel].3 > 0,
    ensures
        0 <= last_shallower(nodes, nodes[sel].3 as int, sel) < sel,
        nodes[last_shallower(nodes, nodes[sel].3 as int, sel)].3 + 1 == nodes[sel].3,
        nodes[last_shallower(nodes, nodes[sel].3 as int, sel)].2,
        nodes[last_shallower(nodes, nodes[sel].3 as int, sel)].4,
{
    lemma_last_shallower(nodes, nodes[sel].3 as int, sel);
}

proof fn lemma_last_shallower(nodes: Seq<NodeView>, d: int, i: int)
    requires
        tree_wf(nodes),
        0 < i < nodes.len(),
        nodes[i].3 >= d,
        d > 0,
    ensures
        0 <= last_shallower(nodes, d, i) < i,
        nodes[last_shallower(nodes, d, i)].3 + 1 == d,
        nodes[last_shallower(nodes, d, i)].4,
        nodes[last_shallower(nodes, d, i)].2,
    decreases i,
{
    assert(nodes[(i - 1) + 1].3 <= nodes[i - 1].3 + 1);
    if nodes[i - 1].3 < d {
        assert(nodes[(i - 1) + 1].3 == nodes[i - 1].3 + 1);
        assert(nodes[i - 1].4);
    } else {
        if i - 1 == 0 {
            assert(nodes[0].3 == 0);
        }
        lemma_last_shallower(nodes, d, i - 1);
    }
}

/// The paths of the entries that are regular files.
pub open spec fn file_paths(s: Seq<EntryView>) -> Seq<Seq<char>>
    decreases s.len(),
{
    if s.len() == 0 {
        Seq::empty()
    } else if s.last().3 == Some(true) {
        file_paths(s.drop_last()).push(s.last().0)
    } else {
        file_paths(s.drop_last())
    }
}

/// The views of a vector of strings.
pub open spec fn string_views(v: Seq<String>) -> Seq<Seq<char>> {
    v.map_values(|s: String| s@)
}

/// The paths of the regular files among `entries`, in order.
pub fn file_paths_of(entries: Vec<WalkEntry>) -> (r: Vec<String>)
    ensures
        string_views(r@) == file_paths(entry_views(entries@)),
{
    let ghost ev = entry_views(entries@);
    let mut out: Vec<String> = Vec::new();
    for e in it: entries.into_iter()
        invariant
            ev == entry_views(it.seq()),
            string_views(out@) == file_paths(ev.take(it.index() as int)),
    {
        let ghost k = it.index() as int;
        assert(ev.take(k + 1).drop_last() =~= ev.take(k));
        assert(ev.take(k + 1).last() == e.view_entry());
        let is_file = match e.is_file {
            Some(f) => f,
            None => false,
        };
        if is_file {
            let ghost before = string_views(out@);
            out.push(e.path);
            assert(string_views(out@) =~= before.push(e.view_entry().0));
        }
    }
    assert(ev.take(ev.len() as int) =~= ev);
    out
}

/// The paths of all regular files under `root`, walked with the default
/// filters of `ignore` (hidden and git-ignored files left out).
pub fn collect_all_files(root: &str) -> (r: Vec<String>)
    ensures
        exists|listing: Seq<EntryView>| walked_from(root@, listing) && string_views(r@) == file_paths(listing),
{
    let entries = walk_all(root);
    let ghost listing = entry_views(entries@);
    file_paths_of(entries)
}

impl FileTree {
    /// Marks the expanded directory at the selection collapsed and removes the
    /// nodes below it.
    fn collapse_selected(&mut self)
        requires
            old(self).selected < old(self).flat@.len(),
            old(self).flat@[old(self).selected as int].is_dir,
            old(self).flat@[old(self).selected as int].expanded,
        ensures
            final(self).nodes() == collapsed_at(old(self).nodes(), old(self).selected as int),
            final(self).root == old(self).root,
            final(self).selected == old(self).selected,
    {
        let ghost nodes = self.nodes();
        let sel = self.selected;
        let len = self.flat.len();
        let depth = self.flat[sel].depth;
        let mut end = sel + 1;
        while end < self.flat.len() && self.flat[end].depth > depth
            invariant
                sel < end <= self.flat@.len(),
                nodes == self.nodes(),
                depth == nodes[sel as int].3,
                subtree_end(nodes, sel as int, sel + 1) == subtree_end(nodes, sel as int, end as int),
            decreases self.flat@.len() - end,
        {
            end += 1;
        }
        let mut tail = self.flat.split_off(end);
        self.flat.truncate(sel + 1);
        let mut node = self.flat.pop().unwrap();
        node.expanded = !node.expanded;
        self.flat.push(node);
        self.flat.append(&mut tail);
        assert(self.nodes() =~= collapsed_at(nodes, sel as int));
    }

    /// Marks the collapsed directory at the selection expanded and shows the
    /// entries of `listing` below it, one level deeper, in listing order.
    pub fn expand_selected(&mut self, listing: Vec<WalkEntry>)
        requires
            old(self).selected < old(self).flat@.len(),
            old(self).flat@[old(self).selected as int].is_dir,
            !old(self).flat@[old(self).selected as int].expanded,
            old(self).flat@[old(self).selected as int].depth < usize::MAX,
        ensures
            final(self).nodes() == expanded_at(
                old(self).nodes(),
                old(self).selected as int,
                child_nodes(
                    sorted_children(entry_views(listing@)),
                    (old(self).flat@[old(self).selected as int].depth + 1) as usize,
                ),
            ),
            final(self).root == old(self).root,
            final(self).selected == old(self).selected,
    {
        let ghost nodes = self.nodes();
        let sel = self.selected;
        let len = self.flat.len();
        let depth = self.flat[sel].depth + 1;
        let sorted = sort_children(listing);
        let ghost sv = entry_views(sorted@);
        let mut children: Vec<FileNode> = Vec::new();
        for e in it: sorted.into_iter()
            invariant
                sv == entry_views(it.seq()),
                children@.map_values(|n: FileNode| n.view_node()) == child_nodes(
                    sv.take(it.index() as int),
                    depth,
                ),
        {
            let ghost k = it.index() as int;
            let ghost before = children@.map_values(|n: FileNode| n.view_node());
            let node = make_node(e, depth, false);
            children.push(node);
            assert(sv.take(k + 1) =~= sv.take(k).push(e.view_entry()));
            assert(children@.map_values(|n: FileNode| n.view_node()) =~= before.push(node.view_node()));
            assert(child_nodes(sv.take(k + 1), depth) =~= child_nodes(sv.take(k), depth).push(
                node_of(e.view_entry(), depth, false),
            ));
            assert(children@.map_values(|n: FileNode| n.view_node()) =~= child_nodes(
                sv.take(k + 1),
                depth,
            ));
        }
        assert(sv.take(sv.len() as int) =~= sv);
        let ghost cv = children@.map_values(|n: FileNode| n.view_node());
        let mut tail = self.flat.split_off(sel + 1);
        let mut node = self.flat.pop().unwrap();
        node.expanded = !node.expanded;
        self.flat.push(node);
        self.flat.append(&mut children);
        self.flat.append(&mut tail);
        assert(self.nodes() =~= expanded_at(nodes, sel as int, cv));
    }

    /// Expands the selected directory, listing it from disk, or collapses it
    /// if it is expanded; does nothing where the selection is not a directory.
    pub fn toggle_expand(&mut self)
        requires
            old(self).selected < old(self).flat@.len() && old(self).flat@[old(self).selected as int].is_dir && !old(self).flat@[old(self).selected as int].expanded
                ==> old(self).flat@[old(self).selected as int].depth < usize::MAX,
        ensures
            final(self).root == old(self).root,
            final(self).selected == old(self).selected,
            tree_wf(old(self).nodes()) ==> tree_wf(final(self).nodes()),
            if old(self).selected < old(self).flat@.len() && old(self).flat@[old(self).selected as int].is_dir {
                if old(self).flat@[old(self).selected as int].expanded {
                    final(self).nodes() == collapsed_at(old(self).nodes(), old(self).selected as int)
                } else {
                    exists|listing: Seq<EntryView>|
                        listed_from(old(self).flat@[old(self).selected as int].path@, listing)
                            && final(self).nodes() == expanded_at(
                            old(self).nodes(),
                            old(self).selected as int,
                            child_nodes(
                                sorted_children(listing),
                                (old(self).flat@[old(self).selected as int].depth + 1) as usize,
                            ),
                        )
                }
            } else {
                final(self).flat == old(self).flat
            },
    {
        let ghost nodes = self.nodes();
        if self.selected < self.flat.len() && self.flat[self.selected].is_dir {
            let sel = self.selected;
            assert(nodes[sel as int] == self.flat@[sel as int].view_node());
            if self.flat[sel].expanded {
                self.collapse_selected();
                proof {
                    if tree_wf(nodes) {
                        lemma_collapse_keeps_shape(nodes, sel as int);
                    }
                }
            } else {
                let listing = list_dir(self.flat[sel].path.as_str());
                let ghost lv = entry_views(listing@);
                let ghost d = (self.flat@[sel as int].depth + 1) as usize;
                self.expand_selected(listing);
                proof {
                    let ch = child_nodes(sorted_children(lv), d);
                    if tree_wf(nodes) {
                        lemma_expand_keeps_shape(nodes, sel as int, ch);
                    }
                }
            }
        }
    }

    /// Collapses the selected directory if it is expanded; otherwise selects
    /// the folder that holds the selected node.
    pub fn collapse_or_parent(&mut self)
        ensures
            final(self).root == old(self).root,
            left_step(
                old(self).nodes(),
                old(self).selected as int,
                final(self).nodes(),
                final(self).selected as int,
            ),
            tree_wf(old(self).nodes()) ==> tree_wf(final(self).nodes()),
            if old(self).selected < old(self).flat@.len() {
                let sel = old(self).selected as int;
                let n = old(self).nodes()[sel];
                if n.2 && n.4 {
                    &&& final(self).nodes() == collapsed_at(old(self).nodes(), sel)
                    &&& final(self).selected == old(self).selected
                } else {
                    let p = last_shallower(old(self).nodes(), n.3 as int, sel);
                    &&& final(self).flat == old(self).flat
                    &&& final(self).selected == if n.3 > 0 && p >= 0 {
                        p
                    } else {
                        sel
                    }
                }
            } else {
                final(self).flat == old(self).flat && final(self).selected == old(self).selected
            },
    {
        let ghost nodes = self.nodes();
        if self.selected < self.flat.len() {
            let sel = self.selected;
            let depth = self.flat[sel].depth;
            assert(nodes[sel as int] == self.flat@[sel as int].view_node());
            if self.flat[sel].is_dir && self.flat[sel].expanded {
                self.collapse_selected();
                proof {
                    if tree_wf(nodes) {
                        lemma_collapse_keeps_shape(nodes, sel as int);
                    }
                }
            } else if depth > 0 {
                let mut i = sel;
                while i > 0
                    invariant
                        i <= sel,
                        sel < self.flat@.len(),
                        nodes == self.nodes(),
                        self.flat == old(self).flat,
                        self.selected == sel,
                        self.root == old(self).root,
                        depth == nodes[sel as int].3,
                        depth > 0,
                        sel == old(self).selected,
                        nodes == old(self).nodes(),
                        !(nodes[sel as int].2 && nodes[sel as int].4),
                        last_shallower(nodes, depth as int, sel as int) == last_shallower(
                            nodes,
                            depth as int,
                            i as int,
                        ),
                    decreases i,
                {
                    assert(nodes[i - 1] == self.flat@[i - 1].view_node());
                    if self.flat[i - 1].depth < depth {
                        assert(last_shallower(nodes, depth as int, i as int) == i - 1);
                        self.selected = i - 1;
                        return;
                    }
                    i -= 1;
                }
            }
        }
    }
}

/// In a well-shaped tree no node lies deeper than its index.
pub proof fn lemma_depth_bounded(nodes: Seq<NodeView>, i: int)
    requires
        tree_wf(nodes),
        0 <= i < nodes.len(),
    ensures
        nodes[i].3 <= i,
    decreases i,
{
    if i > 0 {
        lemma_depth_bounded(nodes, i - 1);
        assert(nodes[(i - 1) + 1].3 <= nodes[i - 1].3 + 1);
    }
}

/// No name comes before itself.
proof fn lemma_seq_lt_irrefl(a: Seq<char>)
    ensures
        !seq_lt(a, a),
    decreases a.len(),
{
    if a.len() > 0 {
        lemma_seq_lt_irrefl(a.drop_first());
    }
}

/// The order of names is transitive.
proof fn lemma_seq_lt_trans(a: Seq<char>, b: Seq<char>, c: Seq<char>)
    requires
        seq_lt(a, b),
        seq_lt(b, c),
    ensures
        seq_lt(a, c),
    decreases a.len(),
{
    if a.len() > 0 && b.len() > 0 && c.len() > 0 && a[0] == b[0] && b[0] == c[0] {
        lemma_seq_lt_trans(a.drop_first(), b.drop_first(), c.drop_first());
    }
}

/// No entry is listed before itself, and the listing order is transitive.
proof fn lemma_before_order(x: EntryView, y: EntryView, z: EntryView)
    ensures
        !entry_before(x, x),
        entry_before(x, y) && entry_before(y, z) ==> entry_before(x, z),
{
    lemma_seq_lt_irrefl(x.1);
    if entry_before(x, y) && entry_before(y, z) && entry_is_dir(x) == entry_is_dir(y)
        && entry_is_dir(y) == entry_is_dir(z) {
        lemma_seq_lt_trans(x.1, y.1, z.1);
    }
}

/// No entry is listed before one that comes earlier.
pub open spec fn entries_sorted(s: Seq<EntryView>) -> bool {
    forall|i: int, j: int| 0 <= i < j < s.len() ==> !entry_before(#[trigger] s[j], #[trigger] s[i])
}

/// The entries of a walk that lie below its root, in walk order.
pub open spec fn below_root(s: Seq<EntryView>) -> Seq<EntryView>
    decreases s.len(),
{
    if s.len() == 0 {
        Seq::empty()
    } else if s.last().4 > 0 {
        below_root(s.drop_last()).push(s.last())
    } else {
        below_root(s.drop_last())
    }
}

/// The first index from `j` on whose entry `e` is listed before, or the length.
spec fn insert_pos(s: Seq<EntryView>, e: EntryView, j: int) -> int
    decreases s.len() - j,
{
    if j >= s.len() || j < 0 {
        s.len() as int
    } else if entry_before(e, s[j]) {
        j
    } else {
        insert_pos(s, e, j + 1)
    }
}

proof fn lemma_insert_pos(s: Seq<EntryView>, e: EntryView, j: int)
    requires
        0 <= j <= s.len(),
        forall|k: int| 0 <= k < j ==> !entry_before(e, #[trigger] s[k]),
    ensures
        j <= insert_pos(s, e, j) <= s.len(),
        forall|k: int| 0 <= k < insert_pos(s, e, j) ==> !entry_before(e, #[trigger] s[k]),
        insert_pos(s, e, j) < s.len() ==> entry_before(e, s[insert_pos(s, e, j)]),
    decreases s.len() - j,
{
    if j < s.len() && !entry_before(e, s[j]) {
        lemma_insert_pos(s, e, j + 1);
    }
}

/// Inserting into a sorted listing keeps it sorted and adds just the new entry.
#[verifier::rlimit(40)]
#[verifier::spinoff_prover]
proof fn lemma_insert_keeps_sorted(s: Seq<EntryView>, e: EntryView)
    requires
        entries_sorted(s),
    ensures
        entries_sorted(insert_sorted(s, e)),
        insert_sorted(s, e).to_multiset() == s.to_multiset().insert(e),
{
    lemma_insert_pos(s, e, 0);
    let p = insert_pos(s, e, 0);
    lemma_insert_sorted_at(s, e, p);
    let r = insert_sorted(s, e);
    assert(r == s.insert(p, e));
    vstd::seq_lib::to_multiset_insert(s, p, e);
    s.insert_ensures(p, e);
    assert forall|i: int, j: int| 0 <= i < j < r.len() implies !entry_before(#[trigger] r[j], #[trigger] r[i]) by {
        let x = if i < p { s[i] } else if i == p { e } else { s[i - 1] };
        let y = if j < p { s[j] } else if j == p { e } else { s[j - 1] };
        assert(r[i] == x);
        assert(r[j] == y);
        lemma_before_order(y, x, x);
        if i == p {
            // y = s[j - 1] with j - 1 >= p, and e is listed before s[p].
            lemma_before_order(y, e, s[p]);
            if j - 1 > p {
                assert(!entry_before(s[j - 1], s[p]));
            }
        } else if j == p {
            // x = s[i] with i < p.
            lemma_before_order(e, s[i], s[i]);
        }
    }
}

/// An entry is among those below the walk's root exactly when the walk
/// holds it and it lies deeper than the root.
proof fn lemma_below_root_contains(s: Seq<EntryView>, e: EntryView)
    ensures
        below_root(s).contains(e) <==> (s.contains(e) && e.4 > 0),
    decreases s.len(),
{
    if s.len() > 0 {
        lemma_below_root_contains(s.drop_last(), e);
        if s.contains(e) && e != s.last() {
            let k = choose|k: int| 0 <= k < s.len() && s[k] == e;
            assert(s.drop_last()[k] == e);
        }
        if s.drop_last().contains(e) {
            let k = choose|k: int| 0 <= k < s.drop_last().len() && s.drop_last()[k] == e;
            assert(s[k] == e);
        }
        if s.last().4 > 0 {
            assert(below_root(s) == below_root(s.drop_last()).push(s.last()));
            if below_root(s).contains(e) && e != s.last() {
                let k = choose|k: int| 0 <= k < below_root(s).len() && below_root(s)[k] == e;
                assert(below_root(s.drop_last())[k] == e);
            }
            if below_root(s.drop_last()).contains(e) {
                let k = choose|k: int| 0 <= k < below_root(s.drop_last()).len() && below_root(s.drop_last())[k] == e;
                assert(below_root(s)[k] == e);
            }
            assert(below_root(s)[below_root(s).len() - 1] == s.last());
            assert(s[s.len() - 1] == s.last());
        }
    }
}

/// Each row that expanding the directory at `sel` adds below it is the
/// node of an entry of the listing that lies below the listed directory.
proof fn lemma_expansion_rows_listed(nodes: Seq<NodeView>, sel: int, listing: Seq<EntryView>)
    requires
        0 <= sel < nodes.len(),
        nodes[sel].3 < usize::MAX,
    ensures
        forall|j: int|
            sel < j <= sel + below_root(listing).len() ==> {
                let e = #[trigger] sorted_children(listing)[j - sel - 1];
                &&& listing.contains(e)
                &&& e.4 > 0
                &&& expansion(nodes, sel, listing)[j] == node_of(e, (nodes[sel].3 + 1) as usize, false)
            },
{
    broadcast use vstd::seq_lib::group_to_multiset_ensures;

    let d = (nodes[sel].3 + 1) as usize;
    let kids = sorted_children(listing);
    let ch = child_nodes(kids, d);
    let after = expansion(nodes, sel, listing);
    assert(after == expanded_at(nodes, sel, ch));
    lemma_sorted_children(listing);
    assert(kids.to_multiset().len() == below_root(listing).to_multiset().len());
    assert forall|j: int| sel < j <= sel + below_root(listing).len() implies {
        let e = #[trigger] sorted_children(listing)[j - sel - 1];
        &&& listing.contains(e)
        &&& e.4 > 0
        &&& expansion(nodes, sel, listing)[j] == node_of(e, (nodes[sel].3 + 1) as usize, false)
    } by {
        let m = j - sel - 1;
        let e = kids[m];
        assert(kids[m] == e);
        assert(kids.contains(e));
        assert(kids.to_multiset().count(e) > 0);
        assert(below_root(listing).to_multiset().count(e) > 0);
        lemma_below_root_contains(listing, e);
        assert(after[j] == ch[m]);
        assert(ch[m] == node_of(e, d, false));
        assert(listing.contains(e) && e.4 > 0 && after[j] == node_of(e, d, false));
    }
}

/// Expanding the collapsed directory at `sel` with the listing `listing`
/// adds right below it, one level deeper, as many rows as the listing has
/// entries below the directory: each row is the node of such an entry, and
/// each such entry has a row. The directory is marked expanded and every
/// other row stays, in order.
pub proof fn lemma_expansion_shows_listing(nodes: Seq<NodeView>, sel: int, listing: Seq<EntryView>)
    requires
        0 <= sel < nodes.len(),
        nodes[sel].3 < usize::MAX,
    ensures
        sorted_children(listing).len() == below_root(listing).len(),
        expansion(nodes, sel, listing).len() == nodes.len() + below_root(listing).len(),
        expansion(nodes, sel, listing)[sel] == flipped(nodes[sel]),
        forall|j: int| 0 <= j < sel ==> #[trigger] expansion(nodes, sel, listing)[j] == nodes[j],
        forall|j: int|
            sel < j < nodes.len() ==> expansion(nodes, sel, listing)[j + below_root(listing).len()]
                == #[trigger] nodes[j],
        forall|e: EntryView|
            #[trigger] listing.contains(e) && e.4 > 0 ==> exists|j: int|
                sel < j <= sel + below_root(listing).len() && expansion(nodes, sel, listing)[j]
                    == node_of(e, (nodes[sel].3 + 1) as usize, false),
        forall|j: int|
            sel < j <= sel + below_root(listing).len() ==> {
                let e = #[trigger] sorted_children(listing)[j - sel - 1];
                &&& listing.contains(e)
                &&& e.4 > 0
                &&& expansion(nodes, sel, listing)[j] == node_of(e, (nodes[sel].3 + 1) as usize, false)
            },
{
    broadcast use vstd::seq_lib::group_to_multiset_ensures;

    let d = (nodes[sel].3 + 1) as usize;
    let kids = sorted_children(listing);
    let c = kids.len() as int;
    let ch = child_nodes(kids, d);
    let after = expansion(nodes, sel, listing);
    assert(after == expanded_at(nodes, sel, ch));
    lemma_sorted_children(listing);
    assert(kids.to_multiset().len() == below_root(listing).to_multiset().len());
    assert(c == below_root(listing).len());
    assert forall|j: int| 0 <= j < sel implies #[trigger] expansion(nodes, sel, listing)[j] == nodes[j] by {}
    assert forall|j: int| sel < j < nodes.len() implies expansion(nodes, sel, listing)[j + c]
        == #[trigger] nodes[j] by {}
    assert forall|e: EntryView| #[trigger] listing.contains(e) && e.4 > 0 implies exists|j: int|
        sel < j <= sel + c && expansion(nodes, sel, listing)[j] == node_of(e, d, false) by {
        lemma_below_root_contains(listing, e);
        assert(below_root(listing).to_multiset().count(e) > 0);
        assert(kids.to_multiset().count(e) > 0);
        let m = choose|m: int| 0 <= m < kids.len() && kids[m] == e;
        assert(after[sel + 1 + m] == ch[m]);
    }
    lemma_expansion_rows_listed(nodes, sel, listing);
    assert(after.len() == nodes.len() + c);
    assert(after[sel] == flipped(nodes[sel]));
}

/// The paths that the open-file dialog is given are exactly the regular
/// files of the walk: each file the walk met is among them, and each of
/// them is a file the walk met.
pub proof fn lemma_file_paths_are_the_files(s: Seq<EntryView>)
    ensures
        forall|e: EntryView| s.contains(e) && e.3 == Some(true) ==> file_paths(s).contains(e.0),
        forall|p: Seq<char>|
            #[trigger] file_paths(s).contains(p) ==> exists|e: EntryView|
                s.contains(e) && e.3 == Some(true) && e.0 == p,
    decreases s.len(),
{
    if s.len() > 0 {
        let t = s.drop_last();
        lemma_file_paths_are_the_files(t);
        assert forall|e: EntryView| s.contains(e) && e.3 == Some(true) implies file_paths(s).contains(e.0) by {
            let k = choose|k: int| 0 <= k < s.len() && s[k] == e;
            if k < s.len() - 1 {
                assert(t[k] == e);
                assert(t.contains(e));
                assert(file_paths(t).contains(e.0));
                let q = choose|q: int| 0 <= q < file_paths(t).len() && file_paths(t)[q] == e.0;
                if s.last().3 == Some(true) {
                    assert(file_paths(s) == file_paths(t).push(s.last().0));
                    assert(file_paths(s)[q] == e.0);
                } else {
                    assert(file_paths(s) == file_paths(t));
                }
            } else {
                assert(file_paths(s) == file_paths(t).push(e.0));
                assert(file_paths(s)[file_paths(t).len() as int] == e.0);
            }
        }
        assert forall|p: Seq<char>| #[trigger] file_paths(s).contains(p) implies exists|e: EntryView|
            s.contains(e) && e.3 == Some(true) && e.0 == p by {
            let q = choose|q: int| 0 <= q < file_paths(s).len() && file_paths(s)[q] == p;
            if s.last().3 == Some(true) {
                assert(file_paths(s) == file_paths(t).push(s.last().0));
            } else {
                assert(file_paths(s) == file_paths(t));
            }
            if s.last().3 == Some(true) && q == file_paths(t).len() {
                assert(s[s.len() - 1] == s.last());
                assert(s.contains(s.last()));
            } else {
                assert(file_paths(t)[q] == p);
                assert(file_paths(t).contains(p));
                let e = choose|e: EntryView| t.contains(e) && e.3 == Some(true) && e.0 == p;
                let k = choose|k: int| 0 <= k < t.len() && t[k] == e;
                assert(s[k] == e);
                assert(s.contains(e));
            }
        }
    }
}

/// The listing of a directory's entries puts directories first, then orders
/// by name, and holds each entry below the walk's root as often as the walk does.
pub proof fn lemma_sorted_children(s: Seq<EntryView>)
    ensures
        entries_sorted(sorted_children(s)),
        sorted_children(s).to_multiset() == below_root(s).to_multiset(),
    decreases s.len(),
{
    broadcast use vstd::seq_lib::group_to_multiset_ensures;

    if s.len() > 0 {
        lemma_sorted_children(s.drop_last());
        if s.last().4 > 0 {
            lemma_insert_keeps_sorted(sorted_children(s.drop_last()), s.last());
        }
    } else {
        assert(sorted_children(s).to_multiset() =~= below_root(s).to_multiset());
    }
}

} // verus!
