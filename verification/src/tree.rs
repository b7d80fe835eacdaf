//! The tree view: the keys of the store, flattened into a list of folder
//! and file nodes that leaves out what lies under a collapsed folder.

use crate::cache::{Database, DatabaseView};
use crate::path::{hides, is_boundary, lies_below};
use crate::text::{blank_prefix, is_blank, prefix_is, text_of, to_chars};
use vstd::prelude::*;

verus! {

/// Whether a node stands for a folder or for a stored file.
#[derive(Clone, Copy, Debug, PartialEq, Eq, Structural)]
pub enum NodeKind {
    Folder,
    File,
}

/// One line of the tree view.
#[derive(Debug, PartialEq, Eq)]
pub struct TreeNode {
    /// The last segment of the path.
    pub name: String,
    /// The place of the node in the list.
    pub index: usize,
    /// The path from the root: a key, or a key up to one of its slashes.
    pub full_path: String,
    /// The number of folders above the node.
    pub ident: usize,
    /// Whether the node is the file shown in the editor.
    pub open: bool,
    pub kind: NodeKind,
}

/// What a [`TreeNode`] holds, as plain values.
pub ghost struct TreeNodeView {
    pub name: Seq<char>,
    pub index: int,
    pub full_path: Seq<char>,
    pub ident: int,
    pub open: bool,
    pub kind: NodeKind,
}

impl View for TreeNode {
    type V = TreeNodeView;

    open spec fn view(&self) -> TreeNodeView {
        TreeNodeView {
            name: self.name@,
            index: self.index as int,
            full_path: self.full_path@,
            ident: self.ident as int,
            open: self.open,
            kind: self.kind,
        }
    }
}

/// The views of a list of nodes.
pub open spec fn node_views(list: Seq<TreeNode>) -> Seq<TreeNodeView> {
    Seq::new(list.len(), |i: int| list[i]@)
}

/// Where the segment of `key` that begins at `from` ends: at the next slash,
/// or at the end of the key.
pub open spec fn segment_end(key: Seq<char>, from: int) -> int
    decreases key.len() - from,
{
    if from < 0 || from >= key.len() || key[from] == '/' {
        from
    } else {
        segment_end(key, from + 1)
    }
}

/// The node for the segment of `key` from `from` to `end`, `depth` folders
/// down, at the place `index` of the list: a file where the segment is the
/// last of the key, else a folder.
pub open spec fn node_at(key: Seq<char>, from: int, end: int, depth: int, index: int) -> TreeNodeView {
    TreeNodeView {
        name: key.subrange(from, end),
        index,
        full_path: key.take(end),
        ident: depth,
        open: false,
        kind: if end == key.len() {
            NodeKind::File
        } else {
            NodeKind::Folder
        },
    }
}

/// Some node of the list has the path `path`.
pub open spec fn has_path(nodes: Seq<TreeNodeView>, path: Seq<char>) -> bool {
    exists|i: int| 0 <= i < nodes.len() && (#[trigger] nodes[i]).full_path == path
}

/// The list once the node for the segment from `from` to `end` has been
/// offered: it is added at the end, unless its path is blank or a node of
/// that path is in the list already.
pub open spec fn offered(
    nodes: Seq<TreeNodeView>,
    key: Seq<char>,
    from: int,
    end: int,
    depth: int,
) -> Seq<TreeNodeView> {
    if is_blank(key.take(end)) || has_path(nodes, key.take(end)) {
        nodes
    } else {
        nodes.push(node_at(key, from, end, depth, nodes.len() as int))
    }
}

/// The list once the segments of `key` from the one that begins at `from`,
/// `depth` folders down, have been gone through: each segment is offered as
/// a node, and below a collapsed folder nothing more is.
pub open spec fn pushed(
    collapsed: Set<Seq<char>>,
    nodes: Seq<TreeNodeView>,
    key: Seq<char>,
    from: int,
    depth: int,
) -> Seq<TreeNodeView>
    decreases key.len() - from,
{
    if from < 0 || from > key.len() {
        nodes
    } else {
        let end = segment_end(key, from);
        let next = offered(nodes, key, from, end, depth);
        if end >= key.len() || hides(collapsed, key.take(end)) {
            next
        } else {
            proof {
                lemma_segment_end(key, from);
            }
            pushed(collapsed, next, key, end + 1, depth + 1)
        }
    }
}

/// The tree of the first `n` keys of the store.
pub open spec fn tree_upto(store: DatabaseView, n: nat) -> Seq<TreeNodeView>
    decreases n,
{
    if n == 0 || n > store.order.len() {
        Seq::empty()
    } else {
        pushed(store.collapsed, tree_upto(store, (n - 1) as nat), store.order[n - 1], 0, 0)
    }
}

/// The tree of the store: its keys gone through in their order.
pub open spec fn file_tree(store: DatabaseView) -> Seq<TreeNodeView> {
    tree_upto(store, store.order.len())
}

/// A segment ends at or behind its start, where the key has a slash or
/// ends, and has no slash inside.
pub proof fn lemma_segment_end(key: Seq<char>, from: int)
    requires
        0 <= from <= key.len(),
    ensures
        from <= segment_end(key, from) <= key.len(),
        is_boundary(key, segment_end(key, from)),
        forall|i: int| from <= i < segment_end(key, from) ==> key[i] != '/',
    decreases key.len() - from,
{
    if from < key.len() && key[from] != '/' {
        lemma_segment_end(key, from + 1);
    }
}

/// No two nodes of the list have the same path.
pub open spec fn distinct_paths(nodes: Seq<TreeNodeView>) -> bool {
    forall|i: int, j: int|
        0 <= i < j < nodes.len() ==> (#[trigger] nodes[i]).full_path != (#[trigger] nodes[j]).full_path
}

/// Each node holds its own place in the list.
pub open spec fn indexed(nodes: Seq<TreeNodeView>) -> bool {
    forall|i: int| 0 <= i < nodes.len() ==> (#[trigger] nodes[i]).index == i
}

/// No node lies under a collapsed folder: none has a path that goes on with
/// a slash behind a path that the collapsed set hides.
pub open spec fn nothing_below_collapsed(collapsed: Set<Seq<char>>, nodes: Seq<TreeNodeView>) -> bool {
    forall|i: int, p: int|
        0 <= i < nodes.len() && 0 <= p < (#[trigger] nodes[i]).full_path.len()
            && nodes[i].full_path[p] == '/' ==> !hides(
            collapsed,
            #[trigger] nodes[i].full_path.take(p),
        )
}

/// Going through a key keeps the paths of the list distinct and the places
/// right, adds only nodes that start with the key up to a slash that no
/// collapsed folder hides, and keeps the nodes that were there.
pub proof fn lemma_pushed(
    collapsed: Set<Seq<char>>,
    nodes: Seq<TreeNodeView>,
    key: Seq<char>,
    from: int,
    depth: int,
)
    requires
        0 <= from <= key.len(),
        distinct_paths(nodes),
        indexed(nodes),
        nothing_below_collapsed(collapsed, nodes),
        forall|q: int| 0 <= q < from && key[q] == '/' ==> !hides(collapsed, #[trigger] key.take(q)),
    ensures
        distinct_paths(pushed(collapsed, nodes, key, from, depth)),
        indexed(pushed(collapsed, nodes, key, from, depth)),
        nothing_below_collapsed(collapsed, pushed(collapsed, nodes, key, from, depth)),
        nodes.len() <= pushed(collapsed, nodes, key, from, depth).len(),
        pushed(collapsed, nodes, key, from, depth).take(nodes.len() as int) == nodes,
    decreases key.len() - from,
{
    let end = segment_end(key, from);
    lemma_segment_end(key, from);
    let next = offered(nodes, key, from, end, depth);
    assert(next.take(nodes.len() as int) == nodes);
    assert(nothing_below_collapsed(collapsed, next)) by {
        assert forall|i: int, p: int|
            0 <= i < next.len() && 0 <= p < (#[trigger] next[i]).full_path.len()
                && next[i].full_path[p] == '/' implies !hides(
            collapsed,
            #[trigger] next[i].full_path.take(p),
        ) by {
            if i < nodes.len() {
                assert(next[i] == nodes[i]);
            } else {
                assert(next[i].full_path == key.take(end));
                assert(key.take(end).take(p) == key.take(p));
                assert(key.take(end)[p] == key[p]);
            }
        }
    }
    if end >= key.len() || hides(collapsed, key.take(end)) {
    } else {
        assert forall|q: int| 0 <= q < end + 1 && key[q] == '/' implies !hides(
            collapsed,
            #[trigger] key.take(q),
        ) by {
            if q >= from {
                assert(q == end);
            }
        }
        lemma_pushed(collapsed, next, key, end + 1, depth + 1);
        let last = pushed(collapsed, next, key, end + 1, depth + 1);
        assert(last.take(nodes.len() as int) == last.take(next.len() as int).take(
            nodes.len() as int,
        ));
    }
}

/// The tree of a store has no path twice, holds each node at its place, and
/// shows nothing under a collapsed folder.
pub proof fn lemma_tree(store: DatabaseView, n: nat)
    requires
        n <= store.order.len(),
    ensures
        distinct_paths(tree_upto(store, n)),
        indexed(tree_upto(store, n)),
        nothing_below_collapsed(store.collapsed, tree_upto(store, n)),
    decreases n,
{
    if n > 0 {
        lemma_tree(store, (n - 1) as nat);
        lemma_pushed(store.collapsed, tree_upto(store, (n - 1) as nat), store.order[n - 1], 0, 0);
    }
}

/// No folder above `key` is hidden: the collapsed set hides none of the
/// paths that `key` has up to one of its slashes.
pub open spec fn shown_from(collapsed: Set<Seq<char>>, key: Seq<char>, from: int) -> bool {
    forall|q: int| from <= q < key.len() && key[q] == '/' ==> !hides(collapsed, #[trigger] key.take(q))
}

/// Going through a key whose folders are not hidden puts its own path into
/// the list, unless the path is blank.
pub proof fn lemma_pushed_reaches(
    collapsed: Set<Seq<char>>,
    nodes: Seq<TreeNodeView>,
    key: Seq<char>,
    from: int,
    depth: int,
)
    requires
        0 <= from <= key.len(),
        shown_from(collapsed, key, from),
        !is_blank(key),
    ensures
        has_path(pushed(collapsed, nodes, key, from, depth), key),
    decreases key.len() - from,
{
    let end = segment_end(key, from);
    lemma_segment_end(key, from);
    let next = offered(nodes, key, from, end, depth);
    if end >= key.len() {
        assert(key.take(end) == key);
        if !has_path(nodes, key) {
            assert(next[nodes.len() as int].full_path == key);
        }
    } else {
        assert(!hides(collapsed, key.take(end)));
        lemma_pushed_reaches(collapsed, next, key, end + 1, depth + 1);
    }
}

/// A key of the store whose folders are not hidden has its node in the
/// tree, unless it is blank.
pub proof fn lemma_tree_shows_key(store: DatabaseView, j: int, n: nat)
    requires
        0 <= j < n <= store.order.len(),
        shown_from(store.collapsed, store.order[j], 0),
        !is_blank(store.order[j]),
    ensures
        has_path(tree_upto(store, n), store.order[j]),
    decreases n,
{
    let before = tree_upto(store, (n - 1) as nat);
    if j == n - 1 {
        lemma_pushed_reaches(store.collapsed, before, store.order[j], 0, 0);
    } else {
        lemma_tree_shows_key(store, j, (n - 1) as nat);
        lemma_tree(store, (n - 1) as nat);
        lemma_pushed(store.collapsed, before, store.order[n - 1], 0, 0);
        let after = tree_upto(store, n);
        let i = choose|i: int| 0 <= i < before.len() && (#[trigger] before[i]).full_path == store.order[j];
        assert(after.take(before.len() as int)[i] == after[i]);
        assert(after[i].full_path == store.order[j]);
    }
}

/// Once the folder `folder` is collapsed, or lies under a collapsed folder,
/// no node of the tree lies below it.
pub proof fn lemma_collapsed_hides_below(store: DatabaseView, folder: Seq<char>)
    requires
        hides(store.collapsed, folder),
    ensures
        forall|i: int|
            0 <= i < file_tree(store).len() ==> !lies_below(
                (#[trigger] file_tree(store)[i]).full_path,
                folder,
            ),
{
    lemma_tree(store, store.order.len());
    assert forall|i: int| 0 <= i < file_tree(store).len() implies !lies_below(
        (#[trigger] file_tree(store)[i]).full_path,
        folder,
    ) by {
        let path = file_tree(store)[i].full_path;
        if lies_below(path, folder) {
            assert(!hides(store.collapsed, path.take(folder.len() as int)));
        }
    }
}

/// Whether some node of the list has the path `chars[..end]`.
pub(crate) fn seen(vector: &Vec<TreeNode>, chars: &Vec<char>, end: usize) -> (found: bool)
    requires
        end <= chars.len(),
    ensures
        found == has_path(node_views(vector@), chars@.take(end as int)),
{
    let mut i: usize = 0;
    while i < vector.len()
        invariant
            i <= vector.len(),
            end <= chars.len(),
            forall|j: int|
                0 <= j < i ==> (#[trigger] node_views(vector@)[j]).full_path != chars@.take(
                    end as int,
                ),
        decreases vector.len() - i,
    {
        let path = to_chars(vector[i].full_path.as_str());
        if prefix_is(chars, end, &path) {
            assert(node_views(vector@)[i as int].full_path == chars@.take(end as int));
            return true;
        }
        i += 1;
    }
    false
}

/// Goes through the segments of the key `chars` from the one that begins at
/// `from`, `depth` folders down.
fn descend(db: &Database, vector: &mut Vec<TreeNode>, chars: &Vec<char>, from: usize, depth: usize)
    requires
        from <= chars.len(),
        depth <= from,
    ensures
        node_views(final(vector)@) == pushed(
            db@.collapsed,
            node_views(old(vector)@),
            chars@,
            from as int,
            depth as int,
        ),
    decreases chars.len() - from,
{
    let ghost nodes = node_views(vector@);
    let mut end: usize = from;
    while end < chars.len() && chars[end] != '/'
        invariant
            from <= end <= chars.len(),
            segment_end(chars@, end as int) == segment_end(chars@, from as int),
        decreases chars.len() - end,
    {
        end += 1;
    }
    assert(end == segment_end(chars@, from as int));
    let path = text_of(chars, 0, end);
    assert(path@ == chars@.take(end as int));
    if !blank_prefix(chars, end) && !seen(vector, chars, end) {
        let node = TreeNode {
            name: text_of(chars, from, end),
            index: vector.len(),
            full_path: path.clone(),
            ident: depth,
            open: false,
            kind: if end == chars.len() {
                NodeKind::File
            } else {
                NodeKind::Folder
            },
        };
        vector.push(node);
        assert(node_views(vector@) =~= nodes.push(
            node_at(chars@, from as int, end as int, depth as int, nodes.len() as int),
        ));
    }
    assert(node_views(vector@) == offered(nodes, chars@, from as int, end as int, depth as int));
    if end < chars.len() && !db.collapsed(path.as_str()) {
        descend(db, vector, chars, end + 1, depth + 1);
    }
}

/// Adds the nodes of the key `key` to the list: one for each folder on the
/// way down, then one for the file, each unless the list has its path
/// already or the path is blank. At a collapsed folder the way down ends.
pub fn push_files(db: &Database, vector: &mut Vec<TreeNode>, key: &str)
    ensures
        node_views(final(vector)@) == pushed(db@.collapsed, node_views(old(vector)@), key@, 0, 0),
{
    let chars = to_chars(key);
    descend(db, vector, &chars, 0, 0);
}

/// The tree view of the store: the nodes of its keys, gone through in
/// increasing order. No path stands twice in it, each node holds its place,
/// and nothing is shown below a collapsed folder.
pub fn build_file_tree(db: &Database) -> (vector: Vec<TreeNode>)
    ensures
        node_views(vector@) == file_tree(db@),
        distinct_paths(node_views(vector@)),
        indexed(node_views(vector@)),
        nothing_below_collapsed(db@.collapsed, node_views(vector@)),
{
    let mut vector: Vec<TreeNode> = Vec::new();
    let n = db.len();
    let mut i: usize = 0;
    assert(node_views(vector@) =~= tree_upto(db@, 0));
    while i < n
        invariant
            i <= n,
            n == db@.order.len(),
            node_views(vector@) == tree_upto(db@, i as nat),
        decreases n - i,
    {
        let (key, _) = db.entry_at(i);
        push_files(db, &mut vector, key.as_str());
        i += 1;
    }
    proof {
        lemma_tree(db@, db@.order.len());
    }
    vector
}

/// The list with the node of the path `file` marked as open, and no other.
pub open spec fn opened(nodes: Seq<TreeNodeView>, file: Seq<char>) -> Seq<TreeNodeView> {
    Seq::new(nodes.len(), |i: int| TreeNodeView { open: nodes[i].full_path == file, ..nodes[i] })
}

/// Marks the node of the path `file` as open, and every other node as not
/// open.
pub fn mark_open(nodes: &mut Vec<TreeNode>, file: &str)
    ensures
        node_views(final(nodes)@) == opened(node_views(old(nodes)@), file@),
{
    let ghost before = node_views(nodes@);
    let chars = to_chars(file);
    let mut i: usize = 0;
    while i < nodes.len()
        invariant
            i <= nodes.len(),
            chars@ == file@,
            nodes@.len() == before.len(),
            forall|j: int| 0 <= j < i ==> (#[trigger] node_views(nodes@)[j]) == opened(before, file@)[j],
            forall|j: int| i <= j < nodes@.len() ==> (#[trigger] node_views(nodes@)[j]) == before[j],
        decreases nodes.len() - i,
    {
        let path = to_chars(nodes[i].full_path.as_str());
        assert(path@.take(path@.len() as int) == path@);
        let here = prefix_is(&path, path.len(), &chars);
        let ghost list = node_views(nodes@);
        let ghost held = nodes@;
        nodes[i].open = here;
        proof {
            let after = node_views(nodes@);
            assert forall|j: int| 0 <= j < i + 1 implies (#[trigger] after[j]) == opened(
                before,
                file@,
            )[j] by {
                assert(after[j] == nodes@[j]@);
                assert(list[j] == held[j]@);
                if j == i {
                    assert(list[j] == before[j]);
                }
            }
            assert forall|j: int| i + 1 <= j < nodes@.len() implies (#[trigger] after[j])
                == before[j] by {
                assert(after[j] == nodes@[j]@);
                assert(list[j] == held[j]@);
            }
        }
        i += 1;
    }
    assert(node_views(nodes@) =~= opened(before, file@));
}

} // verus!
