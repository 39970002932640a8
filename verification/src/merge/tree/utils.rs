//! Indexing one side's changes by path, to find where the other side's changes overlap them.
use vstd::prelude::*;

use crate::bytes::{copy_range, find_byte_from, lemma_find_byte_from, slice_eq, slice_starts_with, starts_with};
use crate::find::FindTree;
use crate::hash::ObjectId;
use crate::merge::blob::{binary_merge, binary_merge_spec, BinaryResolveWith, Pick, Resolution};
use crate::merge::tree::{kind_of, ConflictMapping, EntryKind, EntryMode, Error, PossibleConflict};
use crate::object_tree::editor::{
    lookup, remove_loads, remove_walk, upsert_loads, upsert_walk, Editor, Error as EditError, Trees, WalkEnd,
};
use crate::object_tree::is_tree_mode;

verus! {

// ---------------------------------------------------------------------------------------------
// Changes and paths.

/// How a change relates to the change of a directory that it belongs to, where a whole directory
/// was added, deleted or rewritten: by the number that both carry.
#[derive(Debug, Clone, Copy, PartialEq, Eq, Structural)]
pub enum Relation {
    /// The change of the directory itself.
    Parent(u32),
    /// A change of something inside the directory.
    ChildOfParent(u32),
}

/// A change between two trees, as far as merging trees reads it.
#[derive(Debug)]
pub enum Change {
    /// An entry was added at `location`.
    Addition { location: Vec<u8>, relation: Option<Relation>, entry_mode: EntryMode, id: ObjectId },
    /// The entry at `location` was deleted; `entry_mode` and `id` are those it had.
    Deletion { location: Vec<u8>, relation: Option<Relation>, entry_mode: EntryMode, id: ObjectId },
    /// The entry at `location` changed from `previous_entry_mode` and `previous_id`.
    Modification {
        location: Vec<u8>,
        previous_entry_mode: EntryMode,
        previous_id: ObjectId,
        entry_mode: EntryMode,
        id: ObjectId,
    },
    /// The entry at `source_location` was renamed, or copied if `copy`, to `location`.
    Rewrite {
        source_location: Vec<u8>,
        source_entry_mode: EntryMode,
        source_id: ObjectId,
        entry_mode: EntryMode,
        id: ObjectId,
        location: Vec<u8>,
        relation: Option<Relation>,
        copy: bool,
    },
}

impl Change {
    /// The location of the change, or its destination for rewrites.
    pub open spec fn spec_location(&self) -> Seq<u8> {
        match self {
            Change::Addition { location, .. } => location@,
            Change::Deletion { location, .. } => location@,
            Change::Modification { location, .. } => location@,
            Change::Rewrite { location, .. } => location@,
        }
    }

    /// The location of the change, or its source for rewrites.
    pub open spec fn spec_source_location(&self) -> Seq<u8> {
        match self {
            Change::Rewrite { source_location, .. } => source_location@,
            _ => self.spec_location(),
        }
    }

    /// The mode of the entry after the change, or before it for deletions.
    pub open spec fn spec_entry_mode(&self) -> EntryMode {
        match self {
            Change::Addition { entry_mode, .. } => *entry_mode,
            Change::Deletion { entry_mode, .. } => *entry_mode,
            Change::Modification { entry_mode, .. } => *entry_mode,
            Change::Rewrite { entry_mode, .. } => *entry_mode,
        }
    }

    /// The location of the change, or its destination for rewrites.
    pub fn location(&self) -> (r: &[u8])
        ensures
            r@ == self.spec_location(),
    {
        match self {
            Change::Addition { location, .. } => location.as_slice(),
            Change::Deletion { location, .. } => location.as_slice(),
            Change::Modification { location, .. } => location.as_slice(),
            Change::Rewrite { location, .. } => location.as_slice(),
        }
    }

    /// The location of the change, or its source for rewrites.
    pub fn source_location(&self) -> (r: &[u8])
        ensures
            r@ == self.spec_source_location(),
    {
        match self {
            Change::Rewrite { source_location, .. } => source_location.as_slice(),
            _ => self.location(),
        }
    }

    /// The mode of the entry after the change, or before it for deletions.
    pub fn entry_mode(&self) -> (r: EntryMode)
        ensures
            r == self.spec_entry_mode(),
    {
        match self {
            Change::Addition { entry_mode, .. } => *entry_mode,
            Change::Deletion { entry_mode, .. } => *entry_mode,
            Change::Modification { entry_mode, .. } => *entry_mode,
            Change::Rewrite { entry_mode, .. } => *entry_mode,
        }
    }
}

/// The components of `path` from `start` on, split at each slash; what follows the last slash is
/// the last component, empty if the path ends in one.
pub open spec fn components_from(path: Seq<u8>, start: int) -> Seq<Seq<u8>>
    decreases path.len() - start,
    when 0 <= start <= path.len()
{
    match find_byte_from(path, 47u8, start) {
        Some(i) => {
            proof {
                lemma_find_byte_from(path, 47u8, start);
            }
            seq![path.subrange(start, i)] + components_from(path, i + 1)
        },
        None => seq![path.subrange(start, path.len() as int)],
    }
}

/// The components of `path`, split at each slash: one at least.
pub open spec fn components(path: Seq<u8>) -> Seq<Seq<u8>> {
    components_from(path, 0)
}

/// The components of `rela_path`, split at each slash.
pub fn to_components(rela_path: &[u8]) -> (r: Vec<Vec<u8>>)
    ensures
        r@.map_values(|c: Vec<u8>| c@) == components(rela_path@),
{
    let mut out: Vec<Vec<u8>> = Vec::new();
    let mut start: usize = 0;
    let mut i: usize = 0;
    let ghost path = rela_path@;
    while i < rela_path.len()
        invariant
            start <= i <= rela_path@.len(),
            path == rela_path@,
            find_byte_from(path, 47u8, start as int) == find_byte_from(path, 47u8, i as int),
            out@.map_values(|c: Vec<u8>| c@) + components_from(path, start as int) == components(path),
        decreases rela_path.len() - i,
    {
        if rela_path[i] == 47 {
            proof {
                lemma_find_byte_from(path, 47u8, start as int);
            }
            let part = copy_range(rela_path, start, i);
            let ghost before = out@.map_values(|c: Vec<u8>| c@);
            out.push(part);
            assert(out@.map_values(|c: Vec<u8>| c@) =~= before.push(part@));
            assert(components_from(path, start as int) == seq![path.subrange(start as int, i as int)] + components_from(path, i + 1));
            assert(before + components_from(path, start as int) =~= before.push(part@) + components_from(path, i + 1));
            start = i + 1;
        }
        i += 1;
    }
    proof {
        lemma_find_byte_from(path, 47u8, start as int);
    }
    let part = copy_range(rela_path, start, rela_path.len());
    let ghost before = out@.map_values(|c: Vec<u8>| c@);
    out.push(part);
    assert(out@.map_values(|c: Vec<u8>| c@) =~= before.push(part@));
    assert(before + components_from(path, start as int) =~= before.push(part@));
    out
}

/// The components of the owned path `rela_path`, split at each slash.
pub fn to_components_bstring_ref(rela_path: &Vec<u8>) -> (r: Vec<Vec<u8>>)
    ensures
        r@.map_values(|c: Vec<u8>| c@) == components(rela_path@),
{
    to_components(rela_path.as_slice())
}

// ---------------------------------------------------------------------------------------------
// The index of changes by path.

/// Where the path of a node comes from.
#[derive(Debug, Clone, Copy, PartialEq, Eq, Structural)]
pub enum ChangeLocation {
    /// The change is at its current (and only) location, or in the source location of a rename.
    CurrentLocation,
    /// This is the destination of a rename.
    RenamedLocation,
}

/// A path component leading to a child node.
struct Child {
    name: Vec<u8>,
    index: usize,
}

/// A node of the index: its children by path component, the change at its path, whether that
/// change is a tree, and where its path comes from.
struct TreeNode {
    children: Vec<Child>,
    change_idx: Option<usize>,
    change_is_tree: bool,
    location: ChangeLocation,
}

/// What a node is.
pub struct NodeView {
    /// The children, by path component.
    pub children: Seq<(Seq<u8>, usize)>,
    /// The index of the change at this path, always set for leaves.
    pub change_idx: Option<usize>,
    /// The change at this path is a tree.
    pub change_is_tree: bool,
    /// Where the path of this node comes from.
    pub location: ChangeLocation,
}

impl View for TreeNode {
    type V = NodeView;

    closed spec fn view(&self) -> NodeView {
        NodeView {
            children: self.children@.map_values(|c: Child| (c.name@, c.index)),
            change_idx: self.change_idx,
            change_is_tree: self.change_is_tree,
            location: self.location,
        }
    }
}

/// The changes of one side, indexed by the components of their paths, to see quickly where a
/// change of the other side overlaps one of them. Node `0` is the root.
pub struct TreeNodes {
    nodes: Vec<TreeNode>,
}

impl View for TreeNodes {
    type V = Seq<NodeView>;

    closed spec fn view(&self) -> Seq<NodeView> {
        self.nodes@.map_values(|n: TreeNode| n@)
    }
}

/// The nodes have a root, and every child index names a node.
pub open spec fn nodes_wf(nodes: Seq<NodeView>) -> bool {
    &&& nodes.len() >= 1
    &&& forall|i: int, j: int|
        0 <= i < nodes.len() && 0 <= j < nodes[i].children.len() ==> #[trigger] nodes[i].children[j].1 < nodes.len()
}

/// The first child of `children` from `j` on that is reached by `name`.
pub open spec fn child_from(children: Seq<(Seq<u8>, usize)>, name: Seq<u8>, j: int) -> Option<usize>
    decreases children.len() - j,
{
    if j < 0 || j >= children.len() {
        None
    } else if children[j].0 == name {
        Some(children[j].1)
    } else {
        child_from(children, name, j + 1)
    }
}

/// The child of `node` reached by `name`.
pub open spec fn child_of(node: NodeView, name: Seq<u8>) -> Option<usize> {
    child_from(node.children, name, 0)
}

proof fn lemma_child_from(children: Seq<(Seq<u8>, usize)>, name: Seq<u8>, j: int)
    requires
        0 <= j,
    ensures
        child_from(children, name, j) matches Some(c) ==> exists|k: int| j <= k < children.len() && children[k] == (name, c),
    decreases children.len() - j,
{
    if j < children.len() && children[j].0 != name {
        lemma_child_from(children, name, j + 1);
    }
}

/// What checking the components `comps` against the nodes finds, from the node `cursor` on, where
/// `passed` is the last change passed on the way and the node it was at.
pub open spec fn conflict_from(nodes: Seq<NodeView>, cursor: int, comps: Seq<Seq<u8>>, passed: Option<(usize, int)>) -> Option<
    PossibleConflict,
>
    decreases comps.len(),
{
    let node = nodes[cursor];
    if comps.len() == 0 {
        if node.children.len() == 0 {
            match node.change_idx {
                Some(c) => Some(PossibleConflict::Match { change_idx: c }),
                None => Some(PossibleConflict::TreeToNonTree { change_idx: None }),
            }
        } else {
            Some(PossibleConflict::TreeToNonTree { change_idx: node.change_idx })
        }
    } else {
        let passed = match node.change_idx {
            Some(c) => Some((c, cursor)),
            None => passed,
        };
        match child_of(node, comps[0]) {
            None => if node.children.len() == 0 && !node.change_is_tree {
                Some(PossibleConflict::NonTreeToTree { change_idx: node.change_idx })
            } else {
                match passed {
                    Some((c, at)) => if nodes[at].location == ChangeLocation::CurrentLocation {
                        Some(PossibleConflict::PassedRewrittenDirectory { change_idx: c })
                    } else {
                        None
                    },
                    None => None,
                }
            },
            Some(child) => conflict_from(nodes, child as int, comps.drop_first(), passed),
        }
    }
}

/// How a change at the path with components `comps` overlaps the indexed changes: an exact match,
/// a tree where they place a non-tree, a non-tree on their way, passing a rewritten directory, or
/// not at all.
pub open spec fn conflict(nodes: Seq<NodeView>, comps: Seq<Seq<u8>>) -> Option<PossibleConflict> {
    if nodes[0].children.len() == 0 {
        None
    } else {
        conflict_from(nodes, 0, comps, None)
    }
}

/// `node` with a child reached by `name` added.
pub open spec fn with_child(node: NodeView, name: Seq<u8>, index: usize) -> NodeView {
    NodeView { children: node.children.push((name, index)), ..node }
}

/// `node` without its first child reached by `name`.
pub open spec fn without_child(node: NodeView, name: Seq<u8>) -> NodeView {
    NodeView { children: without_child_from(node.children, name), ..node }
}

/// `children` without the first one reached by `name`.
pub open spec fn without_child_from(children: Seq<(Seq<u8>, usize)>, name: Seq<u8>) -> Seq<(Seq<u8>, usize)>
    decreases children.len(),
{
    if children.len() == 0 {
        children
    } else if children[0].0 == name {
        children.drop_first()
    } else {
        seq![children[0]] + without_child_from(children.drop_first(), name)
    }
}

/// Indexing a change with index `change_idx` at the components `comps`, from the node `cursor`
/// on: missing nodes are added, and the node at the path takes the change where it has none but
/// children, or holds a tree change where this one is none.
pub open spec fn track_from(
    nodes: Seq<NodeView>,
    cursor: int,
    comps: Seq<Seq<u8>>,
    change_idx: usize,
    is_tree: bool,
    location: ChangeLocation,
) -> Seq<NodeView>
    decreases comps.len(),
{
    if comps.len() == 0 {
        nodes
    } else {
        let is_last = comps.len() == 1;
        match child_of(nodes[cursor], comps[0]) {
            None => {
                let index = nodes.len() as usize;
                let node = NodeView {
                    children: seq![],
                    change_idx: if is_last {
                        Some(change_idx)
                    } else {
                        None
                    },
                    change_is_tree: is_last && is_tree,
                    location,
                };
                let grown = nodes.push(node).update(cursor, with_child(nodes[cursor], comps[0], index));
                track_from(grown, index as int, comps.drop_first(), change_idx, is_tree, location)
            },
            Some(i) => {
                let n = nodes[i as int];
                let taken = if is_last && ((n.change_idx is None && n.children.len() > 0) || (n.change_is_tree
                    && !is_tree)) {
                    nodes.update(i as int, NodeView { change_idx: Some(change_idx), change_is_tree: is_tree, location, ..n })
                } else {
                    nodes
                };
                track_from(taken, i as int, comps.drop_first(), change_idx, is_tree, location)
            },
        }
    }
}

/// Indexing `change` with index `change_idx`: at its location, and for rewrites also at their
/// destination.
pub open spec fn track_change_spec(nodes: Seq<NodeView>, change: Change, change_idx: usize) -> Seq<NodeView> {
    let is_tree = is_tree_mode(change.spec_entry_mode());
    let at_source = track_from(
        nodes,
        0,
        components(change.spec_source_location()),
        change_idx,
        is_tree,
        ChangeLocation::CurrentLocation,
    );
    match change {
        Change::Rewrite { location, .. } => track_from(
            at_source,
            0,
            components(location@),
            change_idx,
            is_tree,
            ChangeLocation::RenamedLocation,
        ),
        _ => at_source,
    }
}

/// Indexing a change with index `change_idx` at the components `comps` from the node `cursor`
/// on, adding missing nodes as empty ones, and placing it at the current location.
pub open spec fn insert_from(nodes: Seq<NodeView>, cursor: int, comps: Seq<Seq<u8>>, change_idx: usize, is_tree: bool) -> Seq<
    NodeView,
>
    decreases comps.len(),
{
    if comps.len() == 0 {
        nodes.update(
            cursor,
            NodeView {
                change_idx: Some(change_idx),
                change_is_tree: is_tree,
                location: ChangeLocation::CurrentLocation,
                ..nodes[cursor]
            },
        )
    } else {
        match child_of(nodes[cursor], comps[0]) {
            None => {
                let index = nodes.len() as usize;
                let node = NodeView {
                    children: seq![],
                    change_idx: None,
                    change_is_tree: false,
                    location: ChangeLocation::CurrentLocation,
                };
                let grown = nodes.push(node).update(cursor, with_child(nodes[cursor], comps[0], index));
                insert_from(grown, index as int, comps.drop_first(), change_idx, is_tree)
            },
            Some(i) => insert_from(nodes, i as int, comps.drop_first(), change_idx, is_tree),
        }
    }
}

/// How removing a change ended below a node: the path was not there, or nodes left without
/// change and children are still pruned from their parents, or pruning stopped.
pub enum Pruning {
    NotFound,
    Prune,
    Stop,
}

/// Removing the change at the components `comps` from the node `cursor` on: the node at the path
/// loses its change, and then nodes without change and children are pruned from their parents,
/// upwards, until one has either. Nothing changes where the path is not there.
pub open spec fn remove_from(nodes: Seq<NodeView>, cursor: int, comps: Seq<Seq<u8>>) -> (Seq<NodeView>, Pruning)
    decreases comps.len(),
{
    if comps.len() == 0 {
        (nodes, Pruning::Stop)
    } else {
        match child_of(nodes[cursor], comps[0]) {
            None => (nodes, Pruning::NotFound),
            Some(c) => {
                let below = if comps.len() == 1 {
                    (nodes.update(c as int, NodeView { change_idx: None, change_is_tree: false, ..nodes[c as int] }), Pruning::Prune)
                } else {
                    remove_from(nodes, c as int, comps.drop_first())
                };
                match below.1 {
                    Pruning::Prune => if below.0[c as int].change_idx is None && below.0[c as int].children.len() == 0 {
                        (below.0.update(cursor, without_child(below.0[cursor], comps[0])), Pruning::Prune)
                    } else {
                        (below.0, Pruning::Stop)
                    },
                    _ => below,
                }
            },
        }
    }
}

impl TreeNode {
    /// The child reached by `name`.
    fn child(&self, name: &[u8]) -> (r: Option<usize>)
        ensures
            r == child_of(self@, name@),
    {
        let ghost children = self@.children;
        let mut j: usize = 0;
        while j < self.children.len()
            invariant
                j <= self.children@.len(),
                children == self@.children,
                child_from(children, name@, 0) == child_from(children, name@, j as int),
            decreases self.children.len() - j,
        {
            assert(children[j as int] == (self.children@[j as int].name@, self.children@[j as int].index));
            if slice_eq(self.children[j].name.as_slice(), name) {
                return Some(self.children[j].index);
            }
            j += 1;
        }
        None
    }

    /// Remove the first child reached by `name`.
    fn remove_child(&mut self, name: &[u8])
        ensures
            final(self)@ == without_child(old(self)@, name@),
    {
        let ghost children = self@.children;
        let mut j: usize = 0;
        while j < self.children.len()
            invariant
                j <= self.children@.len(),
                children == self@.children,
                self@ == old(self)@,
                forall|k: int| 0 <= k < j ==> children[k].0 != name@,
            decreases self.children.len() - j,
        {
            assert(children[j as int] == (self.children@[j as int].name@, self.children@[j as int].index));
            if slice_eq(self.children[j].name.as_slice(), name) {
                let _ = self.children.remove(j);
                proof {
                    lemma_without_child_at(children, name@, j as int);
                }
                assert(self@.children =~= children.remove(j as int));
                return;
            }
            j += 1;
        }
        proof {
            lemma_without_child_absent(children, name@);
        }
    }
}

proof fn lemma_without_child_at(children: Seq<(Seq<u8>, usize)>, name: Seq<u8>, j: int)
    requires
        0 <= j < children.len(),
        children[j].0 == name,
        forall|k: int| 0 <= k < j ==> children[k].0 != name,
    ensures
        without_child_from(children, name) == children.remove(j),
    decreases j,
{
    if j > 0 {
        lemma_without_child_at(children.drop_first(), name, j - 1);
        assert(children.remove(j) =~= seq![children[0]] + children.drop_first().remove(j - 1));
    } else {
        assert(children.remove(0) =~= children.drop_first());
    }
}

proof fn lemma_without_child_absent(children: Seq<(Seq<u8>, usize)>, name: Seq<u8>)
    requires
        forall|k: int| 0 <= k < children.len() ==> children[k].0 != name,
    ensures
        without_child_from(children, name) == children,
    decreases children.len(),
{
    if children.len() > 0 {
        lemma_without_child_absent(children.drop_first(), name);
        assert(seq![children[0]] + children.drop_first() =~= children);
    }
}

proof fn lemma_without_child_keeps(children: Seq<(Seq<u8>, usize)>, name: Seq<u8>)
    ensures
        forall|k: int| 0 <= k < without_child_from(children, name).len() ==> exists|m: int|
            0 <= m < children.len() && #[trigger] without_child_from(children, name)[k] == children[m],
    decreases children.len(),
{
    if children.len() > 0 && children[0].0 != name {
        lemma_without_child_keeps(children.drop_first(), name);
        let w = without_child_from(children, name);
        assert forall|k: int| 0 <= k < w.len() implies exists|m: int| 0 <= m < children.len() && #[trigger] w[k] == children[m] by {
            if k == 0 {
                assert(w[0] == children[0]);
            } else {
                let m = choose|m: int| 0 <= m < children.drop_first().len() && without_child_from(children.drop_first(), name)[k - 1]
                    == children.drop_first()[m];
                assert(w[k] == children[m + 1]);
            }
        }
    } else if children.len() > 0 {
        let w = without_child_from(children, name);
        assert forall|k: int| 0 <= k < w.len() implies exists|m: int| 0 <= m < children.len() && #[trigger] w[k] == children[m] by {
            assert(w[k] == children[k + 1]);
        }
    }
}

impl TreeNodes {
    /// An index with nothing but its root.
    pub fn new() -> (r: TreeNodes)
        ensures
            nodes_wf(r@),
            r@ == seq![NodeView { children: seq![], change_idx: None, change_is_tree: false, location: ChangeLocation::CurrentLocation }],
    {
        let mut nodes: Vec<TreeNode> = Vec::new();
        nodes.push(TreeNode { children: Vec::new(), change_idx: None, change_is_tree: false, location: ChangeLocation::CurrentLocation });
        let r = TreeNodes { nodes };
        assert(r@[0].children =~= Seq::<(Seq<u8>, usize)>::empty());
        assert(r@ =~= seq![NodeView { children: seq![], change_idx: None, change_is_tree: false, location: ChangeLocation::CurrentLocation }]);
        r
    }

    /// Search the indexed change paths for an overlap with `theirs_location`: an exact match, a
    /// tree where they place a non-tree, a non-tree on their way, passing a rewritten directory,
    /// or none.
    pub fn check_conflict(&self, theirs_location: &[u8]) -> (r: Option<PossibleConflict>)
        requires
            nodes_wf(self@),
        ensures
            r == conflict(self@, components(theirs_location@)),
    {
        let ghost nodes = self@;
        assert(nodes[0] == self.nodes@[0]@);
        if self.nodes[0].children.len() == 0 {
            return None;
        }
        let comps = to_components(theirs_location);
        let ghost cv = comps@.map_values(|c: Vec<u8>| c@);
        let n = comps.len();
        let mut cursor: usize = 0;
        let mut passed: Option<(usize, usize)> = None;
        let mut i: usize = 0;
        assert(cv.subrange(0, n as int) =~= cv);
        while i < n
            invariant
                i <= n,
                n == comps@.len(),
                cv == comps@.map_values(|c: Vec<u8>| c@),
                cv == components(theirs_location@),
                nodes == self@,
                nodes_wf(nodes),
                cursor < nodes.len(),
                passed matches Some((c, at)) ==> at < nodes.len(),
                conflict(nodes, cv) == conflict_from(nodes, cursor as int, cv.subrange(i as int, n as int), match passed {
                    Some((c, at)) => Some((c, at as int)),
                    None => None,
                }),
            decreases n - i,
        {
            let ghost rest = cv.subrange(i as int, n as int);
            assert(rest[0] == comps@[i as int]@);
            assert(nodes[cursor as int] == self.nodes@[cursor as int]@);
            let ghost old_passed = match passed {
                Some((c, at)) => Some((c, at as int)),
                None => None,
            };
            let node = &self.nodes[cursor];
            if node.change_idx.is_some() {
                passed = Some((node.change_idx.unwrap(), cursor));
            }
            let ghost new_passed = match passed {
                Some((c, at)) => Some((c, at as int)),
                None => None,
            };
            assert(new_passed == match nodes[cursor as int].change_idx {
                Some(c) => Some((c, cursor as int)),
                None => old_passed,
            });
            let found = node.child(comps[i].as_slice());
            assert(found == child_of(nodes[cursor as int], rest[0]));
            assert(conflict_from(nodes, cursor as int, rest, old_passed) == match found {
                None => if nodes[cursor as int].children.len() == 0 && !nodes[cursor as int].change_is_tree {
                    Some(PossibleConflict::NonTreeToTree { change_idx: nodes[cursor as int].change_idx })
                } else {
                    match new_passed {
                        Some((c, at)) => if nodes[at].location == ChangeLocation::CurrentLocation {
                            Some(PossibleConflict::PassedRewrittenDirectory { change_idx: c })
                        } else {
                            None
                        },
                        None => None,
                    }
                },
                Some(child) => conflict_from(nodes, child as int, rest.drop_first(), new_passed),
            });
            assert(nodes[cursor as int].children.len() == node.children@.len());
            match found {
                None => {
                    if node.children.len() == 0 && !node.change_is_tree {
                        return Some(PossibleConflict::NonTreeToTree { change_idx: node.change_idx });
                    }
                    return match passed {
                        Some((c, at)) => {
                            assert(nodes[at as int] == self.nodes@[at as int]@);
                            if matches!(self.nodes[at].location, ChangeLocation::CurrentLocation) {
                                Some(PossibleConflict::PassedRewrittenDirectory { change_idx: c })
                            } else {
                                None
                            }
                        },
                        None => None,
                    };
                },
                Some(child) => {
                    proof {
                        lemma_child_from(nodes[cursor as int].children, comps@[i as int]@, 0);
                        let k = choose|k: int|
                            0 <= k < nodes[cursor as int].children.len() && nodes[cursor as int].children[k] == (
                                comps@[i as int]@,
                                child,
                            );
                        assert(nodes[cursor as int].children[k].1 == child);
                    }
                    assert(rest.drop_first() =~= cv.subrange(i + 1, n as int));
                    cursor = child;
                },
            }
            i += 1;
        }
        assert(nodes[cursor as int] == self.nodes@[cursor as int]@);
        let node = &self.nodes[cursor];
        if node.children.len() == 0 {
            match node.change_idx {
                Some(c) => Some(PossibleConflict::Match { change_idx: c }),
                None => Some(PossibleConflict::TreeToNonTree { change_idx: None }),
            }
        } else {
            Some(PossibleConflict::TreeToNonTree { change_idx: node.change_idx })
        }
    }
    /// Perform [`track_from`] from the node `cursor` on, for the components of `comps` from `i` on.
    fn track_from_exec(
        &mut self,
        cursor: usize,
        comps: &Vec<Vec<u8>>,
        i: usize,
        change_idx: usize,
        is_tree: bool,
        location: ChangeLocation,
    )
        requires
            nodes_wf(old(self)@),
            cursor < old(self)@.len(),
            i <= comps@.len(),
        ensures
            nodes_wf(final(self)@),
            final(self)@ == track_from(
                old(self)@,
                cursor as int,
                comps@.map_values(|c: Vec<u8>| c@).subrange(i as int, comps@.len() as int),
                change_idx,
                is_tree,
                location,
            ),
        decreases comps@.len() - i,
    {
        let ghost cv = comps@.map_values(|c: Vec<u8>| c@);
        let ghost rest = cv.subrange(i as int, comps@.len() as int);
        let ghost nodes = self@;
        if i == comps.len() {
            return;
        }
        assert(rest[0] == comps@[i as int]@);
        assert(rest.drop_first() =~= cv.subrange(i + 1, comps@.len() as int));
        let is_last = i + 1 == comps.len();
        let name = comps[i].as_slice();
        assert(nodes[cursor as int] == self.nodes@[cursor as int]@);
        match self.nodes[cursor].child(name) {
            None => {
                let index = self.nodes.len();
                let node = TreeNode {
                    children: Vec::new(),
                    change_idx: if is_last {
                        Some(change_idx)
                    } else {
                        None
                    },
                    change_is_tree: is_last && is_tree,
                    location,
                };
                self.nodes.push(node);
                let child = Child { name: copy_range(name, 0, name.len()), index };
                assert(child.name@ =~= name@);
                self.nodes[cursor].children.push(child);
                proof {
                    let grown = nodes.push(node@).update(cursor as int, with_child(nodes[cursor as int], name@, index));
                    assert(self@[cursor as int].children =~= grown[cursor as int].children);
                    assert(node@.children =~= Seq::<(Seq<u8>, usize)>::empty());
                    assert(self@ =~= grown);
                    assert forall|a: int, b: int| 0 <= a < self@.len() && 0 <= b < self@[a].children.len() implies #[trigger] self@[a].children[b].1
                        < self@.len() by {
                        if a == cursor && b == nodes[cursor as int].children.len() {
                        } else if a < nodes.len() {
                            assert(self@[a].children[b] == nodes[a].children[b]);
                        }
                    }
                }
                self.track_from_exec(index, comps, i + 1, change_idx, is_tree, location);
            },
            Some(c) => {
                proof {
                    lemma_child_from(nodes[cursor as int].children, name@, 0);
                    let k = choose|k: int| 0 <= k < nodes[cursor as int].children.len() && nodes[cursor as int].children[k] == (name@, c);
                    assert(nodes[cursor as int].children[k].1 == c);
                }
                assert(nodes[c as int] == self.nodes@[c as int]@);
                assert(nodes[c as int].children.len() == self.nodes@[c as int].children@.len());
                if is_last && ((self.nodes[c].change_idx.is_none() && self.nodes[c].children.len() > 0) || (
                self.nodes[c].change_is_tree && !is_tree)) {
                    self.nodes[c].change_idx = Some(change_idx);
                    self.nodes[c].change_is_tree = is_tree;
                    self.nodes[c].location = location;
                    proof {
                        let n = nodes[c as int];
                        let taken = nodes.update(c as int, NodeView { change_idx: Some(change_idx), change_is_tree: is_tree, location, ..n });
                        assert(self@ =~= taken);
                    }
                } else {
                    assert(self@ =~= nodes);
                }
                self.track_from_exec(c, comps, i + 1, change_idx, is_tree, location);
            },
        }
    }

    /// Perform [`insert_from`] from the node `cursor` on, for the components of `comps` from `i` on.
    fn insert_from_exec(&mut self, cursor: usize, comps: &Vec<Vec<u8>>, i: usize, change_idx: usize, is_tree: bool)
        requires
            nodes_wf(old(self)@),
            cursor < old(self)@.len(),
            i <= comps@.len(),
        ensures
            nodes_wf(final(self)@),
            final(self)@ == insert_from(
                old(self)@,
                cursor as int,
                comps@.map_values(|c: Vec<u8>| c@).subrange(i as int, comps@.len() as int),
                change_idx,
                is_tree,
            ),
        decreases comps@.len() - i,
    {
        let ghost cv = comps@.map_values(|c: Vec<u8>| c@);
        let ghost rest = cv.subrange(i as int, comps@.len() as int);
        let ghost nodes = self@;
        assert(nodes[cursor as int] == self.nodes@[cursor as int]@);
        if i == comps.len() {
            self.nodes[cursor].change_idx = Some(change_idx);
            self.nodes[cursor].change_is_tree = is_tree;
            self.nodes[cursor].location = ChangeLocation::CurrentLocation;
            proof {
                let n = nodes[cursor as int];
                assert(self@ =~= nodes.update(
                    cursor as int,
                    NodeView { change_idx: Some(change_idx), change_is_tree: is_tree, location: ChangeLocation::CurrentLocation, ..n },
                ));
            }
            return;
        }
        assert(rest[0] == comps@[i as int]@);
        assert(rest.drop_first() =~= cv.subrange(i + 1, comps@.len() as int));
        let name = comps[i].as_slice();
        match self.nodes[cursor].child(name) {
            None => {
                let index = self.nodes.len();
                let node = TreeNode {
                    children: Vec::new(),
                    change_idx: None,
                    change_is_tree: false,
                    location: ChangeLocation::CurrentLocation,
                };
                self.nodes.push(node);
                let child = Child { name: copy_range(name, 0, name.len()), index };
                assert(child.name@ =~= name@);
                self.nodes[cursor].children.push(child);
                proof {
                    let grown = nodes.push(node@).update(cursor as int, with_child(nodes[cursor as int], name@, index));
                    assert(self@[cursor as int].children =~= grown[cursor as int].children);
                    assert(node@.children =~= Seq::<(Seq<u8>, usize)>::empty());
                    assert(self@ =~= grown);
                    assert forall|a: int, b: int| 0 <= a < self@.len() && 0 <= b < self@[a].children.len() implies #[trigger] self@[a].children[b].1
                        < self@.len() by {
                        if a == cursor && b == nodes[cursor as int].children.len() {
                        } else if a < nodes.len() {
                            assert(self@[a].children[b] == nodes[a].children[b]);
                        }
                    }
                }
                self.insert_from_exec(index, comps, i + 1, change_idx, is_tree);
            },
            Some(c) => {
                proof {
                    lemma_child_from(nodes[cursor as int].children, name@, 0);
                    let k = choose|k: int| 0 <= k < nodes[cursor as int].children.len() && nodes[cursor as int].children[k] == (name@, c);
                    assert(nodes[cursor as int].children[k].1 == c);
                }
                self.insert_from_exec(c, comps, i + 1, change_idx, is_tree);
            },
        }
    }

    /// Perform [`remove_from`] from the node `cursor` on, for the components of `comps` from `i` on.
    fn remove_from_exec(&mut self, cursor: usize, comps: &Vec<Vec<u8>>, i: usize) -> (r: Pruning)
        requires
            nodes_wf(old(self)@),
            cursor < old(self)@.len(),
            i <= comps@.len(),
        ensures
            nodes_wf(final(self)@),
            final(self)@.len() == old(self)@.len(),
            (final(self)@, r) == remove_from(
                old(self)@,
                cursor as int,
                comps@.map_values(|c: Vec<u8>| c@).subrange(i as int, comps@.len() as int),
            ),
        decreases comps@.len() - i,
    {
        let ghost cv = comps@.map_values(|c: Vec<u8>| c@);
        let ghost rest = cv.subrange(i as int, comps@.len() as int);
        let ghost nodes = self@;
        if i == comps.len() {
            return Pruning::Stop;
        }
        assert(rest[0] == comps@[i as int]@);
        assert(rest.drop_first() =~= cv.subrange(i + 1, comps@.len() as int));
        let name = comps[i].as_slice();
        assert(nodes[cursor as int] == self.nodes@[cursor as int]@);
        let c = match self.nodes[cursor].child(name) {
            None => {
                return Pruning::NotFound;
            },
            Some(c) => c,
        };
        proof {
            lemma_child_from(nodes[cursor as int].children, name@, 0);
            let k = choose|k: int| 0 <= k < nodes[cursor as int].children.len() && nodes[cursor as int].children[k] == (name@, c);
            assert(nodes[cursor as int].children[k].1 == c);
        }
        let below = if i + 1 == comps.len() {
            self.nodes[c].change_idx = None;
            self.nodes[c].change_is_tree = false;
            proof {
                let n = nodes[c as int];
                assert(self@ =~= nodes.update(c as int, NodeView { change_idx: None, change_is_tree: false, ..n }));
            }
            Pruning::Prune
        } else {
            self.remove_from_exec(c, comps, i + 1)
        };
        let ghost after = self@;
        match below {
            Pruning::Prune => {
                assert(after[c as int] == self.nodes@[c as int]@);
                assert(after[c as int].children.len() == self.nodes@[c as int].children@.len());
                if self.nodes[c].change_idx.is_none() && self.nodes[c].children.len() == 0 {
                    assert(after[cursor as int] == self.nodes@[cursor as int]@);
                    self.nodes[cursor].remove_child(name);
                    proof {
                        assert(self@ =~= after.update(cursor as int, without_child(after[cursor as int], name@)));
                        lemma_without_child_keeps(after[cursor as int].children, name@);
                        assert forall|a: int, b: int| 0 <= a < self@.len() && 0 <= b < self@[a].children.len() implies #[trigger] self@[a].children[b].1
                            < self@.len() by {
                            if a == cursor {
                                let m = choose|m: int| 0 <= m < after[cursor as int].children.len() && #[trigger] without_child_from(after[cursor as int].children, name@)[b]
                                    == after[cursor as int].children[m];
                                assert(after[a].children[m].1 < after.len());
                            } else {
                                assert(self@[a] == after[a]);
                            }
                        }
                    }
                    Pruning::Prune
                } else {
                    Pruning::Stop
                }
            },
            other => other,
        }
    }

    /// Index `change` with index `change_idx` at its location, and for rewrites also at their
    /// destination, so that each leaf path is seen once; directories can be added in between.
    pub fn track_change(&mut self, change: &Change, change_idx: usize)
        requires
            nodes_wf(old(self)@),
        ensures
            nodes_wf(final(self)@),
            final(self)@ == track_change_spec(old(self)@, *change, change_idx),
    {
        let is_tree = change.entry_mode().is_tree();
        let comps = to_components(change.source_location());
        assert(comps@.map_values(|c: Vec<u8>| c@).subrange(0, comps@.len() as int) =~= comps@.map_values(|c: Vec<u8>| c@));
        self.track_from_exec(0, &comps, 0, change_idx, is_tree, ChangeLocation::CurrentLocation);
        if let Change::Rewrite { location, .. } = change {
            let comps = to_components(location.as_slice());
            assert(comps@.map_values(|c: Vec<u8>| c@).subrange(0, comps@.len() as int) =~= comps@.map_values(|c: Vec<u8>| c@));
            self.track_from_exec(0, &comps, 0, change_idx, is_tree, ChangeLocation::RenamedLocation);
        }
    }

    /// Remove the change at `location`, which is known to be indexed, pruning what is left empty.
    pub fn remove_existing_change(&mut self, location: &[u8])
        requires
            nodes_wf(old(self)@),
        ensures
            nodes_wf(final(self)@),
            final(self)@ == remove_from(old(self)@, 0, components(location@)).0,
    {
        self.remove_change(location);
    }

    /// Remove the change at `location`, if there is one, pruning what is left empty.
    pub fn remove_change(&mut self, location: &[u8])
        requires
            nodes_wf(old(self)@),
        ensures
            nodes_wf(final(self)@),
            final(self)@ == remove_from(old(self)@, 0, components(location@)).0,
    {
        let comps = to_components(location);
        assert(comps@.map_values(|c: Vec<u8>| c@).subrange(0, comps@.len() as int) =~= comps@.map_values(|c: Vec<u8>| c@));
        let _ = self.remove_from_exec(0, &comps, 0);
    }

    /// Index the current location of `new_change`, a change deferred until now, with index
    /// `new_change_idx`.
    pub fn insert(&mut self, new_change: &Change, new_change_idx: usize)
        requires
            nodes_wf(old(self)@),
        ensures
            nodes_wf(final(self)@),
            final(self)@ == insert_from(
                old(self)@,
                0,
                components(new_change.spec_location()),
                new_change_idx,
                is_tree_mode(new_change.spec_entry_mode()),
            ),
    {
        let is_tree = new_change.entry_mode().is_tree();
        let comps = to_components(new_change.location());
        assert(comps@.map_values(|c: Vec<u8>| c@).subrange(0, comps@.len() as int) =~= comps@.map_values(|c: Vec<u8>| c@));
        self.insert_from_exec(0, &comps, 0, new_change_idx, is_tree);
    }
}

// ---------------------------------------------------------------------------------------------
// Tracked changes and directory renames.

/// Where a tracked change is in its handling.
#[derive(Debug, Clone, Copy, PartialEq, Eq, Structural)]
pub enum ChangeState {
    /// The change still has to be compared with the other side and handled.
    Pending,
    /// The change was handled, but its effect was not applied to the editor.
    Processed,
    /// The change was handled and its effect is represented in the editor.
    Applied,
}

/// How handling a change affected the output editor.
#[derive(Debug, Clone, Copy, PartialEq, Eq, Structural)]
pub enum ChangeDisposition {
    /// The change was consumed without applying its effect.
    Processed,
    /// The change's effect is represented in the editor.
    Applied,
}

/// A change from one side's diff, together with its merge scheduling state.
#[derive(Debug)]
pub struct TrackedChange {
    /// The actual change.
    pub inner: Change,
    /// Where the change is in its handling.
    pub state: ChangeState,
    /// If `Some(ours_idx_to_ignore)`, this change must be placed into the tree before handling it.
    pub needs_tree_insertion: Option<Option<usize>>,
    /// A new location for the change and the index of the change of the other side it passed.
    pub rewritten_location: Option<(Vec<u8>, usize)>,
}

impl TrackedChange {
    /// A pending change.
    pub fn new(inner: Change, needs_tree_insertion: Option<Option<usize>>, rewritten_location: Option<(Vec<u8>, usize)>) -> (r:
        TrackedChange)
        ensures
            r.inner == inner,
            r.state == ChangeState::Pending,
            r.needs_tree_insertion == needs_tree_insertion,
            r.rewritten_location == rewritten_location,
    {
        TrackedChange { inner, state: ChangeState::Pending, needs_tree_insertion, rewritten_location }
    }

    /// The change still needs to be scheduled.
    pub fn is_pending(&self) -> (r: bool)
        ensures
            r == (self.state == ChangeState::Pending),
    {
        matches!(self.state, ChangeState::Pending)
    }

    /// The change's effect is represented in the output editor.
    pub fn was_applied(&self) -> (r: bool)
        ensures
            r == (self.state == ChangeState::Applied),
    {
        matches!(self.state, ChangeState::Applied)
    }

    /// The change was consumed without affecting the output editor.
    pub fn was_processed_without_application(&self) -> (r: bool)
        ensures
            r == (self.state == ChangeState::Processed),
    {
        matches!(self.state, ChangeState::Processed)
    }

    /// Stop scheduling the change, without downgrading it if it was applied.
    pub fn mark_processed(&mut self)
        ensures
            final(self).state == (if old(self).state == ChangeState::Pending {
                ChangeState::Processed
            } else {
                old(self).state
            }),
            final(self).inner == old(self).inner,
            final(self).needs_tree_insertion == old(self).needs_tree_insertion,
            final(self).rewritten_location == old(self).rewritten_location,
    {
        if matches!(self.state, ChangeState::Pending) {
            self.state = ChangeState::Processed;
        }
    }

    /// Record that the change's effect is represented in the output editor.
    pub fn mark_applied(&mut self)
        ensures
            final(self).state == ChangeState::Applied,
            final(self).inner == old(self).inner,
            final(self).needs_tree_insertion == old(self).needs_tree_insertion,
            final(self).rewritten_location == old(self).rewritten_location,
    {
        self.state = ChangeState::Applied;
    }

    /// Record how handling the change ended.
    pub fn mark(&mut self, disposition: ChangeDisposition)
        ensures
            final(self).state == (match disposition {
                ChangeDisposition::Applied => ChangeState::Applied,
                ChangeDisposition::Processed => if old(self).state == ChangeState::Pending {
                    ChangeState::Processed
                } else {
                    old(self).state
                },
            }),
            final(self).inner == old(self).inner,
            final(self).needs_tree_insertion == old(self).needs_tree_insertion,
            final(self).rewritten_location == old(self).rewritten_location,
    {
        match disposition {
            ChangeDisposition::Processed => self.mark_processed(),
            ChangeDisposition::Applied => self.mark_applied(),
        }
    }
}

/// `true` if `change` is a modification of a tree.
pub open spec fn is_tree_modification(change: Change) -> bool {
    change is Modification && is_tree_mode(change.spec_entry_mode())
}

/// Keep only leaf changes and rewritten trees: push `change` onto `changes` unless it modifies a
/// tree. Copies are tracked as additions of their destination, and changes of trees start out
/// applied, as their effect is carried by the changes of their leaves.
pub fn track(change: Change, changes: &mut Vec<TrackedChange>)
    ensures
        is_tree_modification(change) ==> final(changes)@ == old(changes)@,
        !is_tree_modification(change) ==> ({
            let t = final(changes)@.last();
            &&& final(changes)@.len() == old(changes)@.len() + 1
            &&& final(changes)@.drop_last() == old(changes)@
            &&& t.state == (if is_tree_mode(change.spec_entry_mode()) {
                ChangeState::Applied
            } else {
                ChangeState::Pending
            })
            &&& t.needs_tree_insertion is None
            &&& t.rewritten_location is None
            &&& match change {
                Change::Rewrite { entry_mode, id, location, relation, copy, .. } => if copy {
                    t.inner matches Change::Addition { location: l, relation: rel, entry_mode: m, id: i } && l@ == location@
                        && rel == relation && m == entry_mode && i@ == id@
                } else {
                    t.inner == change
                },
                _ => t.inner == change,
            }
        }),
{
    let is_tree = change.entry_mode().is_tree();
    if is_tree && matches!(change, Change::Modification { .. }) {
        return;
    }
    let ghost before = changes@;
    let inner = match change {
        Change::Rewrite { source_location, source_entry_mode, source_id, entry_mode, id, location, relation, copy } => {
            if copy {
                Change::Addition { location, relation, entry_mode, id }
            } else {
                Change::Rewrite { source_location, source_entry_mode, source_id, entry_mode, id, location, relation, copy }
            }
        },
        other => other,
    };
    let mut entry = TrackedChange::new(inner, None, None);
    if is_tree {
        entry.mark_applied();
    }
    changes.push(entry);
    assert(changes@.drop_last() =~= before);
}

/// `their_location` translated through the directory rewrite `passed_change`: a rewrite of a tree
/// from `a` to `b` maps `a/file` to `b/file`. `None` unless `passed_change` rewrites a tree and
/// `their_location` starts with its source.
pub open spec fn rewritten_location_spec(their_location: Seq<u8>, passed_change: Change) -> Option<Seq<u8>> {
    match passed_change {
        Change::Rewrite { source_location, location, entry_mode, .. } => if is_tree_mode(entry_mode) && starts_with(
            their_location,
            source_location@,
        ) {
            Some(location@ + their_location.subrange(source_location@.len() as int, their_location.len() as int))
        } else {
            None
        },
        _ => None,
    }
}

/// Translate `their_location` through the directory rewrite in `passed_change`, as
/// [`rewritten_location_spec`] says.
pub fn rewrite_location_with_renamed_directory(their_location: &[u8], passed_change: &Change) -> (r: Option<Vec<u8>>)
    ensures
        match r {
            Some(p) => rewritten_location_spec(their_location@, *passed_change) == Some(p@),
            None => rewritten_location_spec(their_location@, *passed_change) is None,
        },
{
    match passed_change {
        Change::Rewrite { source_location, location, entry_mode, .. } => {
            if !entry_mode.is_tree() || !slice_starts_with(their_location, source_location.as_slice()) {
                return None;
            }
            let mut rewritten = copy_range(location.as_slice(), 0, location.len());
            let suffix = copy_range(their_location, source_location.len(), their_location.len());
            let ghost start = rewritten@;
            let mut i: usize = 0;
            while i < suffix.len()
                invariant
                    i <= suffix@.len(),
                    rewritten@ == start + suffix@.subrange(0, i as int),
                decreases suffix.len() - i,
            {
                rewritten.push(suffix[i]);
                i += 1;
                assert(rewritten@ =~= start + suffix@.subrange(0, i as int));
            }
            assert(suffix@.subrange(0, suffix@.len() as int) =~= suffix@);
            assert(start =~= location@);
            Some(rewritten)
        },
        _ => None,
    }
}

/// Where `their_location`, the destination of their rewrite, passes a directory that our change
/// rewrote, the path it gets if it follows that rewrite.
pub fn possibly_rewritten_location(check_tree: &TreeNodes, their_location: &[u8], our_changes: &[TrackedChange]) -> (r: Option<
    Vec<u8>,
>)
    requires
        nodes_wf(check_tree@),
        conflict(check_tree@, components(their_location@)) matches Some(
            PossibleConflict::PassedRewrittenDirectory { change_idx },
        ) ==> change_idx < our_changes@.len(),
    ensures
        match conflict(check_tree@, components(their_location@)) {
            Some(PossibleConflict::PassedRewrittenDirectory { change_idx }) => match r {
                Some(p) => rewritten_location_spec(their_location@, our_changes@[change_idx as int].inner) == Some(p@),
                None => rewritten_location_spec(their_location@, our_changes@[change_idx as int].inner) is None,
            },
            _ => r is None,
        },
{
    match check_tree.check_conflict(their_location) {
        Some(PossibleConflict::PassedRewrittenDirectory { change_idx }) => {
            assert(change_idx < our_changes@.len());
            rewrite_location_with_renamed_directory(their_location, &our_changes[change_idx].inner)
        },
        _ => None,
    }
}

// ---------------------------------------------------------------------------------------------
// Applying changes to an editor, and finding free paths.

/// The components of `comps` as slices.
fn as_slices(comps: &Vec<Vec<u8>>) -> (r: Vec<&[u8]>)
    ensures
        r@.map_values(|c: &[u8]| c@) == comps@.map_values(|c: Vec<u8>| c@),
{
    let mut out: Vec<&[u8]> = Vec::new();
    let mut i: usize = 0;
    while i < comps.len()
        invariant
            i <= comps@.len(),
            out@.map_values(|c: &[u8]| c@) == comps@.map_values(|c: Vec<u8>| c@).subrange(0, i as int),
        decreases comps.len() - i,
    {
        let ghost before = out@.map_values(|c: &[u8]| c@);
        let part = comps[i].as_slice();
        assert(part@ == comps@[i as int]@);
        out.push(part);
        assert(out@.map_values(|c: &[u8]| c@) =~= before.push(part@));
        assert(comps@.map_values(|c: Vec<u8>| c@).subrange(0, i + 1) =~= comps@.map_values(|c: Vec<u8>| c@).subrange(0, i as int).push(part@));
        i += 1;
    }
    assert(comps@.map_values(|c: Vec<u8>| c@).subrange(0, comps@.len() as int) =~= comps@.map_values(|c: Vec<u8>| c@));
    out
}

/// `alternative` if there is one, else `location`.
pub open spec fn or_location(alternative: Option<&[u8]>, location: Seq<u8>) -> Seq<u8> {
    match alternative {
        Some(a) => a@,
        None => location,
    }
}

/// Place an entry of `mode` with `id` at `location` in `editor`.
fn upsert_at_location<F: FindTree>(editor: &mut Editor<'_, F>, location: &[u8], mode: EntryMode, id: &ObjectId) -> (r: Result<(), EditError>)
    requires
        old(editor).wf(),
    ensures
        final(editor).wf(),
        final(editor).hash_kind() == old(editor).hash_kind(),
        final(editor).objects() == old(editor).objects(),
        match r {
            Ok(()) => upsert_end(old(editor).objects(), old(editor).trees(), location@, mode, id@) == (final(editor).trees(), WalkEnd::Done),
            Err(EditError::EmptyPathComponent) => upsert_end(old(editor).objects(), old(editor).trees(), location@, mode, id@)
                == (final(editor).trees(), WalkEnd::EmptyComponent),
            Err(EditError::FindExistingObject(_)) => upsert_end_loads(old(editor).objects(), old(editor).trees(), location@, mode, id@),
            Err(EditError::CannotRemoveNonLeaf { .. }) => false,
        },
{
    let comps = to_components(location);
    let slices = as_slices(&comps);
    editor.upsert_in_place(slices.as_slice(), mode.kind(), id.copied())
}

/// Remove the entry at `location` from `editor`.
fn remove_at_location<F: FindTree>(editor: &mut Editor<'_, F>, location: &[u8]) -> (r: Result<(), EditError>)
    requires
        old(editor).wf(),
    ensures
        final(editor).wf(),
        final(editor).hash_kind() == old(editor).hash_kind(),
        final(editor).objects() == old(editor).objects(),
        match r {
            Ok(()) => remove_walk(old(editor).trees(), old(editor).objects(), seq![], components(location@), false)
                == (final(editor).trees(), WalkEnd::Done),
            Err(EditError::EmptyPathComponent) => remove_walk(old(editor).trees(), old(editor).objects(), seq![], components(location@), false)
                == (final(editor).trees(), WalkEnd::EmptyComponent),
            Err(EditError::FindExistingObject(_)) => remove_loads(old(editor).trees(), old(editor).objects(), seq![], components(location@), false),
            Err(EditError::CannotRemoveNonLeaf { .. }) => false,
        },
{
    let comps = to_components(location);
    let slices = as_slices(&comps);
    editor.remove_in_place(slices.as_slice())
}

/// Placing an entry of `mode` with `id` at `location` in the trees `before`, loading from
/// `objects`: the trees afterwards and how the walk ended.
pub open spec fn upsert_end<F: FindTree>(objects: &F, before: Trees, location: Seq<u8>, mode: EntryMode, id: Seq<u8>) -> (
    Trees,
    WalkEnd,
) {
    let walk = upsert_walk(before, objects, seq![], components(location), kind_of(mode.value), id, false);
    (walk.0, walk.2)
}

/// The walk of [`upsert_end`] loads an existing tree from `objects`.
pub open spec fn upsert_end_loads<F: FindTree>(objects: &F, before: Trees, location: Seq<u8>, mode: EntryMode, id: Seq<u8>) -> bool {
    upsert_loads(before, objects, seq![], components(location), kind_of(mode.value), id, false)
}

/// One of the walks of [`change_walk`] loads an existing tree from `objects`: the removal of the
/// source of a rewrite that is no copy, or, where that removal ended well, the placing after it.
pub open spec fn change_loads<F: FindTree>(objects: &F, before: Trees, change: Change, target: Seq<u8>) -> bool {
    match change {
        Change::Deletion { .. } => remove_loads(before, objects, seq![], components(target), false),
        Change::Rewrite { source_location, entry_mode, id, copy, .. } => if copy {
            upsert_end_loads(objects, before, target, entry_mode, id@)
        } else {
            let removed = remove_walk(before, objects, seq![], components(source_location@), false);
            remove_loads(before, objects, seq![], components(source_location@), false) || (removed.1 == WalkEnd::Done
                && upsert_end_loads(objects, removed.0, target, entry_mode, id@))
        },
        _ => upsert_end_loads(objects, before, target, change.spec_entry_mode(), change_id(change)),
    }
}

/// What applying `change` at `target` does to the trees `before`, loading from `objects`: the
/// trees afterwards and how the walk ended, where a rewrite that is no copy first removes its
/// source and stops there unless that walk ended well.
pub open spec fn change_walk<F: FindTree>(objects: &F, before: Trees, change: Change, target: Seq<u8>) -> (Trees, WalkEnd) {
    match change {
        Change::Deletion { .. } => remove_walk(before, objects, seq![], components(target), false),
        Change::Rewrite { source_location, entry_mode, id, copy, .. } => if copy {
            upsert_end(objects, before, target, entry_mode, id@)
        } else {
            let removed = remove_walk(before, objects, seq![], components(source_location@), false);
            if removed.1 == WalkEnd::Done {
                upsert_end(objects, removed.0, target, entry_mode, id@)
            } else {
                removed
            }
        },
        _ => upsert_end(objects, before, target, change.spec_entry_mode(), change_id(change)),
    }
}

/// The id of the entry after `change`.
pub open spec fn change_id(change: Change) -> Seq<u8> {
    match change {
        Change::Addition { id, .. } => id@,
        Change::Deletion { id, .. } => id@,
        Change::Modification { id, .. } => id@,
        Change::Rewrite { id, .. } => id@,
    }
}

/// Apply `change` to `editor` unconditionally, at `alternative_location` if given: changes of
/// trees do nothing, deletions remove, and everything else places its entry, where a rewrite that
/// is no copy first removes its source.
pub fn apply_change<F: FindTree>(editor: &mut Editor<'_, F>, change: &Change, alternative_location: Option<&[u8]>) -> (r: Result<
    (),
    EditError,
>)
    requires
        old(editor).wf(),
    ensures
        final(editor).wf(),
        final(editor).hash_kind() == old(editor).hash_kind(),
        final(editor).objects() == old(editor).objects(),
        is_tree_mode(change.spec_entry_mode()) ==> r is Ok && final(editor).trees() == old(editor).trees(),
        !is_tree_mode(change.spec_entry_mode()) ==> match r {
            Ok(()) => change_walk(old(editor).objects(), old(editor).trees(), *change, or_location(alternative_location, change.spec_location()))
                == (final(editor).trees(), WalkEnd::Done),
            Err(EditError::EmptyPathComponent) => change_walk(
                old(editor).objects(),
                old(editor).trees(),
                *change,
                or_location(alternative_location, change.spec_location()),
            ) == (final(editor).trees(), WalkEnd::EmptyComponent),
            Err(EditError::FindExistingObject(_)) => change_loads(
                old(editor).objects(),
                old(editor).trees(),
                *change,
                or_location(alternative_location, change.spec_location()),
            ),
            Err(EditError::CannotRemoveNonLeaf { .. }) => false,
        },
{
    if change.entry_mode().is_tree() {
        return Ok(());
    }
    match change {
        Change::Addition { location, entry_mode, id, .. } | Change::Modification { location, entry_mode, id, .. } => {
            let target = match alternative_location {
                Some(a) => a,
                None => location.as_slice(),
            };
            upsert_at_location(editor, target, *entry_mode, id)
        },
        Change::Deletion { location, .. } => {
            let target = match alternative_location {
                Some(a) => a,
                None => location.as_slice(),
            };
            remove_at_location(editor, target)
        },
        Change::Rewrite { source_location, entry_mode, id, location, copy, .. } => {
            if !*copy {
                match remove_at_location(editor, source_location.as_slice()) {
                    Ok(()) => {},
                    Err(e) => {
                        return Err(e);
                    },
                }
            }
            let target = match alternative_location {
                Some(a) => a,
                None => location.as_slice(),
            };
            upsert_at_location(editor, target, *entry_mode, id)
        },
    }
}

// ---------------------------------------------------------------------------------------------
// Merging the blobs of two changes.

/// What merging blob `ours` with blob `theirs`, both changed from `previous`, comes to before any
/// content is looked at, with the sides as `outer_side` maps them: equal ids (which can happen
/// where only the modes differ) give theirs, complete; two symbolic links differ by their target,
/// so one of them is picked as a binary merge with `symlink_conflicts` picks; anything else needs
/// its content merged (`None`).
pub open spec fn blob_merge_shortcut_spec(
    our_id: Seq<u8>,
    our_mode: EntryMode,
    their_id: Seq<u8>,
    their_mode: EntryMode,
    previous_id: Seq<u8>,
    outer_side: ConflictMapping,
    symlink_conflicts: Option<BinaryResolveWith>,
) -> Option<(Seq<u8>, Resolution)> {
    if our_id == their_id {
        Some((their_id, Resolution::Complete))
    } else if kind_of(our_mode.value) == EntryKind::Link && kind_of(their_mode.value) == EntryKind::Link {
        let (ours, theirs) = if outer_side == ConflictMapping::Original {
            (our_id, their_id)
        } else {
            (their_id, our_id)
        };
        let (pick, resolution) = binary_merge_spec(symlink_conflicts);
        let id = match pick {
            Pick::Ancestor => previous_id,
            Pick::Ours => ours,
            _ => theirs,
        };
        Some((id, resolution))
    } else {
        None
    }
}

/// Decide a blob merge before its content is looked at, as [`blob_merge_shortcut_spec`] says.
pub fn blob_merge_shortcut(
    our_id: &ObjectId,
    our_mode: EntryMode,
    their_id: &ObjectId,
    their_mode: EntryMode,
    previous_id: &ObjectId,
    outer_side: ConflictMapping,
    symlink_conflicts: Option<BinaryResolveWith>,
) -> (r: Option<(ObjectId, Resolution)>)
    ensures
        match blob_merge_shortcut_spec(our_id@, our_mode, their_id@, their_mode, previous_id@, outer_side, symlink_conflicts) {
            Some((id, resolution)) => r matches Some(x) && x.0@ == id && x.1 == resolution,
            None => r is None,
        },
{
    if slice_eq(our_id.bytes.as_slice(), their_id.bytes.as_slice()) {
        return Some((their_id.copied(), Resolution::Complete));
    }
    if our_mode.kind() == EntryKind::Link && their_mode.kind() == EntryKind::Link {
        let (pick, resolution) = binary_merge(symlink_conflicts);
        let (ours, theirs) = match outer_side {
            ConflictMapping::Original => (our_id, their_id),
            ConflictMapping::Swapped => (their_id, our_id),
        };
        let id = match pick {
            Pick::Ancestor => previous_id.copied(),
            Pick::Ours => ours.copied(),
            _ => theirs.copied(),
        };
        return Some((id, resolution));
    }
    None
}

/// The size of the conflict markers of a text merge whose configured markers have `marker_size`
/// characters: `extra_markers` more, and twice the `multiplier` more again, saturating at the
/// largest byte.
pub open spec fn conflict_marker_size_spec(marker_size: u8, extra_markers: u8, multiplier: u8) -> u8 {
    let extra = if extra_markers + 2 * multiplier > 255 {
        255
    } else {
        extra_markers + 2 * multiplier
    };
    if marker_size + extra > 255 {
        255u8
    } else {
        (marker_size + extra) as u8
    }
}

/// Compute [`conflict_marker_size_spec`].
pub fn conflict_marker_size(marker_size: u8, extra_markers: u8, multiplier: u8) -> (r: u8)
    ensures
        r == conflict_marker_size_spec(marker_size, extra_markers, multiplier),
{
    let doubled: u16 = if multiplier > 127 {
        255
    } else {
        2 * multiplier as u16
    };
    let extra: u16 = if extra_markers as u16 + doubled > 255 {
        255
    } else {
        extra_markers as u16 + doubled
    };
    if marker_size as u16 + extra > 255 {
        255
    } else {
        (marker_size as u16 + extra) as u8
    }
}

/// The label of a side in conflict markers where the sides are at different locations: its name,
/// a colon and its `location`.
pub open spec fn located_label(side: Seq<u8>, location: Seq<u8>) -> Seq<u8> {
    side + seq![58u8] + location
}

/// Compute [`located_label`].
pub fn combined_label(side: &[u8], location: &[u8]) -> (r: Vec<u8>)
    ensures
        r@ == located_label(side@, location@),
{
    let mut out = copy_range(side, 0, side.len());
    assert(out@ =~= side@);
    out.push(58u8);
    let mut i: usize = 0;
    while i < location.len()
        invariant
            i <= location@.len(),
            out@ == side@ + seq![58u8] + location@.subrange(0, i as int),
        decreases location.len() - i,
    {
        out.push(location[i]);
        i += 1;
        assert(out@ =~= side@ + seq![58u8] + location@.subrange(0, i as int));
    }
    assert(location@.subrange(0, i as int) =~= location@);
    out
}

/// The decimal digits of `n`.
pub open spec fn decimal(n: nat) -> Seq<u8>
    decreases n,
{
    if n < 10 {
        seq![(48 + n) as u8]
    } else {
        decimal(n / 10) + seq![(48 + n % 10) as u8]
    }
}

/// Append the decimal digits of `n` to `out`.
pub(crate) fn push_decimal(out: &mut Vec<u8>, n: usize)
    ensures
        final(out)@ == old(out)@ + decimal(n as nat),
    decreases n,
{
    if n >= 10 {
        push_decimal(out, n / 10);
    }
    let ghost mid = out@;
    out.push(48 + (n % 10) as u8);
    assert(out@ =~= old(out)@ + decimal(n as nat));
}

/// `~side`, where the slashes of the side's name become underscores.
pub open spec fn qualifier_of(side: Seq<u8>) -> Seq<u8> {
    seq![126u8] + side.map_values(|b: u8| if b == 47 {
        95u8
    } else {
        b
    })
}

/// The `k`-th try at qualifying the component of `path` that ends at `end`: the qualifier after
/// it, then from the second try on `_` and the number of the try counted from zero.
pub open spec fn candidate(path: Seq<u8>, end: int, qualifier: Seq<u8>, k: nat) -> Seq<u8> {
    path.subrange(0, end) + qualifier + (if k == 0 {
        seq![]
    } else {
        seq![95u8] + decimal((k - 1) as nat)
    }) + path.subrange(end, path.len() as int)
}

/// `true` if nothing is at `p`: the trees hold no entry there, and it overlaps no indexed change,
/// other than by passing a rewritten directory.
pub open spec fn is_free(trees: Trees, nodes: Seq<NodeView>, p: Seq<u8>) -> bool {
    &&& lookup(trees, seq![], components(p)) is None
    &&& (conflict(nodes, components(p)) is None || conflict(nodes, components(p)) matches Some(
        PossibleConflict::PassedRewrittenDirectory { .. },
    ))
}

/// The index of the last slash in `s` before `end`.
fn last_slash(s: &[u8], end: usize) -> (r: Option<usize>)
    requires
        end <= s@.len(),
    ensures
        match r {
            Some(k) => k < end && s@[k as int] == 47 && forall|j: int| k < j < end ==> s@[j] != 47,
            None => forall|j: int| 0 <= j < end ==> s@[j] != 47,
        },
{
    let mut i = end;
    while i > 0
        invariant
            i <= end <= s@.len(),
            forall|j: int| i <= j < end ==> s@[j] != 47,
        decreases i,
    {
        if s[i - 1] == 47 {
            return Some(i - 1);
        }
        i -= 1;
    }
    None
}

/// Build the `k`-th try at qualifying the component of `path` that ends at `end`.
fn build_candidate(path: &[u8], end: usize, qualifier: &Vec<u8>, k: usize) -> (r: Vec<u8>)
    requires
        end <= path@.len(),
    ensures
        r@ == candidate(path@, end as int, qualifier@, k as nat),
{
    let mut buf = copy_range(path, 0, end);
    let mut i: usize = 0;
    let ghost start = buf@;
    while i < qualifier.len()
        invariant
            i <= qualifier@.len(),
            buf@ == start + qualifier@.subrange(0, i as int),
        decreases qualifier.len() - i,
    {
        buf.push(qualifier[i]);
        i += 1;
        assert(buf@ =~= start + qualifier@.subrange(0, i as int));
    }
    assert(qualifier@.subrange(0, qualifier@.len() as int) =~= qualifier@);
    let ghost qualified = buf@;
    if k > 0 {
        buf.push(95);
        push_decimal(&mut buf, k - 1);
    }
    let ghost numbered = buf@;
    assert(numbered == qualified + (if k == 0 {
        Seq::<u8>::empty()
    } else {
        seq![95u8] + decimal((k - 1) as nat)
    }));
    let rest = copy_range(path, end, path.len());
    let mut j: usize = 0;
    while j < rest.len()
        invariant
            j <= rest@.len(),
            buf@ == numbered + rest@.subrange(0, j as int),
        decreases rest.len() - j,
    {
        buf.push(rest[j]);
        j += 1;
        assert(buf@ =~= numbered + rest@.subrange(0, j as int));
    }
    assert(rest@.subrange(0, rest@.len() as int) =~= rest@);
    assert(buf@ =~= candidate(path@, end as int, qualifier@, k as nat));
    buf
}

/// No slash stands before `end` in `path`: the component ending there is at the root.
pub open spec fn at_root(path: Seq<u8>, end: int) -> bool {
    forall|i: int| 0 <= i < end ==> path[i] != 47
}

/// The `k`-th candidate that qualifies the component of `path` ending at `end` lies below a
/// non-tree of the indexed changes, away from the root: no candidate there can become free.
pub open spec fn blocked_at(nodes: Seq<NodeView>, path: Seq<u8>, end: int, qualifier: Seq<u8>, k: nat) -> bool {
    &&& !at_root(path, end)
    &&& conflict(nodes, components(candidate(path, end, qualifier, k))) matches Some(PossibleConflict::NonTreeToTree { .. })
}

/// The first `k` candidates for the component ending at `end` are neither blocked nor free.
pub open spec fn searched(trees: Trees, nodes: Seq<NodeView>, path: Seq<u8>, end: int, qualifier: Seq<u8>, k: nat) -> bool {
    forall|j: nat|
        j < k ==> !blocked_at(nodes, path, end, qualifier, j) && !is_free(trees, nodes, #[trigger] candidate(path, end, qualifier, j))
}

/// The search at the component ending at `end` met a blocked candidate before a free one.
pub open spec fn blocked_first(trees: Trees, nodes: Seq<NodeView>, path: Seq<u8>, end: int, qualifier: Seq<u8>) -> bool {
    exists|k: nat| k < usize::MAX && #[trigger] blocked_at(nodes, path, end, qualifier, k) && searched(trees, nodes, path, end, qualifier, k)
}

/// The search reaches the component ending at `end`: it ends where a component ends, and the
/// search at every component end after it met a blocked candidate first.
pub open spec fn reached(trees: Trees, nodes: Seq<NodeView>, path: Seq<u8>, qualifier: Seq<u8>, end: int) -> bool {
    &&& 0 <= end <= path.len()
    &&& end == path.len() || path[end] == 47
    &&& forall|e: int|
        end < e <= path.len() && (e == path.len() || path[e] == 47) ==> #[trigger] blocked_first(trees, nodes, path, e, qualifier)
}

/// Where the search at one component end stopped.
enum SearchStop {
    /// At the free candidate `path`, the `k`-th.
    Free(Vec<u8>, usize),
    /// At the blocked `k`-th candidate.
    Blocked(usize),
    /// Nowhere: every candidate numbered below `usize::MAX` was taken.
    Exhausted,
}

/// Try the candidates for the component of `file_path` ending at `end`, in order.
fn search_at<F: FindTree>(
    file_path: &[u8],
    editor: &Editor<'_, F>,
    tree: &TreeNodes,
    qualifier: &Vec<u8>,
    end: usize,
    root: bool,
) -> (r: SearchStop)
    requires
        nodes_wf(tree@),
        end <= file_path@.len(),
        root == at_root(file_path@, end as int),
    ensures
        match r {
            SearchStop::Free(p, k) => {
                &&& k < usize::MAX
                &&& p@ == candidate(file_path@, end as int, qualifier@, k as nat)
                &&& !blocked_at(tree@, file_path@, end as int, qualifier@, k as nat)
                &&& is_free(editor.trees(), tree@, p@)
                &&& searched(editor.trees(), tree@, file_path@, end as int, qualifier@, k as nat)
            },
            SearchStop::Blocked(k) => {
                &&& k < usize::MAX
                &&& blocked_at(tree@, file_path@, end as int, qualifier@, k as nat)
                &&& searched(editor.trees(), tree@, file_path@, end as int, qualifier@, k as nat)
            },
            SearchStop::Exhausted => searched(editor.trees(), tree@, file_path@, end as int, qualifier@, usize::MAX as nat),
        },
{
    let mut k: usize = 0;
    while k < usize::MAX
        invariant
            k <= usize::MAX,
            nodes_wf(tree@),
            end <= file_path@.len(),
            root == at_root(file_path@, end as int),
            searched(editor.trees(), tree@, file_path@, end as int, qualifier@, k as nat),
        decreases usize::MAX - k,
    {
        let buf = build_candidate(file_path, end, qualifier, k);
        let conflict = tree.check_conflict(buf.as_slice());
        if !root && matches!(conflict, Some(PossibleConflict::NonTreeToTree { .. })) {
            return SearchStop::Blocked(k);
        }
        assert(!blocked_at(tree@, file_path@, end as int, qualifier@, k as nat));
        let comps = to_components(buf.as_slice());
        let slices = as_slices(&comps);
        let taken = editor.get(slices.as_slice()).is_some();
        let passing = match conflict {
            None => true,
            Some(PossibleConflict::PassedRewrittenDirectory { .. }) => true,
            _ => false,
        };
        assert(slices@.map_values(|c: &[u8]| c@) == components(buf@));
        if !taken && passing {
            assert(is_free(editor.trees(), tree@, buf@));
            return SearchStop::Free(buf, k);
        }
        assert(!is_free(editor.trees(), tree@, candidate(file_path@, end as int, qualifier@, k as nat)));
        assert forall|j: nat| j < k + 1 implies !blocked_at(tree@, file_path@, end as int, qualifier@, j) && !is_free(
            editor.trees(),
            tree@,
            #[trigger] candidate(file_path@, end as int, qualifier@, j),
        ) by {
            if j < k {
                assert(candidate(file_path@, end as int, qualifier@, j) == candidate(file_path@, end as int, qualifier@, j));
            }
        }
        k += 1;
    }
    SearchStop::Exhausted
}

/// A path for `file_path` that is qualified by `side_name` and free in `editor` and `tree`.
///
/// The file keeps its directory, as in `a/b~side`, trying `a/b~side_0`, `a/b~side_1` and so on
/// while those are taken. Where a non-tree change blocks the directory, the blocking component
/// is qualified instead, as in `a~side/b`. The error comes only after trying every number a
/// `usize` holds.
pub fn unique_path_in_tree<F: FindTree>(file_path: &[u8], editor: &Editor<'_, F>, tree: &TreeNodes, side_name: &[u8]) -> (r:
    Result<Vec<u8>, Error>)
    requires
        nodes_wf(tree@),
    ensures
        match r {
            Ok(p) => exists|end: int, k: nat|
                #![trigger candidate(file_path@, end, qualifier_of(side_name@), k)]
                {
                    &&& reached(editor.trees(), tree@, file_path@, qualifier_of(side_name@), end)
                    &&& k < usize::MAX
                    &&& p@ == candidate(file_path@, end, qualifier_of(side_name@), k)
                    &&& !blocked_at(tree@, file_path@, end, qualifier_of(side_name@), k)
                    &&& is_free(editor.trees(), tree@, p@)
                    &&& searched(editor.trees(), tree@, file_path@, end, qualifier_of(side_name@), k)
                },
            Err(_) => exists|end: int|
                #[trigger] reached(editor.trees(), tree@, file_path@, qualifier_of(side_name@), end) && searched(
                    editor.trees(),
                    tree@,
                    file_path@,
                    end,
                    qualifier_of(side_name@),
                    usize::MAX as nat,
                ),
        },
{
    let mut qualifier: Vec<u8> = Vec::new();
    qualifier.push(126);
    let mut q: usize = 0;
    while q < side_name.len()
        invariant
            q <= side_name@.len(),
            qualifier@ == seq![126u8] + side_name@.subrange(0, q as int).map_values(|b: u8| if b == 47 {
                95u8
            } else {
                b
            }),
        decreases side_name.len() - q,
    {
        let b = side_name[q];
        qualifier.push(if b == 47 {
            95
        } else {
            b
        });
        q += 1;
        assert(qualifier@ =~= seq![126u8] + side_name@.subrange(0, q as int).map_values(|b: u8| if b == 47 {
            95u8
        } else {
            b
        }));
    }
    assert(side_name@.subrange(0, side_name@.len() as int) =~= side_name@);
    assert(qualifier@ == qualifier_of(side_name@));
    let ghost trees = editor.trees();
    let ghost path = file_path@;
    let ghost qv = qualifier@;
    let mut component_end = file_path.len();
    loop
        invariant
            component_end <= file_path@.len(),
            qualifier@ == qualifier_of(side_name@),
            qv == qualifier@,
            path == file_path@,
            trees == editor.trees(),
            nodes_wf(tree@),
            reached(trees, tree@, path, qv, component_end as int),
        decreases component_end,
    {
        let slash = last_slash(file_path, component_end);
        match search_at(file_path, editor, tree, &qualifier, component_end, slash.is_none()) {
            SearchStop::Free(p, k) => {
                assert(reached(trees, tree@, path, qv, component_end as int));
                return Ok(p);
            },
            SearchStop::Exhausted => {
                assert(reached(trees, tree@, path, qv, component_end as int));
                return Err(Error::Other("no free path was found for the qualified file".to_owned()));
            },
            SearchStop::Blocked(k) => {
                let s = match slash {
                    Some(s) => s,
                    None => {
                        proof {
                            assert(at_root(path, component_end as int));
                            assert(false);
                        }
                        return Err(Error::Other("no free path was found for the qualified file".to_owned()));
                    },
                };
                proof {
                    let old_end = component_end as int;
                    assert(blocked_first(trees, tree@, path, old_end, qv));
                    assert forall|e: int| s < e <= path.len() && (e == path.len() || path[e] == 47) implies #[trigger] blocked_first(
                        trees,
                        tree@,
                        path,
                        e,
                        qv,
                    ) by {
                        if e < old_end {
                            assert(path[e] != 47);
                        }
                    }
                }
                component_end = s;
            },
        }
    }
}

} // verus!
