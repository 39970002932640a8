//! One side's changes against the base, indexed by their paths, and how a change of the other
//! side finds the change of this side that it meets.
use vstd::prelude::*;

use crate::bytes::slice_eq;
use crate::merge::tree::utils::{
    child_from, child_of, components, conflict, conflict_from, nodes_wf, track_change_spec, Change, ChangeLocation,
    ChangeState, NodeView, Relation, TrackedChange, TreeNodes,
};
use crate::find::FindTree;
use crate::merge::tree::utils::{apply_change, change_loads, change_walk, ChangeDisposition};
use crate::merge::tree::{ConflictMapping, Error, PossibleConflict};
use crate::object_tree::editor::{Editor, Error as EditError, WalkEnd};
use crate::object_tree::is_tree_mode;
use std::cmp::Ordering;

verus! {

/// The changes of one side and their index by path, whose entries point into the changes.
pub struct SideState {
    /// The changes, with their scheduling state.
    pub changes: Vec<TrackedChange>,
    /// The index of the changes by path.
    pub tree: TreeNodes,
}

/// An index with nothing but its root.
pub open spec fn root_only() -> Seq<NodeView> {
    seq![NodeView { children: seq![], change_idx: None, change_is_tree: false, location: ChangeLocation::CurrentLocation }]
}

/// The index of the first `n` of `changes`, each under its own position.
pub open spec fn indexed(changes: Seq<TrackedChange>, n: int) -> Seq<NodeView>
    decreases n,
{
    if n <= 0 {
        root_only()
    } else {
        track_change_spec(indexed(changes, n - 1), changes[n - 1].inner, (n - 1) as usize)
    }
}

/// The source id of `change` if it is a rewrite that belongs to no rewritten directory.
pub open spec fn unrelated_source(change: Change) -> Option<Seq<u8>> {
    match change {
        Change::Rewrite { source_id, relation: None, .. } => Some(source_id@),
        _ => None,
    }
}

/// Two rewrites of `changes` that belong to no rewritten directory have the same source id.
pub open spec fn ambiguous_sources(changes: Seq<TrackedChange>) -> bool {
    exists|i: int, j: int|
        0 <= i < j < changes.len() && #[trigger] unrelated_source(changes[i].inner) is Some && unrelated_source(
            changes[i].inner,
        ) == #[trigger] unrelated_source(changes[j].inner)
}

/// The order of byte strings: by their first differing byte, a prefix before what it begins.
pub open spec fn bytes_order(a: Seq<u8>, b: Seq<u8>) -> Ordering
    decreases a.len(),
{
    if a.len() == 0 {
        if b.len() == 0 {
            Ordering::Equal
        } else {
            Ordering::Less
        }
    } else if b.len() == 0 {
        Ordering::Greater
    } else if a[0] < b[0] {
        Ordering::Less
    } else if a[0] > b[0] {
        Ordering::Greater
    } else {
        bytes_order(a.drop_first(), b.drop_first())
    }
}

/// The order of pairs of byte strings: by their first, then by their second.
pub open spec fn pair_order(a: (Seq<u8>, Seq<u8>), b: (Seq<u8>, Seq<u8>)) -> Ordering {
    match bytes_order(a.0, b.0) {
        Ordering::Equal => bytes_order(a.1, b.1),
        first => first,
    }
}

/// The order of sequences of pairs: by their first differing pair, a prefix before what it
/// begins.
pub open spec fn pairs_order(a: Seq<(Seq<u8>, Seq<u8>)>, b: Seq<(Seq<u8>, Seq<u8>)>) -> Ordering
    decreases a.len(),
{
    if a.len() == 0 {
        if b.len() == 0 {
            Ordering::Equal
        } else {
            Ordering::Less
        }
    } else if b.len() == 0 {
        Ordering::Greater
    } else {
        match pair_order(a[0], b[0]) {
            Ordering::Equal => pairs_order(a.drop_first(), b.drop_first()),
            first => first,
        }
    }
}

/// The source and destination paths of each of `changes`, in their order.
pub open spec fn schedule_keys(changes: Seq<TrackedChange>) -> Seq<(Seq<u8>, Seq<u8>)> {
    changes.map_values(|c: TrackedChange| (c.inner.spec_source_location(), c.inner.spec_location()))
}

/// What follows the first `i` elements of `s`.
pub open spec fn tail<A>(s: Seq<A>, i: usize) -> Seq<A> {
    s.subrange(i as int, s.len() as int)
}

/// Compare the byte strings `a` and `b`.
fn bytes_cmp(a: &[u8], b: &[u8]) -> (r: Ordering)
    ensures
        r == bytes_order(a@, b@),
{
    let mut i: usize = 0;
    assert(tail(a@, 0) =~= a@);
    assert(tail(b@, 0) =~= b@);
    while i < a.len() && i < b.len()
        invariant
            i <= a@.len(),
            i <= b@.len(),
            bytes_order(a@, b@) == bytes_order(tail(a@, i), tail(b@, i)),
        decreases a.len() - i,
    {
        let x = a[i];
        let y = b[i];
        if x < y {
            return Ordering::Less;
        }
        if x > y {
            return Ordering::Greater;
        }
        let ghost before = (tail(a@, i), tail(b@, i));
        i += 1;
        assert(before.0.drop_first() =~= tail(a@, i));
        assert(before.1.drop_first() =~= tail(b@, i));
    }
    if i < b.len() {
        Ordering::Less
    } else if i < a.len() {
        Ordering::Greater
    } else {
        Ordering::Equal
    }
}

impl SideState {
    /// Index `changes`, each under its position in the list.
    pub fn from_changes(changes: Vec<TrackedChange>) -> (r: SideState)
        ensures
            r.changes@ == changes@,
            nodes_wf(r.tree@),
            r.tree@ == indexed(changes@, changes@.len() as int),
    {
        let mut tree = TreeNodes::new();
        let mut idx: usize = 0;
        while idx < changes.len()
            invariant
                idx <= changes@.len(),
                nodes_wf(tree@),
                tree@ == indexed(changes@, idx as int),
            decreases changes.len() - idx,
        {
            tree.track_change(&changes[idx].inner, idx);
            idx += 1;
        }
        SideState { changes, tree }
    }

    /// `true` if rewrites that belong to no rewritten directory claim the same source: then
    /// which of them is paired with which addition depends on the order of handling.
    pub fn has_ambiguous_rewrite_sources(&self) -> (r: bool)
        ensures
            r == ambiguous_sources(self.changes@),
    {
        let n = self.changes.len();
        let mut j: usize = 0;
        while j < n
            invariant
                j <= n,
                n == self.changes@.len(),
                forall|a: int, b: int|
                    0 <= a < b < j ==> !(#[trigger] unrelated_source(self.changes@[a].inner) is Some && unrelated_source(
                        self.changes@[a].inner,
                    ) == #[trigger] unrelated_source(self.changes@[b].inner)),
            decreases n - j,
        {
            if let Change::Rewrite { source_id, relation: None, .. } = &self.changes[j].inner {
                let mut i: usize = 0;
                while i < j
                    invariant
                        i <= j < n,
                        n == self.changes@.len(),
                        unrelated_source(self.changes@[j as int].inner) == Some(source_id@),
                        forall|a: int| 0 <= a < i ==> !(#[trigger] unrelated_source(self.changes@[a].inner) == Some(source_id@)),
                    decreases j - i,
                {
                    if let Change::Rewrite { source_id: earlier, relation: None, .. } = &self.changes[i].inner {
                        if slice_eq(earlier.bytes.as_slice(), source_id.bytes.as_slice()) {
                            assert(unrelated_source(self.changes@[i as int].inner) == unrelated_source(self.changes@[j as int].inner));
                            return true;
                        }
                    }
                    i += 1;
                }
            }
            j += 1;
        }
        false
    }

    /// Compare the changes of both sides by their ordered source and destination paths, to
    /// choose the side that is handled first independently of which side is which.
    pub fn cmp_for_scheduling(&self, other: &SideState) -> (r: Ordering)
        ensures
            r == pairs_order(schedule_keys(self.changes@), schedule_keys(other.changes@)),
    {
        let ghost a = schedule_keys(self.changes@);
        let ghost b = schedule_keys(other.changes@);
        let n = self.changes.len();
        let m = other.changes.len();
        let mut k: usize = 0;
        assert(tail(a, 0) =~= a);
        assert(tail(b, 0) =~= b);
        while k < n && k < m
            invariant
                k <= n,
                k <= m,
                n == a.len(),
                m == b.len(),
                a == schedule_keys(self.changes@),
                b == schedule_keys(other.changes@),
                pairs_order(a, b) == pairs_order(tail(a, k), tail(b, k)),
            decreases n - k,
        {
            let mine = &self.changes[k].inner;
            let theirs = &other.changes[k].inner;
            let ghost x = tail(a, k);
            let ghost y = tail(b, k);
            assert(x[0] == (mine.spec_source_location(), mine.spec_location()));
            assert(y[0] == (theirs.spec_source_location(), theirs.spec_location()));
            match bytes_cmp(mine.source_location(), theirs.source_location()) {
                Ordering::Equal => {},
                first => {
                    return first;
                },
            }
            match bytes_cmp(mine.location(), theirs.location()) {
                Ordering::Equal => {},
                second => {
                    return second;
                },
            }
            k += 1;
            assert(x.drop_first() =~= tail(a, k));
            assert(y.drop_first() =~= tail(b, k));
        }
        if k < m {
            Ordering::Less
        } else if k < n {
            Ordering::Greater
        } else {
            Ordering::Equal
        }
    }
}

// ---------------------------------------------------------------------------------------------
// Finding the change of our side that a change of theirs meets.

/// The index of the change that `candidate` points to, if any.
pub open spec fn candidate_idx(candidate: PossibleConflict) -> Option<usize> {
    match candidate {
        PossibleConflict::TreeToNonTree { change_idx } => change_idx,
        PossibleConflict::NonTreeToTree { change_idx } => change_idx,
        PossibleConflict::Match { change_idx } => Some(change_idx),
        PossibleConflict::PassedRewrittenDirectory { change_idx } => Some(change_idx),
    }
}

/// Every change index of the nodes is below `len`.
pub open spec fn indices_below(nodes: Seq<NodeView>, len: nat) -> bool {
    forall|i: int| 0 <= i < nodes.len() ==> (#[trigger] nodes[i].change_idx matches Some(k) ==> k < len)
}

proof fn lemma_conflict_from_below(
    nodes: Seq<NodeView>,
    cursor: int,
    comps: Seq<Seq<u8>>,
    passed: Option<(usize, int)>,
    len: nat,
)
    requires
        nodes_wf(nodes),
        0 <= cursor < nodes.len(),
        indices_below(nodes, len),
        passed matches Some((c, at)) ==> c < len && 0 <= at < nodes.len(),
    ensures
        conflict_from(nodes, cursor, comps, passed) matches Some(p) ==> (candidate_idx(p) matches Some(k) ==> k < len),
    decreases comps.len(),
{
    let node = nodes[cursor];
    assert(node.change_idx matches Some(k) ==> k < len);
    if comps.len() > 0 {
        let next_passed = match node.change_idx {
            Some(c) => Some((c, cursor)),
            None => passed,
        };
        match child_of(node, comps[0]) {
            Some(child) => {
                lemma_child_index(node.children, comps[0], 0);
                let k = choose|k: int| 0 <= k < node.children.len() && node.children[k] == (comps[0], child);
                assert(nodes[cursor].children[k].1 < nodes.len());
                lemma_conflict_from_below(nodes, child as int, comps.drop_first(), next_passed, len);
            },
            None => {},
        }
    }
}

proof fn lemma_child_index(children: Seq<(Seq<u8>, usize)>, name: Seq<u8>, j: int)
    requires
        0 <= j,
    ensures
        child_from(children, name, j) matches Some(c) ==> exists|k: int| 0 <= k < children.len() && children[k] == (name, c),
    decreases children.len() - j,
{
    if j < children.len() && children[j].0 != name {
        lemma_child_index(children, name, j + 1);
    }
}

/// What an index finds for a path, where all its change indices are below `len`, points below
/// `len` too.
proof fn lemma_conflict_below(nodes: Seq<NodeView>, comps: Seq<Seq<u8>>, len: nat)
    requires
        nodes_wf(nodes),
        indices_below(nodes, len),
    ensures
        conflict(nodes, comps) matches Some(p) ==> (candidate_idx(p) matches Some(k) ==> k < len),
{
    if nodes[0].children.len() > 0 {
        lemma_conflict_from_below(nodes, 0, comps, None, len);
    }
}

/// `a` and `b` are the same change: of the same kind, with equal paths, modes and ids.
pub open spec fn same_change(a: Change, b: Change) -> bool {
    match (a, b) {
        (
            Change::Addition { location: l1, relation: r1, entry_mode: m1, id: i1 },
            Change::Addition { location: l2, relation: r2, entry_mode: m2, id: i2 },
        ) => l1@ == l2@ && r1 == r2 && m1 == m2 && i1@ == i2@,
        (
            Change::Deletion { location: l1, relation: r1, entry_mode: m1, id: i1 },
            Change::Deletion { location: l2, relation: r2, entry_mode: m2, id: i2 },
        ) => l1@ == l2@ && r1 == r2 && m1 == m2 && i1@ == i2@,
        (
            Change::Modification { location: l1, previous_entry_mode: pm1, previous_id: p1, entry_mode: m1, id: i1 },
            Change::Modification { location: l2, previous_entry_mode: pm2, previous_id: p2, entry_mode: m2, id: i2 },
        ) => l1@ == l2@ && pm1 == pm2 && p1@ == p2@ && m1 == m2 && i1@ == i2@,
        (
            Change::Rewrite {
                source_location: s1,
                source_entry_mode: sm1,
                source_id: si1,
                entry_mode: m1,
                id: i1,
                location: l1,
                relation: r1,
                copy: c1,
            },
            Change::Rewrite {
                source_location: s2,
                source_entry_mode: sm2,
                source_id: si2,
                entry_mode: m2,
                id: i2,
                location: l2,
                relation: r2,
                copy: c2,
            },
        ) => s1@ == s2@ && sm1 == sm2 && si1@ == si2@ && m1 == m2 && i1@ == i2@ && l1@ == l2@ && r1 == r2 && c1 == c2,
        _ => false,
    }
}

/// `true` if `a` and `b` are the same change.
pub fn changes_equal(a: &Change, b: &Change) -> (r: bool)
    ensures
        r == same_change(*a, *b),
{
    match (a, b) {
        (
            Change::Addition { location: l1, relation: r1, entry_mode: m1, id: i1 },
            Change::Addition { location: l2, relation: r2, entry_mode: m2, id: i2 },
        ) | (
            Change::Deletion { location: l1, relation: r1, entry_mode: m1, id: i1 },
            Change::Deletion { location: l2, relation: r2, entry_mode: m2, id: i2 },
        ) => slice_eq(l1.as_slice(), l2.as_slice()) && relations_equal(r1, r2) && m1.value == m2.value && slice_eq(
            i1.bytes.as_slice(),
            i2.bytes.as_slice(),
        ),
        (
            Change::Modification { location: l1, previous_entry_mode: pm1, previous_id: p1, entry_mode: m1, id: i1 },
            Change::Modification { location: l2, previous_entry_mode: pm2, previous_id: p2, entry_mode: m2, id: i2 },
        ) => slice_eq(l1.as_slice(), l2.as_slice()) && pm1.value == pm2.value && slice_eq(p1.bytes.as_slice(), p2.bytes.as_slice())
            && m1.value == m2.value && slice_eq(i1.bytes.as_slice(), i2.bytes.as_slice()),
        (
            Change::Rewrite {
                source_location: s1,
                source_entry_mode: sm1,
                source_id: si1,
                entry_mode: m1,
                id: i1,
                location: l1,
                relation: r1,
                copy: c1,
            },
            Change::Rewrite {
                source_location: s2,
                source_entry_mode: sm2,
                source_id: si2,
                entry_mode: m2,
                id: i2,
                location: l2,
                relation: r2,
                copy: c2,
            },
        ) => slice_eq(s1.as_slice(), s2.as_slice()) && sm1.value == sm2.value && slice_eq(si1.bytes.as_slice(), si2.bytes.as_slice())
            && m1.value == m2.value && slice_eq(i1.bytes.as_slice(), i2.bytes.as_slice()) && slice_eq(l1.as_slice(), l2.as_slice())
            && relations_equal(r1, r2) && *c1 == *c2,
        _ => false,
    }
}

/// `true` if both relations are equal.
fn relations_equal(a: &Option<Relation>, b: &Option<Relation>) -> (r: bool)
    ensures
        r == (*a == *b),
{
    match (a, b) {
        (None, None) => true,
        (Some(Relation::Parent(x)), Some(Relation::Parent(y))) => *x == *y,
        (Some(Relation::ChildOfParent(x)), Some(Relation::ChildOfParent(y))) => *x == *y,
        _ => false,
    }
}

/// The change with its state set to applied.
pub open spec fn applied(t: TrackedChange) -> TrackedChange {
    TrackedChange {
        inner: t.inner,
        state: ChangeState::Applied,
        needs_tree_insertion: t.needs_tree_insertion,
        rewritten_location: t.rewritten_location,
    }
}

/// The overlap with our changes that a change of theirs, `theirs`, is checked for first: at its
/// location after passing a rewritten directory, `rewritten`, if it has one, else at its source;
/// failing that, a rewrite of theirs is checked at its destination, where only a rewrite of ours
/// counts.
pub open spec fn first_candidate(
    theirs: Change,
    rewritten: Option<Seq<u8>>,
    nodes: Seq<NodeView>,
    ours: Seq<TrackedChange>,
) -> Option<PossibleConflict> {
    let at = match rewritten {
        Some(location) => location,
        None => theirs.spec_source_location(),
    };
    match conflict(nodes, components(at)) {
        Some(c) => Some(c),
        None => match theirs {
            Change::Rewrite { location, .. } => match conflict(nodes, components(location@)) {
                Some(c) => if candidate_idx(c) matches Some(k) && ours[k as int].inner is Rewrite {
                    Some(c)
                } else {
                    None
                },
                None => None,
            },
            _ => None,
        },
    }
}

/// The candidate is not the change of ours that a deferred change of theirs is to ignore.
pub open spec fn not_ignored(candidate: PossibleConflict, needs_tree_insertion: Option<Option<usize>>) -> bool {
    match (candidate_idx(candidate), needs_tree_insertion) {
        (Some(o), Some(Some(ignore))) => o != ignore,
        _ => true,
    }
}

/// What [`matching`] finds for `theirs` among `ours`, and our changes afterwards: nothing where
/// no candidate is found or it is to be ignored; nothing where our change is the same change,
/// which counts as applied with a deletion or rewrite of theirs, as applying theirs removes the
/// same source; nothing where our change is a deletion already applied; else the candidate.
pub open spec fn matching_outcome(
    theirs: Change,
    needs_tree_insertion: Option<Option<usize>>,
    rewritten: Option<Seq<u8>>,
    nodes: Seq<NodeView>,
    ours: Seq<TrackedChange>,
) -> (Option<PossibleConflict>, Seq<TrackedChange>) {
    match first_candidate(theirs, rewritten, nodes, ours) {
        None => (None, ours),
        Some(c) => if !not_ignored(c, needs_tree_insertion) {
            (None, ours)
        } else {
            match candidate_idx(c) {
                None => (Some(c), ours),
                Some(o) => if same_change(ours[o as int].inner, theirs) {
                    (
                        None,
                        if theirs is Deletion || theirs is Rewrite {
                            ours.update(o as int, applied(ours[o as int]))
                        } else {
                            ours
                        },
                    )
                } else if ours[o as int].state == ChangeState::Applied && ours[o as int].inner is Deletion {
                    (None, ours)
                } else {
                    (Some(c), ours)
                },
            }
        },
    }
}

/// The location after passing a rewritten directory that a tracked change carries, if any.
pub open spec fn rewritten_at(rewritten_location: Option<&(Vec<u8>, usize)>) -> Option<Seq<u8>> {
    match rewritten_location {
        Some(r) => Some(r.0@),
        None => None,
    }
}

/// Find the change of ours, indexed by `our_tree`, that `theirs` meets, as [`matching_outcome`]
/// describes it. `rewritten_location` is where `theirs` lands after passing a directory that we
/// rewrote, and `needs_tree_insertion` names, for a deferred change, the change of ours that made
/// it wait, which is not found again.
pub fn matching(
    theirs: &Change,
    needs_tree_insertion: Option<Option<usize>>,
    rewritten_location: Option<&(Vec<u8>, usize)>,
    our_tree: &TreeNodes,
    our_changes: &mut Vec<TrackedChange>,
) -> (r: Option<PossibleConflict>)
    requires
        nodes_wf(our_tree@),
        indices_below(our_tree@, old(our_changes)@.len()),
    ensures
        (r, final(our_changes)@) == matching_outcome(
            *theirs,
            needs_tree_insertion,
            rewritten_at(rewritten_location),
            our_tree@,
            old(our_changes)@,
        ),
        r matches Some(c) ==> (candidate_idx(c) matches Some(k) ==> k < old(our_changes)@.len()),
        final(our_changes)@.len() == old(our_changes)@.len(),
{
    let at = match rewritten_location {
        Some(t) => t.0.as_slice(),
        None => theirs.source_location(),
    };
    let mut candidate = our_tree.check_conflict(at);
    proof {
        lemma_conflict_below(our_tree@, components(at@), our_changes@.len());
    }
    if candidate.is_none() {
        if let Change::Rewrite { location, .. } = theirs {
            let at_destination = our_tree.check_conflict(location.as_slice());
            proof {
                lemma_conflict_below(our_tree@, components(location@), our_changes@.len());
            }
            candidate = match at_destination {
                Some(c) => match c.change_idx() {
                    Some(idx) => if matches!(our_changes[idx].inner, Change::Rewrite { .. }) {
                        Some(c)
                    } else {
                        None
                    },
                    None => None,
                },
                None => None,
            };
        }
    }
    let ours = match candidate {
        Some(c) => c,
        None => {
            return None;
        },
    };
    let ours_idx = ours.change_idx();
    let kept = match (ours_idx, needs_tree_insertion) {
        (Some(o), Some(Some(ignore))) => o != ignore,
        _ => true,
    };
    if !kept {
        return None;
    }
    match ours_idx {
        None => Some(ours),
        Some(o) => {
            if changes_equal(&our_changes[o].inner, theirs) {
                if matches!(theirs, Change::Deletion { .. } | Change::Rewrite { .. }) {
                    let ghost before = our_changes@;
                    our_changes[o].mark_applied();
                    assert(our_changes@ =~= before.update(o as int, applied(before[o as int])));
                }
                None
            } else if our_changes[o].was_applied() && matches!(our_changes[o].inner, Change::Deletion { .. }) {
                None
            } else {
                Some(ours)
            }
        },
    }
}

/// How a candidate of ours is superseded by a change of theirs at a tree/non-tree boundary.
#[derive(Debug, Clone, Copy, PartialEq, Eq, Structural)]
pub enum MatchKind {
    /// A tree of ours is superseded by a non-tree of theirs.
    EraseTree,
    /// A non-tree of ours is superseded by a tree of theirs.
    EraseLeaf,
}

/// The change of ours that `candidate` pairs with a change of theirs, and how their kinds meet:
/// a tree of ours that a deletion, addition or rewrite of ours stands for is erased by their
/// leaf; a leaf of ours, whatever stands there, is erased by their tree; an exact match pairs
/// with no boundary; anything else, a passed rewritten directory among it, pairs with nothing.
pub open spec fn paired(candidate: PossibleConflict, ours: Seq<TrackedChange>) -> (Option<usize>, Option<MatchKind>) {
    match candidate {
        PossibleConflict::TreeToNonTree { change_idx: Some(idx) } => if ours[idx as int].inner is Deletion
            || ours[idx as int].inner is Addition || ours[idx as int].inner is Rewrite {
            (Some(idx), Some(MatchKind::EraseTree))
        } else {
            (None, None)
        },
        PossibleConflict::NonTreeToTree { change_idx } => (change_idx, Some(MatchKind::EraseLeaf)),
        PossibleConflict::Match { change_idx } => (Some(change_idx), None),
        _ => (None, None),
    }
}

/// Turn `candidate`, a match found among `our_changes`, into the pair the resolution works on, as
/// [`paired`] describes it.
pub fn pair(candidate: &PossibleConflict, our_changes: &[TrackedChange]) -> (r: (Option<usize>, Option<MatchKind>))
    requires
        candidate matches PossibleConflict::TreeToNonTree { change_idx: Some(idx) } ==> idx < our_changes@.len(),
    ensures
        r == paired(*candidate, our_changes@),
{
    match *candidate {
        PossibleConflict::TreeToNonTree { change_idx: Some(idx) } => {
            if matches!(our_changes[idx].inner, Change::Deletion { .. } | Change::Addition { .. } | Change::Rewrite { .. }) {
                (Some(idx), Some(MatchKind::EraseTree))
            } else {
                (None, None)
            }
        },
        PossibleConflict::NonTreeToTree { change_idx } => (change_idx, Some(MatchKind::EraseLeaf)),
        PossibleConflict::Match { change_idx } => (Some(change_idx), None),
        _ => (None, None),
    }
}

// ---------------------------------------------------------------------------------------------
// Deferring changes, and applying the side that a resolution picks.

/// Append `change` to `changes` for a later round, to be indexed before it is handled, where
/// `ours_idx` names the change of the other side that made it wait.
pub fn push_deferred(change_and_idx: (Change, Option<usize>), changes: &mut Vec<TrackedChange>)
    ensures
        final(changes)@ == old(changes)@.push(
            TrackedChange {
                inner: change_and_idx.0,
                state: ChangeState::Pending,
                needs_tree_insertion: Some(change_and_idx.1),
                rewritten_location: None,
            },
        ),
{
    push_deferred_with_rewrite(change_and_idx, None, changes);
}

/// Like [`push_deferred`], with the location the change lands at after passing a rewritten
/// directory, and the index of the rewrite it passed.
pub fn push_deferred_with_rewrite(
    change_and_idx: (Change, Option<usize>),
    new_location: Option<(Vec<u8>, usize)>,
    changes: &mut Vec<TrackedChange>,
)
    ensures
        final(changes)@ == old(changes)@.push(
            TrackedChange {
                inner: change_and_idx.0,
                state: ChangeState::Pending,
                needs_tree_insertion: Some(change_and_idx.1),
                rewritten_location: new_location,
            },
        ),
{
    let (change, ours_idx) = change_and_idx;
    changes.push(TrackedChange::new(change, Some(ours_idx), new_location));
}

/// Apply `change` to `editor` at its own location and record that it was applied; a failed edit
/// fails the merge and leaves `disposition` as it was.
pub fn apply_change_and_mark<F: FindTree>(
    editor: &mut Editor<'_, F>,
    change: &Change,
    disposition: &mut ChangeDisposition,
) -> (r: Result<(), Error>)
    requires
        old(editor).wf(),
    ensures
        final(editor).wf(),
        final(editor).hash_kind() == old(editor).hash_kind(),
        final(editor).objects() == old(editor).objects(),
        *final(disposition) == (if r is Ok {
            ChangeDisposition::Applied
        } else {
            *old(disposition)
        }),
        is_tree_mode(change.spec_entry_mode()) ==> r is Ok && final(editor).trees() == old(editor).trees(),
        !is_tree_mode(change.spec_entry_mode()) ==> match r {
            Ok(()) => change_walk(old(editor).objects(), old(editor).trees(), *change, change.spec_location())
                == (final(editor).trees(), WalkEnd::Done),
            Err(Error::Edit(EditError::EmptyPathComponent)) => change_walk(
                old(editor).objects(),
                old(editor).trees(),
                *change,
                change.spec_location(),
            ) == (final(editor).trees(), WalkEnd::EmptyComponent),
            Err(Error::Edit(EditError::FindExistingObject(_))) => change_loads(
                old(editor).objects(),
                old(editor).trees(),
                *change,
                change.spec_location(),
            ),
            Err(_) => false,
        },
{
    match apply_change(editor, change, None) {
        Ok(()) => {
            *disposition = ChangeDisposition::Applied;
            Ok(())
        },
        Err(e) => Err(Error::Edit(e)),
    }
}

/// Apply the change of the side the merge calls ours, given that the local `ours` and `theirs`
/// are swapped against it if `outer_side` says so, and record its disposition.
pub fn apply_our_resolution<F: FindTree>(
    local_ours: &Change,
    local_theirs: &Change,
    outer_side: ConflictMapping,
    editor: &mut Editor<'_, F>,
    local_ours_disposition: &mut ChangeDisposition,
    local_theirs_disposition: &mut ChangeDisposition,
) -> (r: Result<(), Error>)
    requires
        old(editor).wf(),
    ensures
        final(editor).wf(),
        final(editor).hash_kind() == old(editor).hash_kind(),
        final(editor).objects() == old(editor).objects(),
        outer_side == ConflictMapping::Original ==> *final(local_theirs_disposition) == *old(local_theirs_disposition)
            && *final(local_ours_disposition) == (if r is Ok {
            ChangeDisposition::Applied
        } else {
            *old(local_ours_disposition)
        }),
        outer_side == ConflictMapping::Swapped ==> *final(local_ours_disposition) == *old(local_ours_disposition)
            && *final(local_theirs_disposition) == (if r is Ok {
            ChangeDisposition::Applied
        } else {
            *old(local_theirs_disposition)
        }),
        ({
            let picked = if outer_side == ConflictMapping::Original {
                *local_ours
            } else {
                *local_theirs
            };
            &&& is_tree_mode(picked.spec_entry_mode()) ==> r is Ok && final(editor).trees() == old(editor).trees()
            &&& !is_tree_mode(picked.spec_entry_mode()) ==> match r {
                Ok(()) => change_walk(old(editor).objects(), old(editor).trees(), picked, picked.spec_location())
                    == (final(editor).trees(), WalkEnd::Done),
                Err(Error::Edit(EditError::EmptyPathComponent)) => change_walk(
                    old(editor).objects(),
                    old(editor).trees(),
                    picked,
                    picked.spec_location(),
                ) == (final(editor).trees(), WalkEnd::EmptyComponent),
                Err(Error::Edit(EditError::FindExistingObject(_))) => change_loads(
                    old(editor).objects(),
                    old(editor).trees(),
                    picked,
                    picked.spec_location(),
                ),
                Err(_) => false,
            }
        }),
{
    match outer_side {
        ConflictMapping::Original => apply_change_and_mark(editor, local_ours, local_ours_disposition),
        ConflictMapping::Swapped => apply_change_and_mark(editor, local_theirs, local_theirs_disposition),
    }
}

/// The side a tree merge processes as theirs first: the sides swap where their side has no
/// change, or where both have changes, rewrites of one of them claim a source ambiguously, and
/// their changes come after ours in the order of scheduling; else ours stay ours.
pub open spec fn first_outer_side_spec(ours: Seq<TrackedChange>, theirs: Seq<TrackedChange>) -> ConflictMapping {
    let canonical = ambiguous_sources(ours) || ambiguous_sources(theirs);
    if theirs.len() == 0 || (ours.len() > 0 && canonical && pairs_order(schedule_keys(theirs), schedule_keys(ours))
        == Ordering::Greater) {
        ConflictMapping::Swapped
    } else {
        ConflictMapping::Original
    }
}

/// Choose the side a tree merge processes as theirs first, as [`first_outer_side_spec`] says.
pub fn first_outer_side(ours: &SideState, theirs: &SideState) -> (r: ConflictMapping)
    ensures
        r == first_outer_side_spec(ours.changes@, theirs.changes@),
{
    let canonical = ours.has_ambiguous_rewrite_sources() || theirs.has_ambiguous_rewrite_sources();
    let later = canonical && match theirs.cmp_for_scheduling(ours) {
        Ordering::Greater => true,
        _ => false,
    };
    if theirs.changes.len() == 0 || (ours.changes.len() > 0 && later) {
        ConflictMapping::Swapped
    } else {
        ConflictMapping::Original
    }
}

} // verus!
