//! The decisions of a merge of two commits: which tree serves as their common ancestor.
use vstd::prelude::*;

use crate::hash::{HashKind, ObjectId};
use crate::merge::blob::BinaryResolveWith;
use crate::merge::tree::{ContentMergeTreatment, ResolveWith, TreatAsUnresolved, TreeMerge};

verus! {

/// What a merge of two commits takes as the tree of their common ancestor.
#[derive(Debug)]
pub enum MergeBase {
    /// The tree of the only merge base, named by its abbreviated id in conflict markers.
    Single(ObjectId),
    /// The tree of the first of several merge bases, named "merged common ancestors".
    First(ObjectId),
    /// The tree of a virtual commit that merges several merge bases, named "merged common
    /// ancestors": the last merge base is merged with each of `merge_order` in turn.
    Virtual { first: ObjectId, merge_order: Vec<ObjectId> },
    /// The empty tree of this kind, named "empty tree", as the commits have no merge base.
    EmptyTree(HashKind),
}

/// Why a merge of two commits cannot begin.
#[derive(Debug, Clone, Copy, PartialEq, Eq, Structural)]
pub enum CommitError {
    /// The commits have no common ancestor, and merging unrelated commits was not allowed.
    NoMergeBase,
}

/// The ids of `ids`, taken by value.
pub open spec fn ids_view(ids: Seq<ObjectId>) -> Seq<Seq<u8>> {
    ids.map_values(|id: ObjectId| id@)
}

/// Choose the common ancestor of a merge of two commits whose merge bases are `merge_bases`
/// (never empty where there are any), where ids are of `kind`: the only merge base; of several,
/// the first if `use_first_merge_base`, else all of them merged, the last one first with the one
/// before it and then with the others from last to first; and without any, the empty tree where
/// `allow_missing_merge_base`, else an error.
pub fn choose_merge_base(
    merge_bases: Option<&[ObjectId]>,
    kind: HashKind,
    use_first_merge_base: bool,
    allow_missing_merge_base: bool,
) -> (r: Result<MergeBase, CommitError>)
    requires
        merge_bases matches Some(b) ==> b@.len() >= 1,
    ensures
        match merge_bases {
            None => if allow_missing_merge_base {
                r matches Ok(MergeBase::EmptyTree(k)) && k == kind
            } else {
                r == Err::<MergeBase, CommitError>(CommitError::NoMergeBase)
            },
            Some(b) => if b@.len() == 1 {
                r matches Ok(MergeBase::Single(id)) && id@ == b@[0]@
            } else if use_first_merge_base {
                r matches Ok(MergeBase::First(id)) && id@ == b@[0]@
            } else {
                r matches Ok(MergeBase::Virtual { first, merge_order }) && first@ == b@.last()@ && ids_view(merge_order@)
                    == ids_view(b@.subrange(0, b@.len() - 1)).reverse()
            },
        },
{
    match merge_bases {
        None => if allow_missing_merge_base {
            Ok(MergeBase::EmptyTree(kind))
        } else {
            Err(CommitError::NoMergeBase)
        },
        Some(b) => {
            let n = b.len();
            if n == 1 {
                Ok(MergeBase::Single(b[0].copied()))
            } else if use_first_merge_base {
                Ok(MergeBase::First(b[0].copied()))
            } else {
                let ghost rest = ids_view(b@.subrange(0, n - 1));
                let mut merge_order: Vec<ObjectId> = Vec::new();
                let mut k: usize = n - 1;
                while k > 0
                    invariant
                        n == b@.len(),
                        n >= 2,
                        k <= n - 1,
                        rest == ids_view(b@.subrange(0, n - 1)),
                        merge_order@.len() == n - 1 - k,
                        forall|j: int| 0 <= j < merge_order@.len() ==> #[trigger] merge_order@[j]@ == rest.reverse()[j],
                    decreases k,
                {
                    k -= 1;
                    merge_order.push(b[k].copied());
                }
                assert(ids_view(merge_order@) =~= rest.reverse());
                Ok(MergeBase::Virtual { first: b[n - 1].copied(), merge_order })
            }
        },
    }
}

// ---------------------------------------------------------------------------------------------
// Merging several merge bases into one virtual merge base.

/// Where the merge of several merge bases stands: the commit merged so far, the merge bases still
/// to merge into it (the last one next), the marker size multiplier of the last merge, the virtual
/// merge bases created so far, and what it waits for.
pub struct VirtualMergeBase {
    pub merged: ObjectId,
    pub others: Vec<ObjectId>,
    pub marker_size_multiplier: u8,
    pub virtual_merge_bases: Vec<ObjectId>,
    pub phase: VirtualBasePhase,
}

/// What the merge of merge bases waits for.
pub enum VirtualBasePhase {
    /// The merge of the commit merged so far with `next`.
    Merging { next: ObjectId },
    /// The tree of that merge to be written.
    WritingTree { next: ObjectId },
    /// The virtual commit of the merge, with that tree, to be created.
    CreatingCommit { next: ObjectId, tree: ObjectId },
    /// Nothing: the merge ended.
    Finished,
}

/// What happened: a merge of two commits ended, with or without conflicts that count as
/// unresolved and with the virtual merge bases it created itself; its tree was written; or the
/// virtual commit was created.
pub enum VirtualBaseEvent {
    Merged { unresolved: bool, virtual_merge_bases: Vec<ObjectId> },
    TreeWritten(ObjectId),
    CommitCreated(ObjectId),
}

/// How two commits are merged on the way to a virtual merge base: tree conflicts keep the
/// ancestor, binary and symbolic link conflicts take the ancestor, text conflicts take ours, the
/// ancestor is marked as virtual, the sides carry the given labels, conflict markers grow with
/// `marker_size_multiplier`, and the merge fails where a conflict counts as unresolved under
/// `unresolved_if`.
pub struct VirtualBaseMerge {
    pub ours: ObjectId,
    pub theirs: ObjectId,
    pub marker_size_multiplier: u8,
    pub current_label: &'static str,
    pub other_label: &'static str,
    pub tree_conflicts: ResolveWith,
    pub resolve_binary_with: BinaryResolveWith,
    pub symlink_conflicts: BinaryResolveWith,
    pub text_conflicts_take_ours: bool,
    pub is_virtual_ancestor: bool,
    pub unresolved_if: TreatAsUnresolved,
}

/// What to do next: merge two commits, write the merged tree, create a virtual commit with two
/// parents and a tree, end with the virtual merge base, or fail as a merge left conflicts that
/// count as unresolved.
pub enum VirtualBaseAction {
    MergeCommits(VirtualBaseMerge),
    WriteTree,
    CreateCommit { parent_a: ObjectId, parent_b: ObjectId, tree: ObjectId },
    Done { commit_id: ObjectId, tree_id: ObjectId, virtual_merge_bases: Vec<ObjectId> },
    Fail,
}

impl VirtualMergeBase {
    /// The marker size multiplier leaves room for one more merge per merge base still to merge.
    pub open spec fn wf(&self) -> bool {
        self.marker_size_multiplier + self.others@.len() <= 255
    }
}

/// `true` if `m` merges `ours` with `theirs` at `multiplier`, with the fixed options of merges of
/// merge bases.
pub open spec fn merges_bases(m: VirtualBaseMerge, ours: Seq<u8>, theirs: Seq<u8>, multiplier: u8) -> bool {
    &&& m.ours@ == ours
    &&& m.theirs@ == theirs
    &&& m.marker_size_multiplier == multiplier
    &&& m.current_label@ == "Temporary merge branch 1"@
    &&& m.other_label@ == "Temporary merge branch 2"@
    &&& m.tree_conflicts == ResolveWith::Ancestor
    &&& m.resolve_binary_with == BinaryResolveWith::Ancestor
    &&& m.symlink_conflicts == BinaryResolveWith::Ancestor
    &&& m.text_conflicts_take_ours
    &&& m.is_virtual_ancestor
    &&& m.unresolved_if == (TreatAsUnresolved {
        content_merge: ContentMergeTreatment::Markers,
        tree_merge: TreeMerge::Undecidable,
    })
}

/// The id the phase waits to merge, if any.
pub open spec fn phase_next(phase: VirtualBasePhase) -> Option<Seq<u8>> {
    match phase {
        VirtualBasePhase::Merging { next } => Some(next@),
        VirtualBasePhase::WritingTree { next } => Some(next@),
        VirtualBasePhase::CreatingCommit { next, .. } => Some(next@),
        VirtualBasePhase::Finished => None,
    }
}

/// `true` if `event` is what `state` waits for.
pub open spec fn virtual_base_expects(state: VirtualMergeBase, event: VirtualBaseEvent) -> bool {
    match state.phase {
        VirtualBasePhase::Merging { .. } => event is Merged,
        VirtualBasePhase::WritingTree { .. } => event is TreeWritten,
        VirtualBasePhase::CreatingCommit { .. } => event is CommitCreated,
        VirtualBasePhase::Finished => false,
    }
}

fn merge_of_bases(ours: ObjectId, theirs: ObjectId, multiplier: u8) -> (r: VirtualBaseMerge)
    ensures
        merges_bases(r, ours@, theirs@, multiplier),
{
    VirtualBaseMerge {
        ours,
        theirs,
        marker_size_multiplier: multiplier,
        current_label: "Temporary merge branch 1",
        other_label: "Temporary merge branch 2",
        tree_conflicts: ResolveWith::Ancestor,
        resolve_binary_with: BinaryResolveWith::Ancestor,
        symlink_conflicts: BinaryResolveWith::Ancestor,
        text_conflicts_take_ours: true,
        is_virtual_ancestor: true,
        unresolved_if: TreatAsUnresolved::undecidable(),
    }
}

/// Begin to merge the merge bases `first`, `second` and `others` into one virtual merge base,
/// starting at marker size multiplier `marker_size_multiplier`: `first` is merged with `second`,
/// then the result with each of `others` from last to first, each merge with the multiplier one
/// higher than the one before.
pub fn virtual_merge_base_begin(first: ObjectId, second: ObjectId, others: Vec<ObjectId>, marker_size_multiplier: u8) -> (r: (
    VirtualMergeBase,
    VirtualBaseAction,
))
    requires
        marker_size_multiplier + others@.len() + 1 <= 255,
    ensures
        r.0.wf(),
        r.0.merged@ == first@,
        ids_view(r.0.others@) == ids_view(others@),
        r.0.marker_size_multiplier == marker_size_multiplier + 1,
        r.0.virtual_merge_bases@.len() == 0,
        phase_next(r.0.phase) == Some(second@) && r.0.phase is Merging,
        r.1 matches VirtualBaseAction::MergeCommits(m) && merges_bases(m, first@, second@, (marker_size_multiplier + 1) as u8),
{
    let multiplier = marker_size_multiplier + 1;
    let action = VirtualBaseAction::MergeCommits(merge_of_bases(first.copied(), second.copied(), multiplier));
    (
        VirtualMergeBase {
            merged: first,
            others,
            marker_size_multiplier: multiplier,
            virtual_merge_bases: Vec::new(),
            phase: VirtualBasePhase::Merging { next: second },
        },
        action,
    )
}

/// `true` if `event` is what `state` waits for, as [`virtual_base_expects`] says.
pub fn virtual_base_event_expected(state: &VirtualMergeBase, event: &VirtualBaseEvent) -> (r: bool)
    ensures
        r == virtual_base_expects(*state, *event),
{
    match state.phase {
        VirtualBasePhase::Merging { .. } => matches!(event, VirtualBaseEvent::Merged { .. }),
        VirtualBasePhase::WritingTree { .. } => matches!(event, VirtualBaseEvent::TreeWritten(_)),
        VirtualBasePhase::CreatingCommit { .. } => matches!(event, VirtualBaseEvent::CommitCreated(_)),
        VirtualBasePhase::Finished => false,
    }
}

/// Append copies of `ids` to `out`.
fn extend_ids(out: &mut Vec<ObjectId>, ids: &Vec<ObjectId>)
    ensures
        ids_view(final(out)@) == ids_view(old(out)@) + ids_view(ids@),
{
    let mut i: usize = 0;
    while i < ids.len()
        invariant
            i <= ids@.len(),
            ids_view(out@) == ids_view(old(out)@) + ids_view(ids@.subrange(0, i as int)),
        decreases ids.len() - i,
    {
        let ghost before = out@;
        out.push(ids[i].copied());
        proof {
            assert(ids_view(out@) =~= ids_view(before) + seq![ids@[i as int]@]);
            assert(ids_view(ids@.subrange(0, i + 1)) =~= ids_view(ids@.subrange(0, i as int)) + seq![ids@[i as int]@]);
        }
        i += 1;
    }
    assert(ids@.subrange(0, i as int) =~= ids@);
}

/// Take one step of merging merge bases, in `state` on `event`, which must be what it waits for.
/// A merge that left conflicts counting as unresolved fails it; else the virtual merge bases that
/// merge created are kept and its tree is to be written; a written tree is to get a virtual commit
/// whose parents are the commit merged so far and the merge base just merged; and a created
/// commit is kept as a virtual merge base and becomes the commit merged so far, which is then
/// merged with the next merge base, or, with none left, is the result, with the last written tree.
pub fn virtual_merge_base_step(state: VirtualMergeBase, event: VirtualBaseEvent) -> (r: (VirtualMergeBase, VirtualBaseAction))
    requires
        state.wf(),
        virtual_base_expects(state, event),
    ensures
        r.0.wf(),
        match event {
            VirtualBaseEvent::Merged { unresolved, virtual_merge_bases } => if unresolved {
                r.1 is Fail && r.0.phase is Finished
            } else {
                &&& r.1 is WriteTree
                &&& r.0.phase is WritingTree && phase_next(r.0.phase) == phase_next(state.phase)
                &&& ids_view(r.0.virtual_merge_bases@) == ids_view(state.virtual_merge_bases@) + ids_view(virtual_merge_bases@)
                &&& r.0.merged@ == state.merged@ && ids_view(r.0.others@) == ids_view(state.others@)
                &&& r.0.marker_size_multiplier == state.marker_size_multiplier
            },
            VirtualBaseEvent::TreeWritten(tree) => {
                &&& r.1 matches VirtualBaseAction::CreateCommit { parent_a, parent_b, tree: t } && parent_a@ == state.merged@
                    && Some(parent_b@) == phase_next(state.phase) && t@ == tree@
                &&& r.0.phase matches VirtualBasePhase::CreatingCommit { tree: t, .. } && t@ == tree@
                &&& phase_next(r.0.phase) == phase_next(state.phase)
                &&& ids_view(r.0.virtual_merge_bases@) == ids_view(state.virtual_merge_bases@)
                &&& r.0.merged@ == state.merged@ && ids_view(r.0.others@) == ids_view(state.others@)
                &&& r.0.marker_size_multiplier == state.marker_size_multiplier
            },
            VirtualBaseEvent::CommitCreated(commit) => {
                &&& r.0.merged@ == commit@
                &&& ids_view(r.0.virtual_merge_bases@) == ids_view(state.virtual_merge_bases@).push(commit@)
                &&& (if state.others@.len() > 0 {
                    &&& ids_view(r.0.others@) == ids_view(state.others@.drop_last())
                    &&& r.0.marker_size_multiplier == state.marker_size_multiplier + 1
                    &&& r.0.phase is Merging && phase_next(r.0.phase) == Some(state.others@.last()@)
                    &&& r.1 matches VirtualBaseAction::MergeCommits(m) && merges_bases(
                        m,
                        commit@,
                        state.others@.last()@,
                        (state.marker_size_multiplier + 1) as u8,
                    )
                } else {
                    &&& r.0.phase is Finished
                    &&& r.1 matches VirtualBaseAction::Done { commit_id, tree_id, virtual_merge_bases } && commit_id@
                        == commit@ && (state.phase matches VirtualBasePhase::CreatingCommit { tree, .. } && tree_id@
                        == tree@) && ids_view(virtual_merge_bases@) == ids_view(r.0.virtual_merge_bases@)
                        && virtual_merge_bases@.len() >= 1 && virtual_merge_bases@.last()@ == commit_id@
                })
            },
        },
{
    let VirtualMergeBase { merged, mut others, marker_size_multiplier, mut virtual_merge_bases, phase } = state;
    match event {
        VirtualBaseEvent::Merged { unresolved, virtual_merge_bases: created } => {
            let next = match phase {
                VirtualBasePhase::Merging { next } => next,
                _ => {
                    proof {
                        assert(false);
                    }
                    return (
                        VirtualMergeBase { merged, others, marker_size_multiplier, virtual_merge_bases, phase: VirtualBasePhase::Finished },
                        VirtualBaseAction::Fail,
                    );
                },
            };
            if unresolved {
                return (
                    VirtualMergeBase { merged, others, marker_size_multiplier, virtual_merge_bases, phase: VirtualBasePhase::Finished },
                    VirtualBaseAction::Fail,
                );
            }
            extend_ids(&mut virtual_merge_bases, &created);
            (
                VirtualMergeBase { merged, others, marker_size_multiplier, virtual_merge_bases, phase: VirtualBasePhase::WritingTree { next } },
                VirtualBaseAction::WriteTree,
            )
        },
        VirtualBaseEvent::TreeWritten(tree) => {
            let next = match phase {
                VirtualBasePhase::WritingTree { next } => next,
                _ => {
                    proof {
                        assert(false);
                    }
                    return (
                        VirtualMergeBase { merged, others, marker_size_multiplier, virtual_merge_bases, phase: VirtualBasePhase::Finished },
                        VirtualBaseAction::Fail,
                    );
                },
            };
            let action = VirtualBaseAction::CreateCommit { parent_a: merged.copied(), parent_b: next.copied(), tree: tree.copied() };
            (
                VirtualMergeBase { merged, others, marker_size_multiplier, virtual_merge_bases, phase: VirtualBasePhase::CreatingCommit { next, tree } },
                action,
            )
        },
        VirtualBaseEvent::CommitCreated(commit) => {
            let tree = match phase {
                VirtualBasePhase::CreatingCommit { tree, .. } => tree,
                _ => {
                    proof {
                        assert(false);
                    }
                    return (
                        VirtualMergeBase { merged, others, marker_size_multiplier, virtual_merge_bases, phase: VirtualBasePhase::Finished },
                        VirtualBaseAction::Fail,
                    );
                },
            };
            let ghost bases_before = virtual_merge_bases@;
            virtual_merge_bases.push(commit.copied());
            proof {
                assert(ids_view(virtual_merge_bases@) =~= ids_view(bases_before).push(commit@));
            }
            match others.pop() {
                Some(next) => {
                    let multiplier = marker_size_multiplier + 1;
                    let action = VirtualBaseAction::MergeCommits(merge_of_bases(commit.copied(), next.copied(), multiplier));
                    (
                        VirtualMergeBase {
                            merged: commit,
                            others,
                            marker_size_multiplier: multiplier,
                            virtual_merge_bases,
                            phase: VirtualBasePhase::Merging { next },
                        },
                        action,
                    )
                },
                None => {
                    let mut result: Vec<ObjectId> = Vec::new();
                    extend_ids(&mut result, &virtual_merge_bases);
                    assert(ids_view(result@) =~= ids_view(virtual_merge_bases@));
                    proof {
                        let v = ids_view(result@);
                        assert(v.len() == result@.len());
                        assert(v[v.len() - 1] == commit@);
                    }
                    (
                        VirtualMergeBase { merged: commit.copied(), others, marker_size_multiplier, virtual_merge_bases, phase: VirtualBasePhase::Finished },
                        VirtualBaseAction::Done { commit_id: commit, tree_id: tree, virtual_merge_bases: result },
                    )
                },
            }
        },
    }
}

} // verus!
