//! Driving a tree merge: what to do with the next change of the side being worked through, once
//! it is matched against the changes of the other side, and whether work is left.
use vstd::prelude::*;

use crate::merge::tree::side::{candidate_idx, indices_below, matching, matching_outcome, pair, paired, MatchKind};
use crate::merge::tree::utils::{
    nodes_wf, rewrite_location_with_renamed_directory, rewritten_location_spec, ChangeState, NodeView, TrackedChange,
    TreeNodes,
};
use crate::merge::tree::{ConflictMapping, PossibleConflict, ResolveWith};
use crate::object_tree::is_tree_mode;

verus! {

/// What to do with a change of theirs, the side being worked through.
#[derive(Debug)]
pub enum ChangeAction {
    /// It is a tree, which only indexes the changes of its leaves, or it was handled already.
    Skip,
    /// It meets nothing of ours: apply it and mark it applied. Where it carries `relocation`, a
    /// destination past a directory that our change at the given index renamed, first record that
    /// it landed there (a conflict resolved as `SourceLocationAffectedByRename`, with no index
    /// entries) and remove what is at its own location, then apply it at the destination.
    Apply { relocation: Option<(Vec<u8>, usize)> },
    /// It lies below a directory that our change at `change_idx` renamed, which moves it to
    /// `new_location`: stop tracking its location in their tree, defer it to be retried there,
    /// ignoring that rename, and mark it processed.
    Retry { new_location: Vec<u8>, change_idx: usize },
    /// It lies below a directory that our change renamed, which does not move it: apply it where
    /// it is, mark it applied and then processed.
    ApplyInPlace,
    /// It is no tree, where ours has a directory without a change of ours at its place: it moves to
    /// a unique path (see `resolve_blocked_by_directory`), and it is marked processed.
    MoveTheirs,
    /// It overlaps ours in a way that pairs no change: an unknown conflict is recorded, with our
    /// change at `ours_idx` if there is one (see `unknown_resolution`).
    Unknown { ours_idx: Option<usize> },
    /// It is resolved together with our change at `ours_idx`, matched as `match_kind`.
    Pair { ours_idx: usize, match_kind: Option<MatchKind> },
}

/// A change of theirs as scheduled: whether to index it in their tree first, as a deferred change
/// is, and what to do with it.
#[derive(Debug)]
pub struct Scheduled {
    pub index_first: bool,
    pub action: ChangeAction,
}

/// The location past a renamed directory that a tracked change carries, as a value.
pub open spec fn relocation_of(t: TrackedChange) -> Option<(Seq<u8>, usize)> {
    match t.rewritten_location {
        Some(r) => Some((r.0@, r.1)),
        None => None,
    }
}

/// `true` if `relocation` is `expected`, taken by value.
pub open spec fn relocation_is(relocation: Option<(Vec<u8>, usize)>, expected: Option<(Seq<u8>, usize)>) -> bool {
    match (relocation, expected) {
        (Some(a), Some(b)) => a.0@ == b.0 && a.1 == b.1,
        (None, None) => true,
        _ => false,
    }
}

/// `true` if `r` is how the change `their` of theirs is scheduled against our changes `ours`,
/// indexed by `nodes`, and `ours_after` are our changes afterwards. Trees and changes no longer
/// pending are skipped. Else the change is matched as [`matching_outcome`] says (which may mark a
/// change of ours that is the same change applied); a deferred change is indexed first; and:
/// meeting nothing, it is applied (at its relocation, if any); passing a directory we renamed, it
/// is retried where that rename moves it, or applied in place if it does not; meeting a change of
/// ours that [`paired`] pairs it with, the two are resolved together; meeting our directory with
/// no change of ours at its place, it moves to a unique path; and any other overlap is unknown.
pub open spec fn scheduled(
    their: TrackedChange,
    nodes: Seq<NodeView>,
    ours: Seq<TrackedChange>,
    r: Scheduled,
    ours_after: Seq<TrackedChange>,
) -> bool {
    if is_tree_mode(their.inner.spec_entry_mode()) || their.state != ChangeState::Pending {
        r.action is Skip && !r.index_first && ours_after == ours
    } else {
        let (candidate, after) = matching_outcome(
            their.inner,
            their.needs_tree_insertion,
            match relocation_of(their) {
                Some(p) => Some(p.0),
                None => None,
            },
            nodes,
            ours,
        );
        &&& r.index_first == (their.needs_tree_insertion is Some)
        &&& ours_after == after
        &&& match candidate {
            None => r.action matches ChangeAction::Apply { relocation } && relocation_is(relocation, relocation_of(their)),
            Some(PossibleConflict::PassedRewrittenDirectory { change_idx }) => match rewritten_location_spec(
                their.inner.spec_location(),
                after[change_idx as int].inner,
            ) {
                Some(p) => r.action matches ChangeAction::Retry { new_location, change_idx: k } && new_location@ == p && k
                    == change_idx,
                None => r.action is ApplyInPlace,
            },
            Some(c) => match paired(c, after) {
                (Some(o), kind) => r.action == (ChangeAction::Pair { ours_idx: o, match_kind: kind }),
                (None, _) => if candidate_idx(c) is None && c is TreeToNonTree {
                    r.action is MoveTheirs
                } else {
                    r.action == (ChangeAction::Unknown { ours_idx: candidate_idx(c) })
                },
            },
        }
    }
}

/// Schedule the change `their` of theirs against our changes, indexed by `our_tree`, as
/// [`scheduled`] says.
pub fn schedule_change(their: &TrackedChange, our_tree: &TreeNodes, our_changes: &mut Vec<TrackedChange>) -> (r: Scheduled)
    requires
        nodes_wf(our_tree@),
        indices_below(our_tree@, old(our_changes)@.len()),
    ensures
        scheduled(*their, our_tree@, old(our_changes)@, r, final(our_changes)@),
        final(our_changes)@.len() == old(our_changes)@.len(),
        r.action matches ChangeAction::Pair { ours_idx, .. } ==> ours_idx < old(our_changes)@.len(),
        r.action matches ChangeAction::Unknown { ours_idx: Some(k) } ==> k < old(our_changes)@.len(),
{
    if their.inner.entry_mode().is_tree() || !their.is_pending() {
        return Scheduled { index_first: false, action: ChangeAction::Skip };
    }
    let index_first = their.needs_tree_insertion.is_some();
    let ghost ours_before = our_changes@;
    let candidate = matching(&their.inner, their.needs_tree_insertion, their.rewritten_location.as_ref(), our_tree, our_changes);
    let action = match candidate {
        None => {
            let relocation = match &their.rewritten_location {
                Some(r) => Some((r.0.clone(), r.1)),
                None => None,
            };
            ChangeAction::Apply { relocation }
        },
        Some(PossibleConflict::PassedRewrittenDirectory { change_idx }) => {
            match rewrite_location_with_renamed_directory(their.inner.location(), &our_changes[change_idx].inner) {
                Some(new_location) => ChangeAction::Retry { new_location, change_idx },
                None => ChangeAction::ApplyInPlace,
            }
        },
        Some(c) => {
            let (ours_idx, kind) = pair(&c, our_changes.as_slice());
            match ours_idx {
                Some(o) => ChangeAction::Pair { ours_idx: o, match_kind: kind },
                None => {
                    let at = c.change_idx();
                    if at.is_none() && matches!(c, PossibleConflict::TreeToNonTree { .. }) {
                        ChangeAction::MoveTheirs
                    } else {
                        ChangeAction::Unknown { ours_idx: at }
                    }
                },
            }
        },
    };
    Scheduled { index_first, action }
}

/// `true` if one of `changes` is still pending.
pub open spec fn has_pending(changes: Seq<TrackedChange>) -> bool {
    exists|i: int| 0 <= i < changes.len() && (#[trigger] changes[i]).state == ChangeState::Pending
}

/// `true` if one of `changes` is still pending: the side has work left.
pub fn any_pending(changes: &[TrackedChange]) -> (r: bool)
    ensures
        r == has_pending(changes@),
{
    let mut i: usize = 0;
    while i < changes.len()
        invariant
            i <= changes@.len(),
            forall|j: int| 0 <= j < i ==> (#[trigger] changes@[j]).state != ChangeState::Pending,
        decreases changes.len() - i,
    {
        if changes[i].is_pending() {
            return true;
        }
        i += 1;
    }
    false
}

/// How an unknown overlap is resolved where tree conflicts are forced to `tree_conflicts`:
/// forced to ours, the change of the side the merge calls ours is applied and marked applied,
/// `Some(true)` for our change (where there is one and the outer side is `Original`) and
/// `Some(false)` for theirs; otherwise nothing is applied.
pub open spec fn unknown_applies(ours_idx: Option<usize>, tree_conflicts: Option<ResolveWith>, outer_side: ConflictMapping) -> Option<bool> {
    if tree_conflicts == Some(ResolveWith::Ours) {
        Some(outer_side == ConflictMapping::Original && ours_idx is Some)
    } else {
        None
    }
}

/// Decide how an unknown overlap is resolved, as [`unknown_applies`] says.
pub fn unknown_resolution(ours_idx: Option<usize>, tree_conflicts: Option<ResolveWith>, outer_side: ConflictMapping) -> (r: Option<
    bool,
>)
    ensures
        r == unknown_applies(ours_idx, tree_conflicts, outer_side),
{
    match tree_conflicts {
        Some(ResolveWith::Ours) => Some(
            match outer_side {
                ConflictMapping::Original => ours_idx.is_some(),
                ConflictMapping::Swapped => false,
            },
        ),
        _ => None,
    }
}

} // verus!
