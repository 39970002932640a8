//! The resolution of pairs of changes in a tree merge: those decided from the two changes alone
//! (submodules both sides changed or added, entries both sides deleted, entries one side modified
//! or renamed while the other deleted them), and those decided in two steps around outside work,
//! a content merge of two blobs or a unique path for an entry that has to move.
use vstd::prelude::*;

use crate::bytes::{copy_range, slice_eq};
use crate::hash::{null_id, null_of, HashKind, ObjectId};
use crate::merge::blob;
use crate::merge::tree::utils::{Change, ChangeDisposition, ChangeState, TrackedChange};
use crate::merge::tree::{
    kind_of, merge_modes, mode_of, merge_modes_prev, merge_modes_prev_defined, merge_modes_prev_spec, merge_modes_spec, ContentMerge,
    ConflictIndexEntry, ConflictIndexEntryPathHint, ConflictMapping, EntryKind, EntryMode, Resolution, ResolutionFailure,
    ResolveWith,
};
use crate::object_tree::is_tree_mode;

verus! {

/// An edit of the merged tree that resolving a pair asks for.
#[derive(Debug)]
pub enum PairEdit {
    /// Apply our change, as the sides of the pair are stored, at its own location.
    ApplyOurs,
    /// Apply their change, as the sides of the pair are stored, at its own location.
    ApplyTheirs,
    /// Apply the change of the side the merge calls ours: the stored ours, or the stored theirs
    /// where the outer side is swapped.
    ApplyOurResolution,
    /// Put an entry of `mode` and `id` at `location`.
    Upsert { location: Vec<u8>, mode: EntryMode, id: ObjectId },
    /// Remove the entry at `location`.
    Remove { location: Vec<u8> },
    /// Put an entry of `mode` and `id` at `location`, and one of `other_mode` and `other_id` at
    /// `other_location`.
    UpsertBoth { location: Vec<u8>, mode: EntryMode, id: ObjectId, other_location: Vec<u8>, other_mode: EntryMode, other_id: ObjectId },
    /// Remove the entry at `from`, then put an entry of `mode` and `id` at `location`.
    Move { from: Vec<u8>, location: Vec<u8>, mode: EntryMode, id: ObjectId },
}

/// A conflict that resolving a pair records: how it was resolved or why it could not be, how its
/// sides are mapped by `side`, and `entries`, its index entries at the stages base, ours and
/// theirs.
#[derive(Debug)]
pub struct PairConflict {
    pub resolution: Result<Resolution, ResolutionFailure>,
    pub side: ConflictMapping,
    pub entries: [Option<ConflictIndexEntry>; 3],
}

/// An addition that resolving a pair defers: an entry of `entry_mode` and `id` at `location` is
/// to be pushed onto the changes of the side `onto` picks (ours where it is `Original`), unless the
/// recorded conflict stops the merge; where `follows_renames_of` picks a side, at the location a
/// directory rename among that side's changes moves it to, if any.
#[derive(Debug)]
pub struct PairDeferred {
    pub location: Vec<u8>,
    pub entry_mode: EntryMode,
    pub id: ObjectId,
    pub onto: ConflictMapping,
    pub follows_renames_of: Option<ConflictMapping>,
}

/// How a pair of changes was resolved: the edit of the merged tree, if any, what became of our and
/// their change, the conflict to record, if any, the location to stop tracking and the side whose
/// tree tracks it (ours where it is `Original`), if any, and the addition it defers, if any.
#[derive(Debug)]
pub struct PairDecision {
    pub edit: Option<PairEdit>,
    pub ours: ChangeDisposition,
    pub theirs: ChangeDisposition,
    pub conflict: Option<PairConflict>,
    pub untrack: Option<(Vec<u8>, ConflictMapping)>,
    pub deferred: Option<PairDeferred>,
}

/// `true` if `d` asks for no tracking change and defers nothing.
pub open spec fn no_follow_up(d: PairDecision) -> bool {
    d.untrack is None && d.deferred is None
}

/// `true` if `entry` is an index entry of `mode` and `id` at the default path.
pub open spec fn entry_is(entry: Option<ConflictIndexEntry>, mode: EntryMode, id: Seq<u8>) -> bool {
    entry matches Some(e) && e.mode == mode && e.id@ == id && e.path_hint is None
}

/// `true` if entries of `mode` are submodule commits.
pub open spec fn is_commit_mode(mode: EntryMode) -> bool {
    kind_of(mode.value) == EntryKind::Commit
}

/// The dispositions of our and their change where the change of the side the merge calls ours
/// was applied.
pub open spec fn our_resolution_applied(outer_side: ConflictMapping) -> (ChangeDisposition, ChangeDisposition) {
    if outer_side == ConflictMapping::Original {
        (ChangeDisposition::Applied, ChangeDisposition::Processed)
    } else {
        (ChangeDisposition::Processed, ChangeDisposition::Applied)
    }
}

/// `true` if one of `changes` adds a directory at `location`.
pub open spec fn adds_directory_at(changes: Seq<TrackedChange>, location: Seq<u8>) -> bool {
    exists|i: int|
        0 <= i < changes.len() && (#[trigger] changes[i]).inner is Addition && is_tree_mode(changes[i].inner.spec_entry_mode())
            && changes[i].inner.spec_location() == location
}

/// `true` if `d` resolves a conflict between two submodule changes for `failure`: the merged tree
/// keeps the side the merge calls ours, unless tree conflicts keep the ancestor, and the conflict
/// is recorded as the sides are stored, with the index entries `base`, `ours` and `theirs`.
pub open spec fn submodule_conflict(
    d: PairDecision,
    failure: ResolutionFailure,
    base: Option<(EntryMode, Seq<u8>)>,
    ours: (EntryMode, Seq<u8>),
    theirs: (EntryMode, Seq<u8>),
    tree_conflicts: Option<ResolveWith>,
    outer_side: ConflictMapping,
) -> bool {
    &&& if tree_conflicts == Some(ResolveWith::Ancestor) {
        d.edit is None && d.ours == ChangeDisposition::Processed && d.theirs == ChangeDisposition::Processed
    } else {
        d.edit == Some(PairEdit::ApplyOurResolution) && (d.ours, d.theirs) == our_resolution_applied(outer_side)
    }
    &&& no_follow_up(d)
    &&& d.conflict matches Some(c) && c.resolution == Err::<Resolution, ResolutionFailure>(failure) && c.side == ConflictMapping::Original && match base {
        Some((mode, id)) => entry_is(c.entries[0], mode, id),
        None => c.entries[0] is None,
    } && entry_is(c.entries[1], ours.0, ours.1) && entry_is(c.entries[2], theirs.0, theirs.1)
}

/// `true` if `d` resolves the modification at `location`, to `mode` and `id` from `previous_mode`
/// and `previous_id`, against a deletion, where `side` is `Original` if our change is the
/// modification and `replaced` tells if the other side added a directory in place of the deleted
/// entry. Without forced resolution the modified entry stays; forced to ours, the side the merge
/// calls ours decides between the modified entry and none; forced to the ancestor, the merged tree
/// is not edited. The conflict is recorded with the previous and the modified entry, and the
/// deletion counts as applied where the merged tree reflects it.
pub open spec fn modified_deleted(
    d: PairDecision,
    location: Seq<u8>,
    mode: EntryMode,
    id: Seq<u8>,
    previous_mode: EntryMode,
    previous_id: Seq<u8>,
    side: ConflictMapping,
    replaced: bool,
    tree_conflicts: Option<ResolveWith>,
    outer_side: ConflictMapping,
) -> bool {
    let global = if outer_side == ConflictMapping::Original {
        side
    } else {
        side.spec_swapped()
    };
    let deletion_applied = tree_conflicts == Some(ResolveWith::Ours) && global == ConflictMapping::Swapped;
    &&& match tree_conflicts {
        None => d.edit matches Some(PairEdit::Upsert { location: l, mode: m, id: i }) && l@ == location && m == mode
            && i@ == id,
        Some(ResolveWith::Ours) => if global == ConflictMapping::Original {
            d.edit matches Some(PairEdit::Upsert { location: l, mode: m, id: i }) && l@ == location && m == mode && i@
                == id
        } else {
            d.edit matches Some(PairEdit::Remove { location: l }) && l@ == location
        },
        Some(ResolveWith::Ancestor) => d.edit is None,
    }
    &&& (d.ours, d.theirs) == (if !deletion_applied {
        (ChangeDisposition::Processed, ChangeDisposition::Processed)
    } else if side == ConflictMapping::Original {
        (ChangeDisposition::Processed, ChangeDisposition::Applied)
    } else {
        (ChangeDisposition::Applied, ChangeDisposition::Processed)
    })
    &&& d.conflict matches Some(c) && c.resolution == Err::<Resolution, ResolutionFailure>(ResolutionFailure::OursModifiedTheirsDeleted) && c.side == side
        && entry_is(c.entries[0], previous_mode, previous_id) && entry_is(c.entries[1], mode, id) && c.entries[2] is None
    &&& !(replaced && tree_conflicts is None)
    &&& no_follow_up(d)
}

/// `true` if `entry` is an index entry of `mode` and `id` at the renamed location.
pub open spec fn renamed_entry_is(entry: Option<ConflictIndexEntry>, mode: EntryMode, id: Seq<u8>) -> bool {
    entry matches Some(e) && e.mode == mode && e.id@ == id && e.path_hint == Some(ConflictIndexEntryPathHint::RenamedOrTheirs)
}

/// `true` if `d` resolves a deletion against a rename from `source_location` to `location` of an
/// entry of `mode` and `id`, where `side` is `Original` if our change is the deletion: unless tree
/// conflicts keep the ancestor, the source is removed from the merged tree and from the tracking
/// tree of the deleting side, and the deletion counts as applied. The conflict is recorded with
/// the renamed entry as theirs, at the renamed location, and without forced resolution, or forced
/// to ours where our change is the rename, the renamed entry is deferred as an addition at its
/// destination.
pub open spec fn deleted_renamed(
    d: PairDecision,
    source_location: Seq<u8>,
    location: Seq<u8>,
    mode: EntryMode,
    id: Seq<u8>,
    side: ConflictMapping,
    tree_conflicts: Option<ResolveWith>,
) -> bool {
    &&& if tree_conflicts != Some(ResolveWith::Ancestor) {
        &&& d.edit matches Some(PairEdit::Remove { location: l }) && l@ == source_location
        &&& d.untrack matches Some(u) && u.0@ == source_location && u.1 == side
        &&& (d.ours, d.theirs) == (if side == ConflictMapping::Original {
            (ChangeDisposition::Applied, ChangeDisposition::Processed)
        } else {
            (ChangeDisposition::Processed, ChangeDisposition::Applied)
        })
    } else {
        d.edit is None && d.untrack is None && d.ours == ChangeDisposition::Processed && d.theirs == ChangeDisposition::Processed
    }
    &&& d.conflict matches Some(c) && c.resolution == Err::<Resolution, ResolutionFailure>(ResolutionFailure::OursDeletedTheirsRenamed) && c.side == side
        && c.entries[0] is None && c.entries[1] is None && renamed_entry_is(c.entries[2], mode, id)
    &&& if tree_conflicts is None || (tree_conflicts == Some(ResolveWith::Ours) && side == ConflictMapping::Swapped) {
        d.deferred matches Some(a) && a.location@ == location && a.entry_mode == mode && a.id@ == id && a.onto
            == side.spec_swapped() && a.follows_renames_of == Some(side)
    } else {
        d.deferred is None
    }
}

/// `true` if `d` resolves a modification (at `our_location`, to `our_mode` and `our_id` from
/// `previous_mode` and `previous_id`) against a rename from `source_location` to `their_location`
/// (as `their_mode` and `their_id`) whose types do not merge, where `side` is `Original` if our
/// change is the modification: without forced resolution both entries are kept where they are;
/// forced to ours, the source is removed and the entry of the side the merge calls ours is put at
/// its location; forced to the ancestor, nothing changes. Both changes stay merely processed, and
/// the conflict is recorded with the previous entry and the renamed one, at the renamed path.
pub open spec fn modified_renamed_mismatch(
    d: PairDecision,
    our_location: Seq<u8>,
    our_mode: EntryMode,
    our_id: Seq<u8>,
    previous_mode: EntryMode,
    previous_id: Seq<u8>,
    source_location: Seq<u8>,
    their_location: Seq<u8>,
    their_mode: EntryMode,
    their_id: Seq<u8>,
    side: ConflictMapping,
    tree_conflicts: Option<ResolveWith>,
    outer_side: ConflictMapping,
) -> bool {
    let global = if outer_side == ConflictMapping::Original {
        side
    } else {
        side.spec_swapped()
    };
    &&& match tree_conflicts {
        None => d.edit matches Some(PairEdit::UpsertBoth { location, mode, id, other_location, other_mode, other_id })
            && location@ == our_location && mode == our_mode && id@ == our_id && other_location@ == their_location
            && other_mode == their_mode && other_id@ == their_id,
        Some(ResolveWith::Ours) => d.edit matches Some(PairEdit::Move { from, location, mode, id }) && from@ == source_location
            && (if global == ConflictMapping::Swapped {
            location@ == their_location && mode == their_mode && id@ == their_id
        } else {
            location@ == our_location && mode == our_mode && id@ == our_id
        }),
        Some(ResolveWith::Ancestor) => d.edit is None,
    }
    &&& d.ours == ChangeDisposition::Processed && d.theirs == ChangeDisposition::Processed
    &&& no_follow_up(d)
    &&& d.conflict matches Some(c) && c.side == side && c.resolution == Err::<Resolution, ResolutionFailure>(
        ResolutionFailure::OursModifiedTheirsRenamedTypeMismatch,
    ) && renamed_entry_is(c.entries[0], previous_mode, previous_id) && c.entries[1] is None && renamed_entry_is(
        c.entries[2],
        their_mode,
        their_id,
    )
}

/// How the pair of `ours` and `theirs` is resolved, where `tree_conflicts` is how tree conflicts
/// are forced, `outer_side` tells which side the merge calls ours, `erase_leaf` tells if the pair
/// was matched as one side's leaf blocking the other side's directory, and `our_changes` and
/// `their_changes` are all changes of the two sides; `None` where the resolution needs more than
/// the two changes (a content merge, a unique path, or the handling of renames and additions below
/// a blocking entry).
///
/// - Both sides modified a submodule: the same commit is applied once; different commits are a
///   `SubmoduleMerge` conflict.
/// - Both sides added a submodule, not as a blocking leaf: a `SubmoduleAddAdd` conflict.
/// - Both sides deleted the entry: our deletion is applied, and theirs counts as applied.
/// - One side modified what the other deleted: an `OursModifiedTheirsDeleted` conflict, resolved
///   as [`modified_deleted`] says; undecided here where the other side put a directory in its
///   place and tree conflicts are not forced, as the modified entry then moves to a unique path.
/// - One side deleted what the other renamed: an `OursDeletedTheirsRenamed` conflict, resolved as
///   [`deleted_renamed`] says.
/// - One side modified what the other renamed, to types that do not merge: an
///   `OursModifiedTheirsRenamedTypeMismatch` conflict, resolved as [`modified_renamed_mismatch`]
///   says; where the types merge, the modification is carried to the rename's destination, which
///   needs more than the two changes.
pub open spec fn pair_decided(
    ours: Change,
    theirs: Change,
    tree_conflicts: Option<ResolveWith>,
    outer_side: ConflictMapping,
    erase_leaf: bool,
    our_changes: Seq<TrackedChange>,
    their_changes: Seq<TrackedChange>,
    r: Option<PairDecision>,
) -> bool {
    match (ours, theirs) {
        (
            Change::Modification { location: our_location, previous_entry_mode, previous_id, entry_mode: our_mode, id: our_id },
            Change::Rewrite { source_location, entry_mode: their_mode, id: their_id, location: their_location, .. },
        ) => if merge_modes_spec(our_mode, their_mode) is None {
            r matches Some(d) && modified_renamed_mismatch(
                d,
                our_location@,
                our_mode,
                our_id@,
                previous_entry_mode,
                previous_id@,
                source_location@,
                their_location@,
                their_mode,
                their_id@,
                ConflictMapping::Original,
                tree_conflicts,
                outer_side,
            )
        } else {
            r is None
        },
        (
            Change::Rewrite { source_location, entry_mode: their_mode, id: their_id, location: their_location, .. },
            Change::Modification { location: our_location, previous_entry_mode, previous_id, entry_mode: our_mode, id: our_id },
        ) => if merge_modes_spec(our_mode, their_mode) is None {
            r matches Some(d) && modified_renamed_mismatch(
                d,
                our_location@,
                our_mode,
                our_id@,
                previous_entry_mode,
                previous_id@,
                source_location@,
                their_location@,
                their_mode,
                their_id@,
                ConflictMapping::Swapped,
                tree_conflicts,
                outer_side,
            )
        } else {
            r is None
        },
        (
            Change::Modification { previous_entry_mode, previous_id, entry_mode: our_mode, id: our_id, .. },
            Change::Modification { entry_mode: their_mode, id: their_id, .. },
        ) => if is_commit_mode(our_mode) && is_commit_mode(their_mode) {
            if our_id@ == their_id@ {
                r matches Some(d) && d.edit == Some(PairEdit::ApplyOurs) && d.ours == ChangeDisposition::Applied && d.theirs
                    == ChangeDisposition::Applied && d.conflict is None && no_follow_up(d)
            } else {
                r matches Some(d) && submodule_conflict(
                    d,
                    ResolutionFailure::SubmoduleMerge,
                    Some((previous_entry_mode, previous_id@)),
                    (our_mode, our_id@),
                    (their_mode, their_id@),
                    tree_conflicts,
                    outer_side,
                )
            }
        } else {
            r is None
        },
        (
            Change::Addition { entry_mode: our_mode, id: our_id, .. },
            Change::Addition { entry_mode: their_mode, id: their_id, .. },
        ) => if !erase_leaf && is_commit_mode(our_mode) && is_commit_mode(their_mode) {
            r matches Some(d) && submodule_conflict(
                d,
                ResolutionFailure::SubmoduleAddAdd,
                None,
                (our_mode, our_id@),
                (their_mode, their_id@),
                tree_conflicts,
                outer_side,
            )
        } else {
            r is None
        },
        (Change::Deletion { .. }, Change::Deletion { .. }) => r matches Some(d) && d.edit == Some(PairEdit::ApplyOurs)
            && d.ours == ChangeDisposition::Applied && d.theirs == ChangeDisposition::Applied && d.conflict is None
            && no_follow_up(d),
        (Change::Modification { location, previous_entry_mode, previous_id, entry_mode, id }, Change::Deletion { .. }) => {
            let replaced = adds_directory_at(their_changes, location@);
            if replaced && tree_conflicts is None {
                r is None
            } else {
                r matches Some(d) && modified_deleted(
                    d,
                    location@,
                    entry_mode,
                    id@,
                    previous_entry_mode,
                    previous_id@,
                    ConflictMapping::Original,
                    replaced,
                    tree_conflicts,
                    outer_side,
                )
            }
        },
        (Change::Deletion { .. }, Change::Modification { location, previous_entry_mode, previous_id, entry_mode, id }) => {
            let replaced = adds_directory_at(our_changes, location@);
            if replaced && tree_conflicts is None {
                r is None
            } else {
                r matches Some(d) && modified_deleted(
                    d,
                    location@,
                    entry_mode,
                    id@,
                    previous_entry_mode,
                    previous_id@,
                    ConflictMapping::Swapped,
                    replaced,
                    tree_conflicts,
                    outer_side,
                )
            }
        },
        (Change::Deletion { .. }, Change::Rewrite { source_location, entry_mode, id, location, .. }) => r matches Some(d)
            && deleted_renamed(d, source_location@, location@, entry_mode, id@, ConflictMapping::Original, tree_conflicts),
        (Change::Rewrite { source_location, entry_mode, id, location, .. }, Change::Deletion { .. }) => r matches Some(d)
            && deleted_renamed(d, source_location@, location@, entry_mode, id@, ConflictMapping::Swapped, tree_conflicts),
        _ => r is None,
    }
}

/// An index entry of `mode` and `id` at the default path.
fn index_entry(mode: EntryMode, id: &ObjectId) -> (r: Option<ConflictIndexEntry>)
    ensures
        entry_is(r, mode, id@),
{
    Some(ConflictIndexEntry { mode, id: id.copied(), path_hint: None })
}

/// `true` if one of `changes` adds a directory at `location`.
fn any_directory_added_at(changes: &[TrackedChange], location: &[u8]) -> (r: bool)
    ensures
        r == adds_directory_at(changes@, location@),
{
    let mut i: usize = 0;
    while i < changes.len()
        invariant
            i <= changes@.len(),
            forall|j: int|
                0 <= j < i ==> !((#[trigger] changes@[j]).inner is Addition && is_tree_mode(changes@[j].inner.spec_entry_mode())
                    && changes@[j].inner.spec_location() == location@),
        decreases changes.len() - i,
    {
        let change = &changes[i].inner;
        if matches!(change, Change::Addition { .. }) && change.entry_mode().is_tree() && slice_eq(change.location(), location) {
            return true;
        }
        i += 1;
    }
    false
}

/// The edit and dispositions of resolving a submodule conflict: the side the merge calls ours is
/// applied unless tree conflicts keep the ancestor.
fn submodule_resolution(tree_conflicts: Option<ResolveWith>, outer_side: ConflictMapping) -> (r: (
    Option<PairEdit>,
    ChangeDisposition,
    ChangeDisposition,
))
    ensures
        if tree_conflicts == Some(ResolveWith::Ancestor) {
            r.0 is None && r.1 == ChangeDisposition::Processed && r.2 == ChangeDisposition::Processed
        } else {
            r.0 == Some(PairEdit::ApplyOurResolution) && (r.1, r.2) == our_resolution_applied(outer_side)
        },
{
    match tree_conflicts {
        Some(ResolveWith::Ancestor) => (None, ChangeDisposition::Processed, ChangeDisposition::Processed),
        _ => match outer_side {
            ConflictMapping::Original => (Some(PairEdit::ApplyOurResolution), ChangeDisposition::Applied, ChangeDisposition::Processed),
            ConflictMapping::Swapped => (Some(PairEdit::ApplyOurResolution), ChangeDisposition::Processed, ChangeDisposition::Applied),
        },
    }
}

/// Resolve a modification at `location` against a deletion, as [`modified_deleted`] says.
fn resolve_modified_deleted(
    location: &Vec<u8>,
    mode: EntryMode,
    id: &ObjectId,
    previous_mode: EntryMode,
    previous_id: &ObjectId,
    side: ConflictMapping,
    replaced: bool,
    tree_conflicts: Option<ResolveWith>,
    outer_side: ConflictMapping,
) -> (r: PairDecision)
    requires
        !(replaced && tree_conflicts is None),
    ensures
        modified_deleted(r, location@, mode, id@, previous_mode, previous_id@, side, replaced, tree_conflicts, outer_side),
{
    let global = side.to_global(outer_side);
    let edit = match tree_conflicts {
        None => Some(PairEdit::Upsert { location: location.clone(), mode, id: id.copied() }),
        Some(ResolveWith::Ours) => match global {
            ConflictMapping::Original => Some(PairEdit::Upsert { location: location.clone(), mode, id: id.copied() }),
            ConflictMapping::Swapped => Some(PairEdit::Remove { location: location.clone() }),
        },
        Some(ResolveWith::Ancestor) => None,
    };
    let deletion_applied = match tree_conflicts {
        Some(ResolveWith::Ours) => global.is_swapped(),
        _ => false,
    };
    let (ours, theirs) = if !deletion_applied {
        (ChangeDisposition::Processed, ChangeDisposition::Processed)
    } else {
        match side {
            ConflictMapping::Original => (ChangeDisposition::Processed, ChangeDisposition::Applied),
            ConflictMapping::Swapped => (ChangeDisposition::Applied, ChangeDisposition::Processed),
        }
    };
    let entries = [index_entry(previous_mode, previous_id), index_entry(mode, id), None];
    PairDecision {
        edit,
        ours,
        theirs,
        conflict: Some(PairConflict { resolution: Err(ResolutionFailure::OursModifiedTheirsDeleted), side, entries }),
        untrack: None,
        deferred: None,
    }
}

/// Resolve a deletion against a rename, as [`deleted_renamed`] says.
fn resolve_deleted_renamed(
    source_location: &Vec<u8>,
    location: &Vec<u8>,
    mode: EntryMode,
    id: &ObjectId,
    side: ConflictMapping,
    tree_conflicts: Option<ResolveWith>,
) -> (r: PairDecision)
    ensures
        deleted_renamed(r, source_location@, location@, mode, id@, side, tree_conflicts),
{
    let keeps_ancestor = match tree_conflicts {
        Some(ResolveWith::Ancestor) => true,
        _ => false,
    };
    let (edit, untrack, ours, theirs) = if keeps_ancestor {
        (None, None, ChangeDisposition::Processed, ChangeDisposition::Processed)
    } else {
        let (o, t) = match side {
            ConflictMapping::Original => (ChangeDisposition::Applied, ChangeDisposition::Processed),
            ConflictMapping::Swapped => (ChangeDisposition::Processed, ChangeDisposition::Applied),
        };
        (Some(PairEdit::Remove { location: source_location.clone() }), Some((source_location.clone(), side)), o, t)
    };
    let defers = match tree_conflicts {
        None => true,
        Some(ResolveWith::Ours) => side.is_swapped(),
        Some(ResolveWith::Ancestor) => false,
    };
    let deferred = if defers {
        Some(
            PairDeferred {
                location: location.clone(),
                entry_mode: mode,
                id: id.copied(),
                onto: side.swapped(),
                follows_renames_of: Some(side),
            },
        )
    } else {
        None
    };
    let entries = [
        None,
        None,
        Some(ConflictIndexEntry { mode, id: id.copied(), path_hint: Some(ConflictIndexEntryPathHint::RenamedOrTheirs) }),
    ];
    PairDecision {
        edit,
        ours,
        theirs,
        conflict: Some(PairConflict { resolution: Err(ResolutionFailure::OursDeletedTheirsRenamed), side, entries }),
        untrack,
        deferred,
    }
}

/// Resolve a modification against a rename whose types do not merge, as
/// [`modified_renamed_mismatch`] says.
fn resolve_modified_renamed_mismatch(
    modification: &Change,
    rewrite: &Change,
    side: ConflictMapping,
    tree_conflicts: Option<ResolveWith>,
    outer_side: ConflictMapping,
) -> (r: PairDecision)
    requires
        modification is Modification,
        rewrite is Rewrite,
    ensures
        match (*modification, *rewrite) {
            (
                Change::Modification { location: our_location, previous_entry_mode, previous_id, entry_mode: our_mode, id: our_id },
                Change::Rewrite { source_location, entry_mode: their_mode, id: their_id, location: their_location, .. },
            ) => modified_renamed_mismatch(
                r,
                our_location@,
                our_mode,
                our_id@,
                previous_entry_mode,
                previous_id@,
                source_location@,
                their_location@,
                their_mode,
                their_id@,
                side,
                tree_conflicts,
                outer_side,
            ),
            _ => false,
        },
{
    match (modification, rewrite) {
        (
            Change::Modification { location: our_location, previous_entry_mode, previous_id, entry_mode: our_mode, id: our_id },
            Change::Rewrite { source_location, entry_mode: their_mode, id: their_id, location: their_location, .. },
        ) => {
            let edit = match tree_conflicts {
                None => Some(
                    PairEdit::UpsertBoth {
                        location: our_location.clone(),
                        mode: *our_mode,
                        id: our_id.copied(),
                        other_location: their_location.clone(),
                        other_mode: *their_mode,
                        other_id: their_id.copied(),
                    },
                ),
                Some(ResolveWith::Ours) => if side.to_global(outer_side).is_swapped() {
                    Some(
                        PairEdit::Move {
                            from: source_location.clone(),
                            location: their_location.clone(),
                            mode: *their_mode,
                            id: their_id.copied(),
                        },
                    )
                } else {
                    Some(
                        PairEdit::Move {
                            from: source_location.clone(),
                            location: our_location.clone(),
                            mode: *our_mode,
                            id: our_id.copied(),
                        },
                    )
                },
                Some(ResolveWith::Ancestor) => None,
            };
            let entries = [
                Some(
                    ConflictIndexEntry {
                        mode: *previous_entry_mode,
                        id: previous_id.copied(),
                        path_hint: Some(ConflictIndexEntryPathHint::RenamedOrTheirs),
                    },
                ),
                None,
                Some(
                    ConflictIndexEntry {
                        mode: *their_mode,
                        id: their_id.copied(),
                        path_hint: Some(ConflictIndexEntryPathHint::RenamedOrTheirs),
                    },
                ),
            ];
            PairDecision {
                edit,
                ours: ChangeDisposition::Processed,
                theirs: ChangeDisposition::Processed,
                conflict: Some(
                    PairConflict { resolution: Err(ResolutionFailure::OursModifiedTheirsRenamedTypeMismatch), side, entries },
                ),
                untrack: None,
                deferred: None,
            }
        },
        _ => {
            proof {
                assert(false);
            }
            PairDecision { edit: None, ours: ChangeDisposition::Processed, theirs: ChangeDisposition::Processed, conflict: None, untrack: None, deferred: None }
        },
    }
}

/// Resolve the pair of `ours` and `theirs` where the two changes decide it, as [`pair_decided`]
/// says, or return `None`.
pub fn resolve_pair(
    ours: &Change,
    theirs: &Change,
    tree_conflicts: Option<ResolveWith>,
    outer_side: ConflictMapping,
    erase_leaf: bool,
    our_changes: &[TrackedChange],
    their_changes: &[TrackedChange],
) -> (r: Option<PairDecision>)
    ensures
        pair_decided(*ours, *theirs, tree_conflicts, outer_side, erase_leaf, our_changes@, their_changes@, r),
{
    match (ours, theirs) {
        (Change::Modification { entry_mode: our_mode, .. }, Change::Rewrite { entry_mode: their_mode, .. }) => {
            if merge_modes(*our_mode, *their_mode).is_some() {
                return None;
            }
            Some(resolve_modified_renamed_mismatch(ours, theirs, ConflictMapping::Original, tree_conflicts, outer_side))
        },
        (Change::Rewrite { entry_mode: their_mode, .. }, Change::Modification { entry_mode: our_mode, .. }) => {
            if merge_modes(*our_mode, *their_mode).is_some() {
                return None;
            }
            Some(resolve_modified_renamed_mismatch(theirs, ours, ConflictMapping::Swapped, tree_conflicts, outer_side))
        },
        (
            Change::Modification { previous_entry_mode, previous_id, entry_mode: our_mode, id: our_id, .. },
            Change::Modification { entry_mode: their_mode, id: their_id, .. },
        ) => {
            if !(our_mode.is_commit() && their_mode.is_commit()) {
                return None;
            }
            if slice_eq(our_id.bytes.as_slice(), their_id.bytes.as_slice()) {
                Some(
                    PairDecision {
                        edit: Some(PairEdit::ApplyOurs),
                        ours: ChangeDisposition::Applied,
                        theirs: ChangeDisposition::Applied,
                        conflict: None,
                        untrack: None,
                        deferred: None,
                    },
                )
            } else {
                let (edit, o, t) = submodule_resolution(tree_conflicts, outer_side);
                let entries = [
                    index_entry(*previous_entry_mode, previous_id),
                    index_entry(*our_mode, our_id),
                    index_entry(*their_mode, their_id),
                ];
                Some(
                    PairDecision {
                        edit,
                        ours: o,
                        theirs: t,
                        conflict: Some(
                            PairConflict { resolution: Err(ResolutionFailure::SubmoduleMerge), side: ConflictMapping::Original, entries },
                        ),
                        untrack: None,
                        deferred: None,
                    },
                )
            }
        },
        (
            Change::Addition { entry_mode: our_mode, id: our_id, .. },
            Change::Addition { entry_mode: their_mode, id: their_id, .. },
        ) => {
            if erase_leaf || !(our_mode.is_commit() && their_mode.is_commit()) {
                return None;
            }
            let (edit, o, t) = submodule_resolution(tree_conflicts, outer_side);
            let entries = [None, index_entry(*our_mode, our_id), index_entry(*their_mode, their_id)];
            Some(
                PairDecision {
                    edit,
                    ours: o,
                    theirs: t,
                    conflict: Some(
                        PairConflict { resolution: Err(ResolutionFailure::SubmoduleAddAdd), side: ConflictMapping::Original, entries },
                    ),
                    untrack: None,
                    deferred: None,
                },
            )
        },
        (Change::Deletion { .. }, Change::Deletion { .. }) => Some(
            PairDecision {
                edit: Some(PairEdit::ApplyOurs),
                ours: ChangeDisposition::Applied,
                theirs: ChangeDisposition::Applied,
                conflict: None,
                untrack: None,
                deferred: None,
            },
        ),
        (Change::Modification { location, previous_entry_mode, previous_id, entry_mode, id }, Change::Deletion { .. }) => {
            let replaced = any_directory_added_at(their_changes, location.as_slice());
            if replaced && tree_conflicts.is_none() {
                return None;
            }
            Some(
                resolve_modified_deleted(
                    location,
                    *entry_mode,
                    id,
                    *previous_entry_mode,
                    previous_id,
                    ConflictMapping::Original,
                    replaced,
                    tree_conflicts,
                    outer_side,
                ),
            )
        },
        (Change::Deletion { .. }, Change::Modification { location, previous_entry_mode, previous_id, entry_mode, id }) => {
            let replaced = any_directory_added_at(our_changes, location.as_slice());
            if replaced && tree_conflicts.is_none() {
                return None;
            }
            Some(
                resolve_modified_deleted(
                    location,
                    *entry_mode,
                    id,
                    *previous_entry_mode,
                    previous_id,
                    ConflictMapping::Swapped,
                    replaced,
                    tree_conflicts,
                    outer_side,
                ),
            )
        },
        (Change::Deletion { .. }, Change::Rewrite { source_location, entry_mode, id, location, .. }) => Some(
            resolve_deleted_renamed(source_location, location, *entry_mode, id, ConflictMapping::Original, tree_conflicts),
        ),
        (Change::Rewrite { source_location, entry_mode, id, location, .. }, Change::Deletion { .. }) => Some(
            resolve_deleted_renamed(source_location, location, *entry_mode, id, ConflictMapping::Swapped, tree_conflicts),
        ),
        _ => None,
    }
}

/// Where tree conflicts are forced to keep the ancestor, a pair that ends in a conflict leaves the
/// merged tree as it was, and neither change counts as applied.
pub proof fn lemma_ancestor_keeps_tree(
    ours: Change,
    theirs: Change,
    outer_side: ConflictMapping,
    erase_leaf: bool,
    our_changes: Seq<TrackedChange>,
    their_changes: Seq<TrackedChange>,
    r: Option<PairDecision>,
)
    requires
        pair_decided(ours, theirs, Some(ResolveWith::Ancestor), outer_side, erase_leaf, our_changes, their_changes, r),
    ensures
        r matches Some(d) ==> (d.conflict is Some ==> d.edit is None && d.ours == ChangeDisposition::Processed
            && d.theirs == ChangeDisposition::Processed),
{
}

// ---------------------------------------------------------------------------------------------
// Two modifications whose contents are merged.

/// `true` if the pair of `ours` and `theirs` is resolved by merging contents: both sides modified
/// the entry, or added one (not as a leaf blocking a directory, which `erase_leaf` tells), with
/// different ids, neither is a submodule, and their modes merge.
pub open spec fn content_merge_needed(ours: Change, theirs: Change, erase_leaf: bool) -> bool {
    match (ours, theirs) {
        (
            Change::Modification { entry_mode: our_mode, id: our_id, .. },
            Change::Modification { entry_mode: their_mode, id: their_id, .. },
        ) => !is_commit_mode(our_mode) && !is_commit_mode(their_mode) && merge_modes_spec(our_mode, their_mode) is Some
            && our_id@ != their_id@,
        (
            Change::Addition { entry_mode: our_mode, id: our_id, .. },
            Change::Addition { entry_mode: their_mode, id: their_id, .. },
        ) => !erase_leaf && !is_commit_mode(our_mode) && !is_commit_mode(their_mode) && merge_modes_spec(our_mode, their_mode) is Some
            && our_id@ != their_id@,
        _ => false,
    }
}

/// `true` if both modes merge with `previous`, the mode they were modified from.
pub open spec fn previous_compatible(our_mode: EntryMode, their_mode: EntryMode, previous: EntryMode) -> bool {
    merge_modes_spec(our_mode, previous) is Some && merge_modes_spec(their_mode, previous) is Some
}

/// `true` where the modes of two modifications merge as derived from the previous mode if both
/// merge with it: blob modes that differ only in their executable bit differ in their kind.
pub open spec fn previous_modes_defined(ours: Change, theirs: Change) -> bool {
    match (ours, theirs) {
        (
            Change::Modification { previous_entry_mode, entry_mode: our_mode, .. },
            Change::Modification { entry_mode: their_mode, .. },
        ) => previous_compatible(our_mode, their_mode, previous_entry_mode) ==> merge_modes_prev_defined(
            our_mode,
            their_mode,
            previous_entry_mode,
        ),
        _ => true,
    }
}

/// What merging the contents of a pair starts from: the blobs at `location`, ours taken with
/// `our_mode` and theirs with `their_mode`, are merged against the base `base_id` of `base_mode`,
/// with their sides mapped by `side`, and the result gets `merged_mode`.
#[derive(Debug)]
pub struct ContentMergePlan {
    pub location: Vec<u8>,
    pub merged_mode: EntryMode,
    pub base_id: ObjectId,
    pub base_mode: EntryMode,
    pub our_mode: EntryMode,
    pub their_mode: EntryMode,
    pub side: ConflictMapping,
}

/// The null id of the kind of `id`.
pub open spec fn null_like(id: Seq<u8>) -> Seq<u8> {
    null_of(
        if id.len() == 32 {
            HashKind::Sha256
        } else {
            HashKind::Sha1
        },
    )
}

/// `true` if `plan` is how the contents of `ours` and `theirs` are merged, where `outer_side` tells
/// which side the merge calls ours. For two modifications, where both modes merge with the
/// previous mode, the modes merge as derived from it and the previous entry is the base; else the
/// modes merge without an ancestor and the base is the null id, of the merged mode; each side
/// keeps its mode and the sides are mapped as the merge maps them. For two additions, the modes
/// merge without an ancestor, both sides and the null base take the merged mode, and the sides are
/// mapped the other way where ours is an executable blob and theirs a plain one.
pub open spec fn plan_of(plan: ContentMergePlan, ours: Change, theirs: Change, outer_side: ConflictMapping) -> bool {
    match (ours, theirs) {
        (
            Change::Modification { location, previous_entry_mode, previous_id, entry_mode: our_mode, .. },
            Change::Modification { entry_mode: their_mode, .. },
        ) => {
            let compatible = previous_compatible(our_mode, their_mode, previous_entry_mode);
            let merged = if compatible {
                merge_modes_prev_spec(our_mode, their_mode, previous_entry_mode)
            } else {
                merge_modes_spec(our_mode, their_mode)
            };
            &&& plan.location@ == location@
            &&& Some(plan.merged_mode) == merged
            &&& plan.our_mode == our_mode && plan.their_mode == their_mode && plan.side == outer_side
            &&& if compatible {
                plan.base_id@ == previous_id@ && plan.base_mode == previous_entry_mode
            } else {
                plan.base_id@ == null_like(previous_id@) && plan.base_mode == plan.merged_mode
            }
        },
        (
            Change::Addition { location, entry_mode: our_mode, .. },
            Change::Addition { entry_mode: their_mode, id: their_id, .. },
        ) => {
            &&& plan.location@ == location@
            &&& Some(plan.merged_mode) == merge_modes_spec(our_mode, their_mode)
            &&& plan.our_mode == plan.merged_mode && plan.their_mode == plan.merged_mode
            &&& plan.base_id@ == null_like(their_id@) && plan.base_mode == plan.merged_mode
            &&& plan.side == (if our_mode == their_mode || kind_of(our_mode.value) == EntryKind::Blob {
                outer_side
            } else {
                outer_side.spec_swapped()
            })
        },
        _ => false,
    }
}

/// Begin to resolve the pair of `ours` and `theirs` by merging contents, where
/// [`content_merge_needed`] says so, with the plan [`plan_of`] gives; the blob merge itself is
/// the caller's, and [`finish_content_merge`] resolves the pair with its result.
pub fn plan_content_merge(ours: &Change, theirs: &Change, erase_leaf: bool, outer_side: ConflictMapping) -> (r: Option<
    ContentMergePlan,
>)
    requires
        content_merge_needed(*ours, *theirs, erase_leaf) ==> previous_modes_defined(*ours, *theirs),
    ensures
        r is Some <==> content_merge_needed(*ours, *theirs, erase_leaf),
        r matches Some(p) ==> plan_of(p, *ours, *theirs, outer_side),
{
    match (ours, theirs) {
        (
            Change::Modification { location, previous_entry_mode, previous_id, entry_mode: our_mode, id: our_id },
            Change::Modification { entry_mode: their_mode, id: their_id, .. },
        ) => {
            if our_mode.is_commit() || their_mode.is_commit() {
                return None;
            }
            let merged = match merge_modes(*our_mode, *their_mode) {
                Some(m) => m,
                None => {
                    return None;
                },
            };
            if slice_eq(our_id.bytes.as_slice(), their_id.bytes.as_slice()) {
                return None;
            }
            let compatible = merge_modes(*our_mode, *previous_entry_mode).is_some() && merge_modes(
                *their_mode,
                *previous_entry_mode,
            ).is_some();
            let (merged_mode, base_id, base_mode) = if compatible {
                let merged_mode = match merge_modes_prev(*our_mode, *their_mode, *previous_entry_mode) {
                    Some(m) => m,
                    None => merged,
                };
                (merged_mode, previous_id.copied(), *previous_entry_mode)
            } else {
                (merged, null_id(previous_id.kind()), merged)
            };
            Some(
                ContentMergePlan {
                    location: location.clone(),
                    merged_mode,
                    base_id,
                    base_mode,
                    our_mode: *our_mode,
                    their_mode: *their_mode,
                    side: outer_side,
                },
            )
        },
        (
            Change::Addition { location, entry_mode: our_mode, id: our_id, .. },
            Change::Addition { entry_mode: their_mode, id: their_id, .. },
        ) => {
            if erase_leaf || our_mode.is_commit() || their_mode.is_commit() {
                return None;
            }
            let merged = match merge_modes(*our_mode, *their_mode) {
                Some(m) => m,
                None => {
                    return None;
                },
            };
            if slice_eq(our_id.bytes.as_slice(), their_id.bytes.as_slice()) {
                return None;
            }
            let side = if *our_mode == *their_mode || our_mode.kind() == EntryKind::Blob {
                outer_side
            } else {
                outer_side.swapped()
            };
            Some(
                ContentMergePlan {
                    location: location.clone(),
                    merged_mode: merged,
                    base_id: null_id(their_id.kind()),
                    base_mode: merged,
                    our_mode: merged,
                    their_mode: merged,
                    side,
                },
            )
        },
        _ => None,
    }
}

/// `true` if `d` resolves a pair whose contents merged into `merged_blob_id` with `resolution`, as
/// `plan` says: the merged blob is put at the plan's location with its merged mode, both changes
/// stay merely processed, and the content merge is recorded with the previous entry, if any, and
/// our and their entry.
pub open spec fn content_merged(
    d: PairDecision,
    plan: ContentMergePlan,
    ours: Change,
    theirs: Change,
    merged_blob_id: Seq<u8>,
    resolution: blob::Resolution,
) -> bool {
    &&& d.edit matches Some(PairEdit::Upsert { location, mode, id }) && location@ == plan.location@ && mode
        == plan.merged_mode && id@ == merged_blob_id
    &&& d.ours == ChangeDisposition::Processed && d.theirs == ChangeDisposition::Processed
    &&& no_follow_up(d)
    &&& d.conflict matches Some(c) && c.side == ConflictMapping::Original && merged_as(c.resolution, merged_blob_id, resolution)
        && match (ours, theirs) {
        (
            Change::Modification { previous_entry_mode, previous_id, entry_mode: our_mode, id: our_id, .. },
            Change::Modification { entry_mode: their_mode, id: their_id, .. },
        ) => entry_is(c.entries[0], previous_entry_mode, previous_id@) && entry_is(c.entries[1], our_mode, our_id@)
            && entry_is(c.entries[2], their_mode, their_id@),
        (
            Change::Addition { entry_mode: our_mode, id: our_id, .. },
            Change::Addition { entry_mode: their_mode, id: their_id, .. },
        ) => c.entries[0] is None && entry_is(c.entries[1], our_mode, our_id@) && entry_is(c.entries[2], their_mode, their_id@),
        _ => false,
    }
}

/// `true` if `resolution` records a content merge into `merged_blob_id` with `blob_resolution`.
pub open spec fn merged_as(
    resolution: Result<Resolution, ResolutionFailure>,
    merged_blob_id: Seq<u8>,
    blob_resolution: blob::Resolution,
) -> bool {
    resolution matches Ok(Resolution::OursModifiedTheirsModifiedThenBlobContentMerge { merged_blob })
        && merged_blob.merged_blob_id@ == merged_blob_id && merged_blob.resolution == blob_resolution
}

/// Resolve the pair of `ours` and `theirs`, whose contents were merged as `plan` says into
/// `merged_blob_id` with `resolution`, as [`content_merged`] says.
pub fn finish_content_merge(
    plan: &ContentMergePlan,
    ours: &Change,
    theirs: &Change,
    erase_leaf: bool,
    merged_blob_id: ObjectId,
    resolution: blob::Resolution,
) -> (r: PairDecision)
    requires
        content_merge_needed(*ours, *theirs, erase_leaf),
    ensures
        content_merged(r, *plan, *ours, *theirs, merged_blob_id@, resolution),
{
    let entries = match (ours, theirs) {
        (
            Change::Modification { previous_entry_mode, previous_id, entry_mode: our_mode, id: our_id, .. },
            Change::Modification { entry_mode: their_mode, id: their_id, .. },
        ) => [
            index_entry(*previous_entry_mode, previous_id),
            index_entry(*our_mode, our_id),
            index_entry(*their_mode, their_id),
        ],
        (
            Change::Addition { entry_mode: our_mode, id: our_id, .. },
            Change::Addition { entry_mode: their_mode, id: their_id, .. },
        ) => [None, index_entry(*our_mode, our_id), index_entry(*their_mode, their_id)],
        _ => {
            proof {
                assert(false);
            }
            [None, None, None]
        },
    };
    let merged_blob = ContentMerge { merged_blob_id: merged_blob_id.copied(), resolution };
    PairDecision {
        edit: Some(PairEdit::Upsert { location: plan.location.clone(), mode: plan.merged_mode, id: merged_blob_id }),
        ours: ChangeDisposition::Processed,
        theirs: ChangeDisposition::Processed,
        conflict: Some(
            PairConflict {
                resolution: Ok(Resolution::OursModifiedTheirsModifiedThenBlobContentMerge { merged_blob }),
                side: ConflictMapping::Original,
                entries,
            },
        ),
        untrack: None,
        deferred: None,
    }
}

// ---------------------------------------------------------------------------------------------
// Two additions of incompatible types.

/// `true` if the pair of `ours` and `theirs` are additions at one place of entries whose types do
/// not merge (not as a leaf blocking a directory, which `erase_leaf` tells), with different ids and
/// neither a submodule: one of them moves to a unique path.
pub open spec fn type_mismatch(ours: Change, theirs: Change, erase_leaf: bool) -> bool {
    match (ours, theirs) {
        (
            Change::Addition { entry_mode: our_mode, id: our_id, .. },
            Change::Addition { entry_mode: their_mode, id: their_id, .. },
        ) => !erase_leaf && !is_commit_mode(our_mode) && !is_commit_mode(their_mode) && merge_modes_spec(our_mode, their_mode) is None
            && our_id@ != their_id@,
        _ => false,
    }
}

/// How two additions of incompatible types are told apart: the one that stays at `location` and
/// the one that moves to a unique path, by `side` (`Original` where ours stays, as ours is a
/// symbolic link or a tree), with the label of the side that moves (`moved_is_ours`).
#[derive(Debug)]
pub struct TypeMismatchPlan {
    pub location: Vec<u8>,
    pub side: ConflictMapping,
    pub moved_is_ours: bool,
}

/// `true` if `plan` is how the incompatible additions `ours` and `theirs` are told apart: ours stays
/// where it is a symbolic link or a tree, else theirs stays.
pub open spec fn mismatch_plan_of(plan: TypeMismatchPlan, ours: Change) -> bool {
    let stays = kind_of(ours.spec_entry_mode().value) == EntryKind::Link || kind_of(ours.spec_entry_mode().value)
        == EntryKind::Tree;
    &&& plan.location@ == ours.spec_location()
    &&& plan.side == (if stays {
        ConflictMapping::Original
    } else {
        ConflictMapping::Swapped
    })
    &&& plan.moved_is_ours == !stays
}

/// Begin to resolve the pair of `ours` and `theirs` as additions of incompatible types, where
/// [`type_mismatch`] says so, with the plan [`mismatch_plan_of`] gives; the unique path that the
/// moving entry gets is the caller's, found in the tree of the side that moves (theirs where the
/// plan's side is `Original`), and [`finish_type_mismatch`] resolves the pair with it.
pub fn plan_type_mismatch(ours: &Change, theirs: &Change, erase_leaf: bool) -> (r: Option<TypeMismatchPlan>)
    ensures
        r is Some <==> type_mismatch(*ours, *theirs, erase_leaf),
        r matches Some(p) ==> mismatch_plan_of(p, *ours),
{
    match (ours, theirs) {
        (
            Change::Addition { location, entry_mode: our_mode, id: our_id, .. },
            Change::Addition { entry_mode: their_mode, id: their_id, .. },
        ) => {
            if erase_leaf || our_mode.is_commit() || their_mode.is_commit() || merge_modes(*our_mode, *their_mode).is_some()
                || slice_eq(our_id.bytes.as_slice(), their_id.bytes.as_slice()) {
                return None;
            }
            let kind = our_mode.kind();
            let stays = kind == EntryKind::Link || kind == EntryKind::Tree;
            Some(
                TypeMismatchPlan {
                    location: location.clone(),
                    side: if stays {
                        ConflictMapping::Original
                    } else {
                        ConflictMapping::Swapped
                    },
                    moved_is_ours: !stays,
                },
            )
        },
        _ => None,
    }
}

/// `true` if `entry` is an index entry of `mode` and `id` at the path `hint` names.
pub open spec fn hinted_entry_is(
    entry: Option<ConflictIndexEntry>,
    mode: EntryMode,
    id: Seq<u8>,
    hint: ConflictIndexEntryPathHint,
) -> bool {
    entry matches Some(e) && e.mode == mode && e.id@ == id && e.path_hint == Some(hint)
}

/// `true` if `d` resolves the incompatible additions `ours` and `theirs`, told apart by `plan`,
/// where the moving entry got `renamed_location`: the conflict is recorded with the sides mapped by
/// the plan's side and, without forced resolution, with the staying entry at the current path and
/// the moving one at the renamed path; the staying entry is put at the location, the location is
/// no longer tracked in the tree of the side that moves, and the moving entry is deferred as an
/// addition at the renamed path. Forced to ours, the entry of the side the merge calls ours in the
/// plan's terms is put at the location; forced to the ancestor, nothing is. A forced resolution
/// records no index entries.
pub open spec fn type_mismatch_resolved(
    d: PairDecision,
    plan: TypeMismatchPlan,
    ours: Change,
    theirs: Change,
    renamed_location: Seq<u8>,
    tree_conflicts: Option<ResolveWith>,
    outer_side: ConflictMapping,
) -> bool {
    let (stay, moved) = if plan.side == ConflictMapping::Original {
        (ours, theirs)
    } else {
        (theirs, ours)
    };
    let (stay_hint, moved_hint) = if plan.side == ConflictMapping::Original {
        (ConflictIndexEntryPathHint::Current, ConflictIndexEntryPathHint::RenamedOrTheirs)
    } else {
        (ConflictIndexEntryPathHint::RenamedOrTheirs, ConflictIndexEntryPathHint::Current)
    };
    let upserts = |c: Change|
        d.edit matches Some(PairEdit::Upsert { location, mode, id }) && location@ == plan.location@ && mode
            == c.spec_entry_mode() && id@ == change_id(c);
    &&& d.ours == ChangeDisposition::Processed && d.theirs == ChangeDisposition::Processed
    &&& d.conflict matches Some(c) && c.side == plan.side && mismatch_failure(c.resolution, renamed_location) && (if tree_conflicts is None {
        hinted_entry_is(c.entries[1], stay.spec_entry_mode(), change_id(stay), stay_hint) && hinted_entry_is(
            c.entries[2],
            moved.spec_entry_mode(),
            change_id(moved),
            moved_hint,
        )
    } else {
        c.entries[1] is None && c.entries[2] is None
    }) && c.entries[0] is None
    &&& match tree_conflicts {
        None => {
            &&& upserts(stay)
            &&& d.untrack matches Some(u) && u.0@ == plan.location@ && u.1 == plan.side.spec_swapped()
            &&& d.deferred matches Some(a) && a.location@ == renamed_location && a.entry_mode == moved.spec_entry_mode() && a.id@
                == change_id(moved) && a.onto == plan.side.spec_swapped() && a.follows_renames_of is None
        },
        Some(ResolveWith::Ours) => {
            &&& if outer_side == ConflictMapping::Original {
                upserts(stay)
            } else {
                upserts(moved)
            }
            &&& no_follow_up(d)
        },
        Some(ResolveWith::Ancestor) => d.edit is None && no_follow_up(d),
    }
}

/// `true` if `resolution` failed as incompatible additions, the moving one at `renamed_location`.
pub open spec fn mismatch_failure(resolution: Result<Resolution, ResolutionFailure>, renamed_location: Seq<u8>) -> bool {
    resolution matches Err(ResolutionFailure::OursAddedTheirsAddedTypeMismatch { their_unique_location })
        && their_unique_location@ == renamed_location
}

/// The id of the entry after `change`, or before it for deletions.
pub open spec fn change_id(change: Change) -> Seq<u8> {
    match change {
        Change::Addition { id, .. } => id@,
        Change::Deletion { id, .. } => id@,
        Change::Modification { id, .. } => id@,
        Change::Rewrite { id, .. } => id@,
    }
}

/// Resolve the incompatible additions `ours` and `theirs`, told apart by `plan`, where the moving
/// entry got `renamed_location`, as [`type_mismatch_resolved`] says.
pub fn finish_type_mismatch(
    plan: &TypeMismatchPlan,
    ours: &Change,
    theirs: &Change,
    renamed_location: Vec<u8>,
    tree_conflicts: Option<ResolveWith>,
    outer_side: ConflictMapping,
) -> (r: PairDecision)
    requires
        ours is Addition && theirs is Addition,
    ensures
        type_mismatch_resolved(r, *plan, *ours, *theirs, renamed_location@, tree_conflicts, outer_side),
{
    let (stay, moved, stay_hint, moved_hint) = match plan.side {
        ConflictMapping::Original => (ours, theirs, ConflictIndexEntryPathHint::Current, ConflictIndexEntryPathHint::RenamedOrTheirs),
        ConflictMapping::Swapped => (theirs, ours, ConflictIndexEntryPathHint::RenamedOrTheirs, ConflictIndexEntryPathHint::Current),
    };
    let (stay_mode, stay_id) = match stay {
        Change::Addition { entry_mode, id, .. } => (*entry_mode, id),
        _ => {
            proof {
                assert(false);
            }
            return PairDecision { edit: None, ours: ChangeDisposition::Processed, theirs: ChangeDisposition::Processed, conflict: None, untrack: None, deferred: None };
        },
    };
    let (moved_mode, moved_id) = match moved {
        Change::Addition { entry_mode, id, .. } => (*entry_mode, id),
        _ => {
            proof {
                assert(false);
            }
            return PairDecision { edit: None, ours: ChangeDisposition::Processed, theirs: ChangeDisposition::Processed, conflict: None, untrack: None, deferred: None };
        },
    };
    let entries = match tree_conflicts {
        None => [
            None,
            Some(ConflictIndexEntry { mode: stay_mode, id: stay_id.copied(), path_hint: Some(stay_hint) }),
            Some(ConflictIndexEntry { mode: moved_mode, id: moved_id.copied(), path_hint: Some(moved_hint) }),
        ],
        Some(_) => [None, None, None],
    };
    let conflict = PairConflict {
        resolution: Err(ResolutionFailure::OursAddedTheirsAddedTypeMismatch { their_unique_location: renamed_location.clone() }),
        side: plan.side,
        entries,
    };
    let (edit, untrack, deferred) = match tree_conflicts {
        None => (
            Some(PairEdit::Upsert { location: plan.location.clone(), mode: stay_mode, id: stay_id.copied() }),
            Some((plan.location.clone(), plan.side.swapped())),
            Some(
                PairDeferred {
                    location: renamed_location,
                    entry_mode: moved_mode,
                    id: moved_id.copied(),
                    onto: plan.side.swapped(),
                    follows_renames_of: None,
                },
            ),
        ),
        Some(ResolveWith::Ours) => {
            let (mode, id) = match outer_side {
                ConflictMapping::Original => (stay_mode, stay_id),
                ConflictMapping::Swapped => (moved_mode, moved_id),
            };
            (Some(PairEdit::Upsert { location: plan.location.clone(), mode, id: id.copied() }), None, None)
        },
        Some(ResolveWith::Ancestor) => (None, None, None),
    };
    PairDecision {
        edit,
        ours: ChangeDisposition::Processed,
        theirs: ChangeDisposition::Processed,
        conflict: Some(conflict),
        untrack,
        deferred,
    }
}

// ---------------------------------------------------------------------------------------------
// A modification against a deletion whose place a directory took.

/// `true` if the pair of `ours` and `theirs` is a modification against a deletion whose entry the
/// deleting side replaced by a directory, as `our_changes` and `their_changes` show, while tree
/// conflicts are not forced: the modified entry moves to a unique path.
pub open spec fn modified_replaced(
    ours: Change,
    theirs: Change,
    tree_conflicts: Option<ResolveWith>,
    our_changes: Seq<TrackedChange>,
    their_changes: Seq<TrackedChange>,
) -> bool {
    tree_conflicts is None && match (ours, theirs) {
        (Change::Modification { location, .. }, Change::Deletion { .. }) => adds_directory_at(their_changes, location@),
        (Change::Deletion { .. }, Change::Modification { location, .. }) => adds_directory_at(our_changes, location@),
        _ => false,
    }
}

/// Where the modified entry of such a pair is and which side modified it (`Original` where ours
/// did); the unique path it moves to is found in the tree of that side, qualified by its label.
#[derive(Debug)]
pub struct ReplacedPlan {
    pub location: Vec<u8>,
    pub side: ConflictMapping,
}

/// Begin to resolve the pair of `ours` and `theirs` where [`modified_replaced`] says it is a
/// modification against a deletion that a directory replaced: the plan holds the modification's
/// location and side; [`finish_modified_replaced`] resolves the pair with the unique path.
pub fn plan_modified_replaced(
    ours: &Change,
    theirs: &Change,
    tree_conflicts: Option<ResolveWith>,
    our_changes: &[TrackedChange],
    their_changes: &[TrackedChange],
) -> (r: Option<ReplacedPlan>)
    ensures
        r is Some <==> modified_replaced(*ours, *theirs, tree_conflicts, our_changes@, their_changes@),
        r matches Some(p) ==> (if p.side == ConflictMapping::Original {
            p.location@ == ours.spec_location()
        } else {
            p.location@ == theirs.spec_location()
        }) && (p.side == ConflictMapping::Original <==> ours is Modification),
{
    if tree_conflicts.is_some() {
        return None;
    }
    match (ours, theirs) {
        (Change::Modification { location, .. }, Change::Deletion { .. }) => if any_directory_added_at(their_changes, location.as_slice()) {
            Some(ReplacedPlan { location: location.clone(), side: ConflictMapping::Original })
        } else {
            None
        },
        (Change::Deletion { .. }, Change::Modification { location, .. }) => if any_directory_added_at(our_changes, location.as_slice()) {
            Some(ReplacedPlan { location: location.clone(), side: ConflictMapping::Swapped })
        } else {
            None
        },
        _ => None,
    }
}

/// `true` if `d` resolves such a pair, planned as `plan`, where the modified entry got
/// `renamed_location`: the entry at the location is removed from the merged tree and from the
/// tracking tree of the modifying side, the modified entry is deferred as an addition at the
/// renamed path onto the modifying side's own changes, the deletion counts as applied, and the
/// conflict is recorded with the previous and the modified entry.
pub open spec fn modified_replaced_resolved(
    d: PairDecision,
    plan: ReplacedPlan,
    modified: Change,
    renamed_location: Seq<u8>,
) -> bool {
    match modified {
        Change::Modification { previous_entry_mode, previous_id, entry_mode, id, .. } => {
            &&& d.edit matches Some(PairEdit::Remove { location }) && location@ == plan.location@
            &&& d.untrack matches Some(u) && u.0@ == plan.location@ && u.1 == plan.side
            &&& d.deferred matches Some(a) && a.location@ == renamed_location && a.entry_mode == entry_mode && a.id@ == id@
                && a.onto == plan.side && a.follows_renames_of is None
            &&& (d.ours, d.theirs) == (if plan.side == ConflictMapping::Original {
                (ChangeDisposition::Processed, ChangeDisposition::Applied)
            } else {
                (ChangeDisposition::Applied, ChangeDisposition::Processed)
            })
            &&& d.conflict matches Some(c) && c.side == plan.side && directory_failure(c.resolution, renamed_location)
                && entry_is(c.entries[0], previous_entry_mode, previous_id@) && entry_is(c.entries[1], entry_mode, id@)
                && c.entries[2] is None
        },
        _ => false,
    }
}

/// `true` if `resolution` failed as a modification against a directory, the modified entry moved
/// to `renamed_location`.
pub open spec fn directory_failure(resolution: Result<Resolution, ResolutionFailure>, renamed_location: Seq<u8>) -> bool {
    resolution matches Err(ResolutionFailure::OursModifiedTheirsDirectoryThenOursRenamed { renamed_unique_path_to_modified_blob })
        && renamed_unique_path_to_modified_blob@ == renamed_location
}

/// Resolve the pair planned as `plan`, whose modification is `modified`, where the modified entry
/// got `renamed_location`, as [`modified_replaced_resolved`] says.
pub fn finish_modified_replaced(plan: &ReplacedPlan, modified: &Change, renamed_location: Vec<u8>) -> (r: PairDecision)
    requires
        modified is Modification,
    ensures
        modified_replaced_resolved(r, *plan, *modified, renamed_location@),
{
    match modified {
        Change::Modification { previous_entry_mode, previous_id, entry_mode, id, .. } => {
            let (ours, theirs) = match plan.side {
                ConflictMapping::Original => (ChangeDisposition::Processed, ChangeDisposition::Applied),
                ConflictMapping::Swapped => (ChangeDisposition::Applied, ChangeDisposition::Processed),
            };
            let entries = [index_entry(*previous_entry_mode, previous_id), index_entry(*entry_mode, id), None];
            PairDecision {
                edit: Some(PairEdit::Remove { location: plan.location.clone() }),
                ours,
                theirs,
                conflict: Some(
                    PairConflict {
                        resolution: Err(
                            ResolutionFailure::OursModifiedTheirsDirectoryThenOursRenamed {
                                renamed_unique_path_to_modified_blob: renamed_location.clone(),
                            },
                        ),
                        side: plan.side,
                        entries,
                    },
                ),
                untrack: Some((plan.location.clone(), plan.side)),
                deferred: Some(
                    PairDeferred {
                        location: renamed_location,
                        entry_mode: *entry_mode,
                        id: id.copied(),
                        onto: plan.side,
                        follows_renames_of: None,
                    },
                ),
            }
        },
        _ => {
            proof {
                assert(false);
            }
            PairDecision { edit: None, ours: ChangeDisposition::Processed, theirs: ChangeDisposition::Processed, conflict: None, untrack: None, deferred: None }
        },
    }
}

/// At most one way resolves a pair: decided from the two changes, by a content merge, by moving an
/// addition of an incompatible type, by moving a modified entry whose place became a directory, or
/// by carrying a modification to the destination of a rename.
pub proof fn lemma_one_way_per_pair(
    ours: Change,
    theirs: Change,
    tree_conflicts: Option<ResolveWith>,
    outer_side: ConflictMapping,
    erase_leaf: bool,
    our_changes: Seq<TrackedChange>,
    their_changes: Seq<TrackedChange>,
    r: Option<PairDecision>,
)
    requires
        pair_decided(ours, theirs, tree_conflicts, outer_side, erase_leaf, our_changes, their_changes, r),
    ensures
        r is Some ==> !content_merge_needed(ours, theirs, erase_leaf) && !type_mismatch(ours, theirs, erase_leaf)
            && !modified_replaced(ours, theirs, tree_conflicts, our_changes, their_changes),
        content_merge_needed(ours, theirs, erase_leaf) ==> !type_mismatch(ours, theirs, erase_leaf) && !modified_replaced(
            ours,
            theirs,
            tree_conflicts,
            our_changes,
            their_changes,
        ),
        type_mismatch(ours, theirs, erase_leaf) ==> !modified_replaced(ours, theirs, tree_conflicts, our_changes, their_changes),
        modified_renamed(ours, theirs) ==> r is None && !content_merge_needed(ours, theirs, erase_leaf) && !type_mismatch(
            ours,
            theirs,
            erase_leaf,
        ) && !modified_replaced(ours, theirs, tree_conflicts, our_changes, their_changes),
{
}

/// Without forced resolution, a modification paired with a deletion of the same entry keeps the
/// modified entry in the merged tree, whichever side made the modification and whichever side the
/// merge calls ours: the decision puts the modification's location, mode and id there, and records
/// the conflict of a modified entry deleted on the other side. (Where the
/// deleting side put a directory in that place, another rule takes the pair.)
pub proof fn lemma_modification_survives_deletion(
    modification: Change,
    deletion: Change,
    outer_side: ConflictMapping,
    erase_leaf: bool,
    our_changes: Seq<TrackedChange>,
    their_changes: Seq<TrackedChange>,
    r1: Option<PairDecision>,
    r2: Option<PairDecision>,
)
    requires
        modification is Modification,
        deletion is Deletion,
        !adds_directory_at(their_changes, modification.spec_location()),
        !adds_directory_at(our_changes, modification.spec_location()),
        pair_decided(modification, deletion, None, outer_side, erase_leaf, our_changes, their_changes, r1),
        pair_decided(deletion, modification, None, outer_side, erase_leaf, our_changes, their_changes, r2),
    ensures
        match modification {
            Change::Modification { location, entry_mode, id, .. } => {
                &&& r1 matches Some(d) && d.edit matches Some(PairEdit::Upsert { location: l, mode: m, id: i }) && l@
                    == location@ && m == entry_mode && i@ == id@
                &&& r2 matches Some(d) && d.edit matches Some(PairEdit::Upsert { location: l, mode: m, id: i }) && l@
                    == location@ && m == entry_mode && i@ == id@
                &&& r1 matches Some(d) && d.conflict matches Some(c) && c.resolution == Err::<Resolution, ResolutionFailure>(
                    ResolutionFailure::OursModifiedTheirsDeleted,
                )
                &&& r2 matches Some(d) && d.conflict matches Some(c) && c.resolution == Err::<Resolution, ResolutionFailure>(
                    ResolutionFailure::OursModifiedTheirsDeleted,
                )
            },
            _ => false,
        },
{
}

// ---------------------------------------------------------------------------------------------
// A modification carried to the destination of a rename.

/// `true` if the pair of `ours` and `theirs` is a modification against a rename whose types merge:
/// the modification is carried to the rename's destination.
pub open spec fn modified_renamed(ours: Change, theirs: Change) -> bool {
    match (ours, theirs) {
        (Change::Modification { entry_mode: our_mode, .. }, Change::Rewrite { entry_mode: their_mode, .. }) => merge_modes_spec(
            our_mode,
            their_mode,
        ) is Some,
        (Change::Rewrite { entry_mode: their_mode, .. }, Change::Modification { entry_mode: our_mode, .. }) => merge_modes_spec(
            our_mode,
            their_mode,
        ) is Some,
        _ => false,
    }
}

/// A blob that a content merge takes: its location, id and mode.
#[derive(Debug)]
pub struct BlobInput {
    pub location: Vec<u8>,
    pub id: ObjectId,
    pub mode: EntryMode,
}

/// How a modification is carried to the destination of a rename: `side` is `Original` where our
/// change is the modification, `merged_mode` is the mode of the result, `destination` is where the
/// rename went (to be adjusted for directory renames of the side `side` picks), and
/// `content_merge` holds the blobs to merge, ours, theirs and the base, unless the rename kept the
/// content, which then is the modified one.
#[derive(Debug)]
pub struct RenameMergePlan {
    pub side: ConflictMapping,
    pub merged_mode: EntryMode,
    pub destination: Vec<u8>,
    pub content_merge: Option<(BlobInput, BlobInput, BlobInput)>,
}

/// `true` if `b` is the blob at `location` with `id` and `mode`.
pub open spec fn blob_is(b: BlobInput, location: Seq<u8>, id: Seq<u8>, mode: EntryMode) -> bool {
    b.location@ == location && b.id@ == id && b.mode == mode
}

/// `true` if `plan` is how the modification `m` is carried to the destination of the rename `w`,
/// where `side` is `Original` if our change is the modification: the modes merge without an
/// ancestor; where the rename changed the content, ours and theirs (as the sides are stored) are
/// merged against the entry before the modification, at the rename's source.
pub open spec fn rename_plan_of(plan: RenameMergePlan, m: Change, w: Change, side: ConflictMapping) -> bool {
    match (m, w) {
        (
            Change::Modification { location: our_location, previous_entry_mode, previous_id, entry_mode: our_mode, id: our_id },
            Change::Rewrite { source_location, source_id, entry_mode: their_mode, id: their_id, location: their_location, .. },
        ) => {
            &&& plan.side == side
            &&& Some(plan.merged_mode) == merge_modes_spec(our_mode, their_mode)
            &&& plan.destination@ == their_location@
            &&& if source_id@ == their_id@ {
                plan.content_merge is None
            } else {
                plan.content_merge matches Some((o, t, b)) && blob_is(b, source_location@, previous_id@, previous_entry_mode)
                    && if side == ConflictMapping::Original {
                    blob_is(o, our_location@, our_id@, our_mode) && blob_is(t, their_location@, their_id@, their_mode)
                } else {
                    blob_is(o, their_location@, their_id@, their_mode) && blob_is(t, our_location@, our_id@, our_mode)
                }
            }
        },
        _ => false,
    }
}

fn blob_input(location: &Vec<u8>, id: &ObjectId, mode: EntryMode) -> (r: BlobInput)
    ensures
        blob_is(r, location@, id@, mode),
{
    BlobInput { location: location.clone(), id: id.copied(), mode }
}

/// Begin to carry a modification to the destination of a rename, where [`modified_renamed`] says
/// the pair of `ours` and `theirs` is one, with the plan [`rename_plan_of`] gives; the content
/// merge and the adjustment of the destination are the caller's, and
/// [`finish_modified_renamed`] resolves the pair with them.
pub fn plan_modified_renamed(ours: &Change, theirs: &Change) -> (r: Option<RenameMergePlan>)
    ensures
        r is Some <==> modified_renamed(*ours, *theirs),
        r matches Some(p) ==> if ours is Modification {
            rename_plan_of(p, *ours, *theirs, ConflictMapping::Original)
        } else {
            rename_plan_of(p, *theirs, *ours, ConflictMapping::Swapped)
        },
{
    let (m, w, side) = match (ours, theirs) {
        (Change::Modification { .. }, Change::Rewrite { .. }) => (ours, theirs, ConflictMapping::Original),
        (Change::Rewrite { .. }, Change::Modification { .. }) => (theirs, ours, ConflictMapping::Swapped),
        _ => {
            return None;
        },
    };
    match (m, w) {
        (
            Change::Modification { location: our_location, previous_entry_mode, previous_id, entry_mode: our_mode, id: our_id },
            Change::Rewrite { source_location, source_id, entry_mode: their_mode, id: their_id, location: their_location, .. },
        ) => {
            let merged_mode = match merge_modes(*our_mode, *their_mode) {
                Some(mode) => mode,
                None => {
                    return None;
                },
            };
            let content_merge = if slice_eq(source_id.bytes.as_slice(), their_id.bytes.as_slice()) {
                None
            } else {
                let base = blob_input(source_location, previous_id, *previous_entry_mode);
                let modified = blob_input(our_location, our_id, *our_mode);
                let renamed = blob_input(their_location, their_id, *their_mode);
                match side {
                    ConflictMapping::Original => Some((modified, renamed, base)),
                    ConflictMapping::Swapped => Some((renamed, modified, base)),
                }
            };
            Some(RenameMergePlan { side, merged_mode, destination: their_location.clone(), content_merge })
        },
        _ => None,
    }
}

/// `true` if `d` carries the modification `m` to the destination of the rename `w` as `plan`
/// says, where the destination ended up at `final_location` if a directory rename moved it, and
/// the contents merged into `merged` (an id and how the blob merge went), if they were merged: the
/// modified entry is removed from its location in the merged tree and from the tracking tree of
/// the modifying side, an addition of the merged mode with the merged blob (else the modified
/// one) is deferred at the final location (else the destination) onto the other side's changes,
/// and the resolution is recorded with the merged mode where it differs from the renamed entry's,
/// the content merge, and the final location.
pub open spec fn modified_renamed_resolved(
    d: PairDecision,
    plan: RenameMergePlan,
    m: Change,
    w: Change,
    final_location: Option<Seq<u8>>,
    merged: Option<(Seq<u8>, blob::Resolution)>,
) -> bool {
    match (m, w) {
        (
            Change::Modification { location: our_location, previous_entry_mode, previous_id, entry_mode: our_mode, id: our_id },
            Change::Rewrite { entry_mode: their_mode, id: their_id, .. },
        ) => {
            let blob_id = match merged {
                Some((id, _)) => id,
                None => our_id@,
            };
            &&& d.edit matches Some(PairEdit::Remove { location }) && location@ == our_location@
            &&& d.untrack matches Some(u) && u.0@ == our_location@ && u.1 == plan.side
            &&& d.deferred matches Some(a) && a.location@ == (match final_location {
                Some(l) => l,
                None => plan.destination@,
            }) && a.entry_mode == plan.merged_mode && a.id@ == blob_id && a.onto == plan.side.spec_swapped()
                && a.follows_renames_of is None
            &&& d.ours == ChangeDisposition::Processed && d.theirs == ChangeDisposition::Processed
            &&& d.conflict matches Some(c) && c.side == plan.side && carried_as(
                c.resolution,
                if plan.merged_mode != their_mode {
                    Some(plan.merged_mode)
                } else {
                    None
                },
                merged,
                final_location,
            ) && entry_is(c.entries[0], previous_entry_mode, previous_id@) && entry_is(c.entries[1], our_mode, our_id@)
                && entry_is(c.entries[2], their_mode, their_id@)
        },
        _ => false,
    }
}

/// `true` if `resolution` records a modification carried to a rename's destination with
/// `merged_mode`, the content merge `merged` and `final_location`.
pub open spec fn carried_as(
    resolution: Result<Resolution, ResolutionFailure>,
    merged_mode: Option<EntryMode>,
    merged: Option<(Seq<u8>, blob::Resolution)>,
    final_location: Option<Seq<u8>>,
) -> bool {
    resolution matches Ok(
        Resolution::OursModifiedTheirsRenamedAndChangedThenRename { merged_mode: mm, merged_blob, final_location: fl },
    ) && mm == merged_mode && match (merged_blob, merged) {
        (Some(b), Some((id, r))) => b.merged_blob_id@ == id && b.resolution == r,
        (None, None) => true,
        _ => false,
    } && match (fl, final_location) {
        (Some(a), Some(b)) => a@ == b,
        (None, None) => true,
        _ => false,
    }
}

/// Carry the modification `m` to the destination of the rename `w` as `plan` says, as
/// [`modified_renamed_resolved`] says.
pub fn finish_modified_renamed(
    plan: &RenameMergePlan,
    m: &Change,
    w: &Change,
    final_location: Option<Vec<u8>>,
    merged: Option<(ObjectId, blob::Resolution)>,
) -> (r: PairDecision)
    requires
        m is Modification,
        w is Rewrite,
    ensures
        modified_renamed_resolved(
            r,
            *plan,
            *m,
            *w,
            match final_location {
                Some(l) => Some(l@),
                None => None,
            },
            match merged {
                Some((id, res)) => Some((id@, res)),
                None => None,
            },
        ),
{
    match (m, w) {
        (
            Change::Modification { location: our_location, previous_entry_mode, previous_id, entry_mode: our_mode, id: our_id },
            Change::Rewrite { entry_mode: their_mode, id: their_id, .. },
        ) => {
            let (blob_id, merged_blob) = match merged {
                Some((id, resolution)) => (id.copied(), Some(ContentMerge { merged_blob_id: id, resolution })),
                None => (our_id.copied(), None),
            };
            let addition_location = match &final_location {
                Some(l) => l.clone(),
                None => plan.destination.clone(),
            };
            let merged_mode = if plan.merged_mode != *their_mode {
                Some(plan.merged_mode)
            } else {
                None
            };
            let entries = [
                index_entry(*previous_entry_mode, previous_id),
                index_entry(*our_mode, our_id),
                index_entry(*their_mode, their_id),
            ];
            PairDecision {
                edit: Some(PairEdit::Remove { location: our_location.clone() }),
                ours: ChangeDisposition::Processed,
                theirs: ChangeDisposition::Processed,
                conflict: Some(
                    PairConflict {
                        resolution: Ok(
                            Resolution::OursModifiedTheirsRenamedAndChangedThenRename { merged_mode, merged_blob, final_location },
                        ),
                        side: plan.side,
                        entries,
                    },
                ),
                untrack: Some((our_location.clone(), plan.side)),
                deferred: Some(
                    PairDeferred {
                        location: addition_location,
                        entry_mode: plan.merged_mode,
                        id: blob_id,
                        onto: plan.side.swapped(),
                        follows_renames_of: None,
                    },
                ),
            }
        },
        _ => {
            proof {
                assert(false);
            }
            PairDecision { edit: None, ours: ChangeDisposition::Processed, theirs: ChangeDisposition::Processed, conflict: None, untrack: None, deferred: None }
        },
    }
}

/// `true` if `kind` is a blob kind, executable or not.
fn is_blob_kind_exec(kind: EntryKind) -> (r: bool)
    ensures
        r == (kind == EntryKind::Blob || kind == EntryKind::BlobExecutable),
{
    kind == EntryKind::Blob || kind == EntryKind::BlobExecutable
}

/// `true` where [`plan_content_merge`] may be called on the pair of `ours` and `theirs`: unless
/// their contents are to be merged, or the modes merge as derived from the previous mode, as
/// [`previous_modes_defined`] says.
pub fn may_plan_content_merge(ours: &Change, theirs: &Change, erase_leaf: bool) -> (r: bool)
    ensures
        r == (content_merge_needed(*ours, *theirs, erase_leaf) ==> previous_modes_defined(*ours, *theirs)),
{
    match (ours, theirs) {
        (
            Change::Modification { previous_entry_mode, entry_mode: our_mode, id: our_id, .. },
            Change::Modification { entry_mode: their_mode, id: their_id, .. },
        ) => {
            let needed = !our_mode.is_commit() && !their_mode.is_commit() && merge_modes(*our_mode, *their_mode).is_some()
                && !slice_eq(our_id.bytes.as_slice(), their_id.bytes.as_slice());
            let compatible = merge_modes(*our_mode, *previous_entry_mode).is_some() && merge_modes(
                *their_mode,
                *previous_entry_mode,
            ).is_some();
            if !needed || !compatible {
                return true;
            }
            let (ka, kb, kp) = (our_mode.kind(), their_mode.kind(), previous_entry_mode.kind());
            if *our_mode != *their_mode && is_blob_kind_exec(ka) && is_blob_kind_exec(kb) && (ka == EntryKind::BlobExecutable
                || kb == EntryKind::BlobExecutable) {
                let changed = if ka == kp {
                    kb
                } else {
                    ka
                };
                (kp == EntryKind::Blob && changed == EntryKind::BlobExecutable) || (kp == EntryKind::BlobExecutable && changed
                    == EntryKind::Blob)
            } else {
                true
            }
        },
        _ => true,
    }
}

// ---------------------------------------------------------------------------------------------
// A non-tree of theirs blocked by a directory of ours.

/// `true` if `edit` and `conflict` resolve the non-tree change `theirs`, at a place where ours has a
/// directory but no change of its own, by moving it to `renamed`: without forced resolution it is
/// put at the renamed path; forced to ours, it is put at its own place only where the merge calls
/// it ours; forced to the ancestor, nothing is put. The conflict is recorded with their entry, of
/// its kind's canonical mode, at the renamed path.
pub open spec fn blocked_by_directory(
    edit: Option<PairEdit>,
    conflict: PairConflict,
    theirs: Change,
    renamed: Seq<u8>,
    tree_conflicts: Option<ResolveWith>,
    outer_side: ConflictMapping,
) -> bool {
    let mode = theirs.spec_entry_mode();
    let id = change_id(theirs);
    &&& match tree_conflicts {
        None => edit matches Some(PairEdit::Upsert { location, mode: m, id: i }) && location@ == renamed && m == mode && i@ == id,
        Some(ResolveWith::Ours) => if outer_side == ConflictMapping::Swapped {
            edit matches Some(PairEdit::Upsert { location, mode: m, id: i }) && location@ == theirs.spec_location() && m == mode
                && i@ == id
        } else {
            edit is None
        },
        Some(ResolveWith::Ancestor) => edit is None,
    }
    &&& conflict.resolution matches Err(
        ResolutionFailure::OursDirectoryTheirsNonDirectoryTheirsRenamed { renamed_unique_path_of_theirs },
    ) && renamed_unique_path_of_theirs@ == renamed
    &&& conflict.side == ConflictMapping::Original && conflict.entries[0] is None && conflict.entries[1] is None
    &&& renamed_entry_is(conflict.entries[2], EntryMode { value: mode_of(kind_of(mode.value)) }, id)
}

/// The id a change leaves, for deletions the one it removed.
fn id_of_change(change: &Change) -> (r: &ObjectId)
    ensures
        r@ == change_id(*change),
{
    match change {
        Change::Addition { id, .. } => id,
        Change::Deletion { id, .. } => id,
        Change::Modification { id, .. } => id,
        Change::Rewrite { id, .. } => id,
    }
}

/// Resolve the non-tree change `theirs` blocked by a directory of ours, moved to `renamed`, as
/// [`blocked_by_directory`] says.
pub fn resolve_blocked_by_directory(
    theirs: &Change,
    renamed: Vec<u8>,
    tree_conflicts: Option<ResolveWith>,
    outer_side: ConflictMapping,
) -> (r: (Option<PairEdit>, PairConflict))
    ensures
        blocked_by_directory(r.0, r.1, *theirs, renamed@, tree_conflicts, outer_side),
{
    let mode = theirs.entry_mode();
    let id = id_of_change(theirs);
    let edit = match tree_conflicts {
        None => Some(PairEdit::Upsert { location: renamed.clone(), mode, id: id.copied() }),
        Some(ResolveWith::Ours) => match outer_side {
            ConflictMapping::Swapped => {
                let at = theirs.location();
                let location = copy_range(at, 0, at.len());
                assert(location@ =~= at@);
                Some(PairEdit::Upsert { location, mode, id: id.copied() })
            },
            ConflictMapping::Original => None,
        },
        Some(ResolveWith::Ancestor) => None,
    };
    let entries = [
        None,
        None,
        Some(
            ConflictIndexEntry {
                mode: EntryMode::from_kind(mode.kind()),
                id: id.copied(),
                path_hint: Some(ConflictIndexEntryPathHint::RenamedOrTheirs),
            },
        ),
    ];
    let conflict = PairConflict {
        resolution: Err(ResolutionFailure::OursDirectoryTheirsNonDirectoryTheirsRenamed { renamed_unique_path_of_theirs: renamed }),
        side: ConflictMapping::Original,
        entries,
    };
    (edit, conflict)
}

// ---------------------------------------------------------------------------------------------
// A leaf of ours blocking a directory of theirs.

/// A decision on a pair taken in several steps: the edits of the merged tree in order, the
/// locations to stop tracking with the side whose tree tracks each (ours where `Original`), what
/// became of our and their change, the conflict to record, if any, and whether their change is
/// deferred as it is, to be retried once our change is settled.
#[derive(Debug)]
pub struct PairSteps {
    pub edits: Vec<PairEdit>,
    pub untrack: Vec<(Vec<u8>, ConflictMapping)>,
    pub ours: ChangeDisposition,
    pub theirs: ChangeDisposition,
    pub conflict: Option<PairConflict>,
    pub defer_theirs: bool,
}

/// How a leaf of ours that blocks a directory of theirs is resolved: decided, or by moving the
/// blocking entry of ours at `location` to a unique path in our tree, qualified by our label
/// (see [`finish_blocking_relocation`]).
#[derive(Debug)]
pub enum BlockingLeaf {
    Decided(PairSteps),
    Relocate { location: Vec<u8> },
}

/// `true` if `d` only defers their change, or, without `defer`, does nothing at all.
pub open spec fn only_defers(d: PairSteps, defer: bool) -> bool {
    &&& d.edits@.len() == 0 && d.untrack@.len() == 0 && d.conflict is None
    &&& d.ours == ChangeDisposition::Processed && d.theirs == ChangeDisposition::Processed
    &&& d.defer_theirs == defer
}

/// `true` if `r` is how a leaf change `ours` blocking the directory that the addition or rename
/// `theirs` belongs to is resolved, where `ours_state` is our change's state, `needs_tree_insertion` and
/// `relocated` tell if their change was deferred and carries a location past a renamed directory,
/// and `tree_conflicts` is how tree conflicts are forced; `None` for other pairs.
///
/// - Our deletion: their addition waits for it, unless our deletion was handled without being
///   applied, when nothing is done.
/// - Our rename, their addition related to a directory change, not deferred, tree conflicts not
///   kept at the ancestor: their addition waits.
/// - Our rename, their addition relocated past a renamed directory: both are applied.
/// - Otherwise our rename, or our addition: the blocking entry of ours moves to a unique path.
/// - Our rename against their rename from another source: the blocking rename of ours moves to a
///   unique path.
pub open spec fn blocking_leaf(
    ours: Change,
    theirs: Change,
    ours_state: ChangeState,
    needs_tree_insertion: Option<Option<usize>>,
    relocated: bool,
    tree_conflicts: Option<ResolveWith>,
    r: Option<BlockingLeaf>,
) -> bool {
    match (ours, theirs) {
        (Change::Deletion { .. }, Change::Addition { .. }) => r matches Some(BlockingLeaf::Decided(d)) && only_defers(
            d,
            ours_state != ChangeState::Processed,
        ),
        (Change::Rewrite { location, .. }, Change::Addition { relation, .. }) => if relation is Some && needs_tree_insertion is None
            && tree_conflicts != Some(ResolveWith::Ancestor) {
            r matches Some(BlockingLeaf::Decided(d)) && only_defers(d, true)
        } else if relocated {
            r matches Some(BlockingLeaf::Decided(d)) && d.edits@ == seq![PairEdit::ApplyOurs, PairEdit::ApplyTheirs]
                && d.untrack@.len() == 0 && d.ours == ChangeDisposition::Applied && d.theirs == ChangeDisposition::Applied
                && d.conflict is None && !d.defer_theirs
        } else {
            r matches Some(BlockingLeaf::Relocate { location: l }) && l@ == location@
        },
        (Change::Addition { location, .. }, Change::Addition { .. }) => r matches Some(BlockingLeaf::Relocate { location: l })
            && l@ == location@,
        (Change::Rewrite { source_location: our_source, location, .. }, Change::Rewrite { source_location: their_source, .. }) => if our_source@
            != their_source@ {
            r matches Some(BlockingLeaf::Relocate { location: l }) && l@ == location@
        } else {
            r is None
        },
        _ => r is None,
    }
}

fn deferring(defer: bool) -> (r: PairSteps)
    ensures
        only_defers(r, defer),
{
    PairSteps {
        edits: Vec::new(),
        untrack: Vec::new(),
        ours: ChangeDisposition::Processed,
        theirs: ChangeDisposition::Processed,
        conflict: None,
        defer_theirs: defer,
    }
}

/// Decide how a leaf change `ours` blocks the directory of their change `theirs`, where the pair
/// was matched as a leaf of ours erased by a tree of theirs, as [`blocking_leaf`] says.
pub fn plan_blocking_leaf(
    ours: &Change,
    theirs: &TrackedChange,
    ours_state: ChangeState,
    tree_conflicts: Option<ResolveWith>,
) -> (r: Option<BlockingLeaf>)
    ensures
        blocking_leaf(
            *ours,
            theirs.inner,
            ours_state,
            theirs.needs_tree_insertion,
            theirs.rewritten_location is Some,
            tree_conflicts,
            r,
        ),
{
    match (ours, &theirs.inner) {
        (Change::Deletion { .. }, Change::Addition { .. }) => Some(
            BlockingLeaf::Decided(
                deferring(
                    match ours_state {
                        ChangeState::Processed => false,
                        _ => true,
                    },
                ),
            ),
        ),
        (Change::Rewrite { location, .. }, Change::Addition { relation, .. }) => {
            let keeps_ancestor = match tree_conflicts {
                Some(ResolveWith::Ancestor) => true,
                _ => false,
            };
            if relation.is_some() && theirs.needs_tree_insertion.is_none() && !keeps_ancestor {
                Some(BlockingLeaf::Decided(deferring(true)))
            } else if theirs.rewritten_location.is_some() {
                let mut edits: Vec<PairEdit> = Vec::new();
                edits.push(PairEdit::ApplyOurs);
                edits.push(PairEdit::ApplyTheirs);
                assert(edits@ =~= seq![PairEdit::ApplyOurs, PairEdit::ApplyTheirs]);
                Some(
                    BlockingLeaf::Decided(
                        PairSteps {
                            edits,
                            untrack: Vec::new(),
                            ours: ChangeDisposition::Applied,
                            theirs: ChangeDisposition::Applied,
                            conflict: None,
                            defer_theirs: false,
                        },
                    ),
                )
            } else {
                Some(BlockingLeaf::Relocate { location: location.clone() })
            }
        },
        (Change::Addition { location, .. }, Change::Addition { .. }) => Some(BlockingLeaf::Relocate { location: location.clone() }),
        (Change::Rewrite { source_location: our_source, location, .. }, Change::Rewrite { source_location: their_source, .. }) => {
            if slice_eq(our_source.as_slice(), their_source.as_slice()) {
                None
            } else {
                Some(BlockingLeaf::Relocate { location: location.clone() })
            }
        },
        _ => None,
    }
}

/// `true` if `edit` removes the entry at `location`.
pub open spec fn removes(edit: PairEdit, location: Seq<u8>) -> bool {
    edit matches PairEdit::Remove { location: l } && l@ == location
}

/// `true` if `resolution` failed as a non-directory moved to `renamed` to make room for a directory.
pub open spec fn blocked_failure(resolution: Result<Resolution, ResolutionFailure>, renamed: Seq<u8>) -> bool {
    resolution matches Err(ResolutionFailure::OursDirectoryTheirsNonDirectoryTheirsRenamed { renamed_unique_path_of_theirs })
        && renamed_unique_path_of_theirs@ == renamed
}

/// `true` if `d` moves the blocking entry of ours, the rename from `source` (if our change is a
/// rename) to, or the addition at, `location` of `mode` and `id`, to `renamed`: without forced
/// resolution the blocking entry (and a rename's source) is removed, put at the renamed path and
/// no longer tracked in our tree, and their change is applied, both counting as applied; forced to
/// ours, the change of the side the merge calls ours is applied, where that is theirs after
/// removing the blocking addition and no longer tracking it; forced to the ancestor, nothing is
/// done. The conflict is recorded with the sides swapped and the blocking entry at the renamed
/// path.
pub open spec fn blocking_relocated(
    d: PairSteps,
    source: Option<Seq<u8>>,
    location: Seq<u8>,
    mode: EntryMode,
    id: Seq<u8>,
    renamed: Seq<u8>,
    tree_conflicts: Option<ResolveWith>,
    outer_side: ConflictMapping,
) -> bool {
    let removals = match source {
        Some(s) => seq![s, location],
        None => seq![location],
    };
    let n = removals.len() as int;
    &&& !d.defer_theirs
    &&& d.conflict matches Some(c) && c.side == ConflictMapping::Swapped && blocked_failure(c.resolution, renamed)
        && c.entries[0] is None && c.entries[1] is None && renamed_entry_is(c.entries[2], mode, id)
    &&& match tree_conflicts {
        None => {
            &&& d.edits@.len() == n + 2
            &&& forall|k: int| 0 <= k < n ==> removes(#[trigger] d.edits@[k], removals[k])
            &&& d.edits@[n] matches PairEdit::Upsert { location: l, mode: m, id: i } && l@ == renamed && m == mode && i@ == id
            &&& d.edits@[n + 1] == PairEdit::ApplyTheirs
            &&& d.untrack@.len() == 1 && d.untrack@[0].0@ == location && d.untrack@[0].1 == ConflictMapping::Original
            &&& d.ours == ChangeDisposition::Applied && d.theirs == ChangeDisposition::Applied
        },
        Some(ResolveWith::Ours) => if outer_side == ConflictMapping::Original {
            d.edits@ == seq![PairEdit::ApplyOurs] && d.untrack@.len() == 0 && d.ours == ChangeDisposition::Applied && d.theirs
                == ChangeDisposition::Processed
        } else if source is None {
            &&& d.edits@.len() == 2
            &&& d.edits@[0] matches PairEdit::Remove { location: l } && l@ == location
            &&& d.edits@[1] == PairEdit::ApplyTheirs
            &&& d.untrack@.len() == 1 && d.untrack@[0].0@ == location && d.untrack@[0].1 == ConflictMapping::Original
            &&& d.ours == ChangeDisposition::Processed && d.theirs == ChangeDisposition::Applied
        } else {
            d.edits@ == seq![PairEdit::ApplyTheirs] && d.untrack@.len() == 0 && d.ours == ChangeDisposition::Processed && d.theirs
                == ChangeDisposition::Applied
        },
        Some(ResolveWith::Ancestor) => d.edits@.len() == 0 && d.untrack@.len() == 0 && d.ours == ChangeDisposition::Processed
            && d.theirs == ChangeDisposition::Processed,
    }
}

/// `true` if `d` moves the blocking entry of `ours` as [`blocking_relocated`] says.
pub open spec fn blocking_relocation_of(
    d: PairSteps,
    ours: Change,
    renamed: Seq<u8>,
    tree_conflicts: Option<ResolveWith>,
    outer_side: ConflictMapping,
) -> bool {
    match ours {
        Change::Rewrite { source_location, location, entry_mode, id, .. } => blocking_relocated(
            d,
            Some(source_location@),
            location@,
            entry_mode,
            id@,
            renamed,
            tree_conflicts,
            outer_side,
        ),
        Change::Addition { location, entry_mode, id, .. } => blocking_relocated(
            d,
            None,
            location@,
            entry_mode,
            id@,
            renamed,
            tree_conflicts,
            outer_side,
        ),
        _ => false,
    }
}

/// Move the blocking entry of `ours`, a rename or an addition, to `renamed`, as
/// [`blocking_relocated`] says.
pub fn finish_blocking_relocation(
    ours: &Change,
    renamed: Vec<u8>,
    tree_conflicts: Option<ResolveWith>,
    outer_side: ConflictMapping,
) -> (r: PairSteps)
    requires
        ours is Rewrite || ours is Addition,
    ensures
        blocking_relocation_of(r, *ours, renamed@, tree_conflicts, outer_side),
{
    let (source, location, mode, id) = match ours {
        Change::Rewrite { source_location, location, entry_mode, id, .. } => (Some(source_location), location, *entry_mode, id),
        Change::Addition { location, entry_mode, id, .. } => (None, location, *entry_mode, id),
        _ => {
            proof {
                assert(false);
            }
            return deferring(false);
        },
    };
    let entries = [
        None,
        None,
        Some(ConflictIndexEntry { mode, id: id.copied(), path_hint: Some(ConflictIndexEntryPathHint::RenamedOrTheirs) }),
    ];
    let conflict = PairConflict {
        resolution: Err(ResolutionFailure::OursDirectoryTheirsNonDirectoryTheirsRenamed { renamed_unique_path_of_theirs: renamed.clone() }),
        side: ConflictMapping::Swapped,
        entries,
    };
    let mut edits: Vec<PairEdit> = Vec::new();
    let mut untrack: Vec<(Vec<u8>, ConflictMapping)> = Vec::new();
    let (ours_d, theirs_d) = match tree_conflicts {
        None => {
            if let Some(s) = source {
                edits.push(PairEdit::Remove { location: s.clone() });
            }
            edits.push(PairEdit::Remove { location: location.clone() });
            edits.push(PairEdit::Upsert { location: renamed, mode, id: id.copied() });
            edits.push(PairEdit::ApplyTheirs);
            untrack.push((location.clone(), ConflictMapping::Original));
            (ChangeDisposition::Applied, ChangeDisposition::Applied)
        },
        Some(ResolveWith::Ours) => match outer_side {
            ConflictMapping::Original => {
                edits.push(PairEdit::ApplyOurs);
                assert(edits@ =~= seq![PairEdit::ApplyOurs]);
                (ChangeDisposition::Applied, ChangeDisposition::Processed)
            },
            ConflictMapping::Swapped => {
                if source.is_none() {
                    edits.push(PairEdit::Remove { location: location.clone() });
                    untrack.push((location.clone(), ConflictMapping::Original));
                }
                edits.push(PairEdit::ApplyTheirs);
                assert(source is Some ==> edits@ =~= seq![PairEdit::ApplyTheirs]);
                (ChangeDisposition::Processed, ChangeDisposition::Applied)
            },
        },
        Some(ResolveWith::Ancestor) => (ChangeDisposition::Processed, ChangeDisposition::Processed),
    };
    PairSteps { edits, untrack, ours: ours_d, theirs: theirs_d, conflict: Some(conflict), defer_theirs: false }
}

// ---------------------------------------------------------------------------------------------
// Additions against modifications and renames.

/// `true` if `path` lies below the directory `dir`: it starts with `dir` and a slash.
pub open spec fn below_dir(path: Seq<u8>, dir: Seq<u8>) -> bool {
    path.len() > dir.len() && path.subrange(0, dir.len() as int) == dir && path[dir.len() as int] == 47u8
}

/// `true` if `path` lies below the directory `dir`.
fn is_below_dir(path: &[u8], dir: &[u8]) -> (r: bool)
    ensures
        r == below_dir(path@, dir@),
{
    if path.len() <= dir.len() {
        return false;
    }
    let mut i: usize = 0;
    while i < dir.len()
        invariant
            i <= dir@.len() < path@.len(),
            forall|j: int| 0 <= j < i ==> path@[j] == dir@[j],
        decreases dir.len() - i,
    {
        if path[i] != dir[i] {
            return false;
        }
        i += 1;
    }
    assert(path@.subrange(0, dir@.len() as int) =~= dir@);
    path[dir.len()] == 47u8
}

/// `true` if `d` resolves a rename from `source` to `location` (of `r_mode` and `r_id`) against an
/// addition at `added` below `source` (of `a_mode` and `a_id`), where `side` is `Original` if our
/// change is the rename: both coexist. Without forced resolution the source is removed and no
/// longer tracked in the renaming side's tree, and both entries are put in place, both counting as
/// applied; forced to ours, the source is removed and the entry of the side the merge calls ours
/// is put in place, that change counting as applied; forced to the ancestor, nothing is done. No
/// conflict is recorded.
pub open spec fn renamed_away(
    d: PairSteps,
    source: Seq<u8>,
    location: Seq<u8>,
    r_mode: EntryMode,
    r_id: Seq<u8>,
    added: Seq<u8>,
    a_mode: EntryMode,
    a_id: Seq<u8>,
    side: ConflictMapping,
    tree_conflicts: Option<ResolveWith>,
    outer_side: ConflictMapping,
) -> bool {
    let global = if outer_side == ConflictMapping::Original {
        side
    } else {
        side.spec_swapped()
    };
    let rename_owner = if side == ConflictMapping::Original {
        (ChangeDisposition::Applied, ChangeDisposition::Processed)
    } else {
        (ChangeDisposition::Processed, ChangeDisposition::Applied)
    };
    let addition_owner = (rename_owner.1, rename_owner.0);
    &&& d.conflict is None && !d.defer_theirs
    &&& match tree_conflicts {
        None => {
            &&& d.edits@.len() == 3 && removes(d.edits@[0], source)
            &&& upserts_at(d.edits@[1], location, r_mode, r_id) && upserts_at(d.edits@[2], added, a_mode, a_id)
            &&& d.untrack@.len() == 1 && d.untrack@[0].0@ == source && d.untrack@[0].1 == side
            &&& d.ours == ChangeDisposition::Applied && d.theirs == ChangeDisposition::Applied
        },
        Some(ResolveWith::Ours) => {
            &&& d.edits@.len() == 2 && removes(d.edits@[0], source) && d.untrack@.len() == 0
            &&& if global == ConflictMapping::Original {
                upserts_at(d.edits@[1], location, r_mode, r_id) && (d.ours, d.theirs) == rename_owner
            } else {
                upserts_at(d.edits@[1], added, a_mode, a_id) && (d.ours, d.theirs) == addition_owner
            }
        },
        Some(ResolveWith::Ancestor) => d.edits@.len() == 0 && d.untrack@.len() == 0 && d.ours == ChangeDisposition::Processed
            && d.theirs == ChangeDisposition::Processed,
    }
}

/// `true` if `edit` puts an entry of `mode` and `id` at `location`.
pub open spec fn upserts_at(edit: PairEdit, location: Seq<u8>, mode: EntryMode, id: Seq<u8>) -> bool {
    edit matches PairEdit::Upsert { location: l, mode: m, id: i } && l@ == location && m == mode && i@ == id
}

/// `true` if `r` is how an addition meets a modification or a rename, for the pairs decided here,
/// where `erase_leaf` tells if the pair was matched as a leaf of ours erased by a tree of theirs:
///
/// - Our modification, their addition elsewhere (below it): their addition waits without forced
///   resolution; forced to ours, it is put in place where the merge calls theirs ours; forced to
///   the ancestor, nothing is done.
/// - A rename from a source below which the other side adds an entry (unless ours is the rename
///   and the pair is a blocking leaf): both coexist, as [`renamed_away`] says.
///
/// `None` for other pairs.
pub open spec fn addition_decided(
    ours: Change,
    theirs: Change,
    erase_leaf: bool,
    tree_conflicts: Option<ResolveWith>,
    outer_side: ConflictMapping,
    r: Option<PairSteps>,
) -> bool {
    match (ours, theirs) {
        (Change::Modification { location: ours_at, .. }, Change::Addition { location, entry_mode, id, .. }) => if ours_at@
            != location@ {
            r matches Some(d) && d.conflict is None && d.untrack@.len() == 0 && d.ours == ChangeDisposition::Processed
                && d.theirs == ChangeDisposition::Processed && d.defer_theirs == (tree_conflicts is None) && if tree_conflicts
                == Some(ResolveWith::Ours) && outer_side == ConflictMapping::Swapped {
                d.edits@.len() == 1 && upserts_at(d.edits@[0], location@, entry_mode, id@)
            } else {
                d.edits@.len() == 0
            }
        } else {
            r is None
        },
        (
            Change::Rewrite { source_location, location, entry_mode: r_mode, id: r_id, .. },
            Change::Addition { location: added, entry_mode: a_mode, id: a_id, .. },
        ) => if !erase_leaf && below_dir(added@, source_location@) {
            r matches Some(d) && renamed_away(
                d,
                source_location@,
                location@,
                r_mode,
                r_id@,
                added@,
                a_mode,
                a_id@,
                ConflictMapping::Original,
                tree_conflicts,
                outer_side,
            )
        } else {
            r is None
        },
        (
            Change::Addition { location: added, entry_mode: a_mode, id: a_id, .. },
            Change::Rewrite { source_location, location, entry_mode: r_mode, id: r_id, .. },
        ) => if below_dir(added@, source_location@) {
            r matches Some(d) && renamed_away(
                d,
                source_location@,
                location@,
                r_mode,
                r_id@,
                added@,
                a_mode,
                a_id@,
                ConflictMapping::Swapped,
                tree_conflicts,
                outer_side,
            )
        } else {
            r is None
        },
        _ => r is None,
    }
}

fn upsert_edit(location: &Vec<u8>, mode: EntryMode, id: &ObjectId) -> (r: PairEdit)
    ensures
        upserts_at(r, location@, mode, id@),
{
    PairEdit::Upsert { location: location.clone(), mode, id: id.copied() }
}

/// Resolve a rename against an addition below its source, as [`renamed_away`] says.
fn resolve_renamed_away(rewrite: &Change, addition: &Change, side: ConflictMapping, tree_conflicts: Option<ResolveWith>, outer_side: ConflictMapping) -> (r: PairSteps)
    requires
        rewrite is Rewrite,
        addition is Addition,
    ensures
        match (*rewrite, *addition) {
            (
                Change::Rewrite { source_location, location, entry_mode: r_mode, id: r_id, .. },
                Change::Addition { location: added, entry_mode: a_mode, id: a_id, .. },
            ) => renamed_away(r, source_location@, location@, r_mode, r_id@, added@, a_mode, a_id@, side, tree_conflicts, outer_side),
            _ => false,
        },
{
    match (rewrite, addition) {
        (
            Change::Rewrite { source_location, location, entry_mode: r_mode, id: r_id, .. },
            Change::Addition { location: added, entry_mode: a_mode, id: a_id, .. },
        ) => {
            let mut edits: Vec<PairEdit> = Vec::new();
            let mut untrack: Vec<(Vec<u8>, ConflictMapping)> = Vec::new();
            let rename_owner = match side {
                ConflictMapping::Original => (ChangeDisposition::Applied, ChangeDisposition::Processed),
                ConflictMapping::Swapped => (ChangeDisposition::Processed, ChangeDisposition::Applied),
            };
            let (o, t) = match tree_conflicts {
                None => {
                    edits.push(PairEdit::Remove { location: source_location.clone() });
                    edits.push(upsert_edit(location, *r_mode, r_id));
                    edits.push(upsert_edit(added, *a_mode, a_id));
                    untrack.push((source_location.clone(), side));
                    (ChangeDisposition::Applied, ChangeDisposition::Applied)
                },
                Some(ResolveWith::Ours) => {
                    edits.push(PairEdit::Remove { location: source_location.clone() });
                    if side.to_global(outer_side) == ConflictMapping::Original {
                        edits.push(upsert_edit(location, *r_mode, r_id));
                        rename_owner
                    } else {
                        edits.push(upsert_edit(added, *a_mode, a_id));
                        (rename_owner.1, rename_owner.0)
                    }
                },
                Some(ResolveWith::Ancestor) => (ChangeDisposition::Processed, ChangeDisposition::Processed),
            };
            PairSteps { edits, untrack, ours: o, theirs: t, conflict: None, defer_theirs: false }
        },
        _ => {
            proof {
                assert(false);
            }
            PairSteps {
                edits: Vec::new(),
                untrack: Vec::new(),
                ours: ChangeDisposition::Processed,
                theirs: ChangeDisposition::Processed,
                conflict: None,
                defer_theirs: false,
            }
        },
    }
}

/// Resolve an addition against a modification or a rename where [`addition_decided`] decides it.
pub fn resolve_addition_pair(
    ours: &Change,
    theirs: &Change,
    erase_leaf: bool,
    tree_conflicts: Option<ResolveWith>,
    outer_side: ConflictMapping,
) -> (r: Option<PairSteps>)
    ensures
        addition_decided(*ours, *theirs, erase_leaf, tree_conflicts, outer_side, r),
{
    match (ours, theirs) {
        (Change::Modification { location: ours_at, .. }, Change::Addition { location, entry_mode, id, .. }) => {
            if slice_eq(ours_at.as_slice(), location.as_slice()) {
                return None;
            }
            let mut edits: Vec<PairEdit> = Vec::new();
            let defer = tree_conflicts.is_none();
            match (tree_conflicts, outer_side) {
                (Some(ResolveWith::Ours), ConflictMapping::Swapped) => edits.push(upsert_edit(location, *entry_mode, id)),
                _ => {},
            }
            Some(
                PairSteps {
                    edits,
                    untrack: Vec::new(),
                    ours: ChangeDisposition::Processed,
                    theirs: ChangeDisposition::Processed,
                    conflict: None,
                    defer_theirs: defer,
                },
            )
        },
        (Change::Rewrite { source_location, .. }, Change::Addition { location: added, .. }) => {
            if erase_leaf || !is_below_dir(added.as_slice(), source_location.as_slice()) {
                return None;
            }
            Some(resolve_renamed_away(ours, theirs, ConflictMapping::Original, tree_conflicts, outer_side))
        },
        (Change::Addition { location: added, .. }, Change::Rewrite { source_location, .. }) => {
            if !is_below_dir(added.as_slice(), source_location.as_slice()) {
                return None;
            }
            Some(resolve_renamed_away(theirs, ours, ConflictMapping::Swapped, tree_conflicts, outer_side))
        },
        _ => None,
    }
}

// ---------------------------------------------------------------------------------------------
// The same entry renamed on both sides.

/// `true` for blobs, executable or not, and symbolic links.
pub open spec fn is_blob_or_link(mode: EntryMode) -> bool {
    kind_of(mode.value) == EntryKind::Blob || kind_of(mode.value) == EntryKind::BlobExecutable || kind_of(mode.value)
        == EntryKind::Link
}

/// `true` if the pair of `ours` and `theirs` are renames of mergeable entries (blobs and symbolic
/// links, or the same submodule commit) whose modes merge, and which no earlier rule takes: not
/// different sources renamed to one destination, and not different sources where the pair is a
/// blocking leaf (`erase_leaf`).
pub open spec fn renamed_on_both_sides(ours: Change, theirs: Change, erase_leaf: bool) -> bool {
    match (ours, theirs) {
        (
            Change::Rewrite { source_location: our_source, entry_mode: our_mode, id: our_id, location: our_location, .. },
            Change::Rewrite { source_location: their_source, entry_mode: their_mode, id: their_id, location: their_location, .. },
        ) => {
            &&& (is_blob_or_link(our_mode) && is_blob_or_link(their_mode)) || (is_commit_mode(our_mode) && is_commit_mode(their_mode)
                && our_id@ == their_id@)
            &&& merge_modes_spec(our_mode, their_mode) is Some
            &&& !(our_source@ != their_source@ && our_location@ == their_location@)
            &&& !(our_source@ != their_source@ && erase_leaf)
        },
        _ => false,
    }
}

/// How both renames are merged: `merged_mode` is the mode of the result; the source at
/// `source` is removed from the merged tree and from both tracking trees where `removes_source`;
/// the contents are merged (ours, theirs, base) unless both renames kept one id, with
/// `extra_markers` more conflict markers where the destinations differ.
#[derive(Debug)]
pub struct RenamePairPlan {
    pub merged_mode: EntryMode,
    pub source: Vec<u8>,
    pub removes_source: bool,
    pub content_merge: Option<(BlobInput, BlobInput, BlobInput)>,
    pub extra_markers: u8,
}

/// `true` if `plan` is how the renames `ours` and `theirs` are merged where tree conflicts are
/// forced to `tree_conflicts`: the source goes unless the ancestor is kept, and differing ids are
/// merged against the entry at the source.
pub open spec fn rename_pair_plan_of(plan: RenamePairPlan, ours: Change, theirs: Change, tree_conflicts: Option<ResolveWith>) -> bool {
    match (ours, theirs) {
        (
            Change::Rewrite { source_location, source_entry_mode, source_id, entry_mode: our_mode, id: our_id, location: our_location, .. },
            Change::Rewrite { entry_mode: their_mode, id: their_id, location: their_location, .. },
        ) => {
            &&& Some(plan.merged_mode) == merge_modes_spec(our_mode, their_mode)
            &&& plan.source@ == source_location@
            &&& plan.removes_source == (tree_conflicts != Some(ResolveWith::Ancestor))
            &&& plan.extra_markers == (if our_location@ != their_location@ {
                1u8
            } else {
                0u8
            })
            &&& if our_id@ == their_id@ {
                plan.content_merge is None
            } else {
                plan.content_merge matches Some((o, t, b)) && blob_is(o, our_location@, our_id@, our_mode) && blob_is(
                    t,
                    their_location@,
                    their_id@,
                    their_mode,
                ) && blob_is(b, source_location@, source_id@, source_entry_mode)
            }
        },
        _ => false,
    }
}

fn is_blob_or_link_exec(mode: EntryMode) -> (r: bool)
    ensures
        r == is_blob_or_link(mode),
{
    let kind = mode.kind();
    kind == EntryKind::Blob || kind == EntryKind::BlobExecutable || kind == EntryKind::Link
}

/// Begin to merge the renames `ours` and `theirs` of one entry, where [`renamed_on_both_sides`]
/// says the pair is one, with the plan [`rename_pair_plan_of`] gives; removing the source, the
/// content merge and the adjustment of both destinations for directory renames of the other side
/// are the caller's, in that order, and [`finish_renamed_on_both_sides`] resolves the pair.
pub fn plan_renamed_on_both_sides(ours: &Change, theirs: &Change, erase_leaf: bool, tree_conflicts: Option<ResolveWith>) -> (r: Option<
    RenamePairPlan,
>)
    ensures
        r is Some <==> renamed_on_both_sides(*ours, *theirs, erase_leaf),
        r matches Some(p) ==> rename_pair_plan_of(p, *ours, *theirs, tree_conflicts),
{
    match (ours, theirs) {
        (
            Change::Rewrite { source_location, source_entry_mode, source_id, entry_mode: our_mode, id: our_id, location: our_location, .. },
            Change::Rewrite { source_location: their_source, entry_mode: their_mode, id: their_id, location: their_location, .. },
        ) => {
            let same_id = slice_eq(our_id.bytes.as_slice(), their_id.bytes.as_slice());
            let mergeable = (is_blob_or_link_exec(*our_mode) && is_blob_or_link_exec(*their_mode)) || (our_mode.is_commit()
                && their_mode.is_commit() && same_id);
            let merged_mode = match merge_modes(*our_mode, *their_mode) {
                Some(m) => m,
                None => {
                    return None;
                },
            };
            let same_source = slice_eq(source_location.as_slice(), their_source.as_slice());
            let same_location = slice_eq(our_location.as_slice(), their_location.as_slice());
            if !mergeable || (!same_source && same_location) || (!same_source && erase_leaf) {
                return None;
            }
            let content_merge = if same_id {
                None
            } else {
                Some(
                    (
                        blob_input(our_location, our_id, *our_mode),
                        blob_input(their_location, their_id, *their_mode),
                        blob_input(source_location, source_id, *source_entry_mode),
                    ),
                )
            };
            let removes_source = match tree_conflicts {
                Some(ResolveWith::Ancestor) => false,
                _ => true,
            };
            Some(
                RenamePairPlan {
                    merged_mode,
                    source: source_location.clone(),
                    removes_source,
                    content_merge,
                    extra_markers: if same_location {
                        0
                    } else {
                        1
                    },
                },
            )
        },
        _ => None,
    }
}

/// An entry to be added at `location` with `mode` and `id`.
#[derive(Debug)]
pub struct Addition {
    pub location: Vec<u8>,
    pub mode: EntryMode,
    pub id: ObjectId,
}

/// How both renames were resolved: the conflicts to record in order, and the additions to defer:
/// one onto our changes (waiting for their change) and one onto theirs (waiting for ours).
#[derive(Debug)]
pub struct RenamePairDecision {
    pub conflicts: Vec<PairConflict>,
    pub our_addition: Option<Addition>,
    pub their_addition: Option<Addition>,
}

/// `true` if `a` adds an entry of `mode` and `id` at `location`.
pub open spec fn adds(a: Option<Addition>, location: Seq<u8>, mode: EntryMode, id: Seq<u8>) -> bool {
    a matches Some(x) && x.location@ == location && x.mode == mode && x.id@ == id
}

/// `true` if `entries` are those of a conflict between two renames of the entry of `source_mode`
/// and `source_id` into `merged_id`: the source at the source path, ours at the current path and
/// theirs at their path.
pub open spec fn rename_entries(
    entries: [Option<ConflictIndexEntry>; 3],
    source_mode: EntryMode,
    source_id: Seq<u8>,
    our_mode: EntryMode,
    their_mode: EntryMode,
    merged_id: Seq<u8>,
) -> bool {
    &&& hinted_entry_is(entries[0], source_mode, source_id, ConflictIndexEntryPathHint::Source)
    &&& hinted_entry_is(entries[1], our_mode, merged_id, ConflictIndexEntryPathHint::Current)
    &&& hinted_entry_is(entries[2], their_mode, merged_id, ConflictIndexEntryPathHint::RenamedOrTheirs)
}

/// `true` if `d` resolves the renames `ours` and `theirs` as `plan` says, where their destinations
/// ended up at `our_final` and `their_final` and the contents merged into `merged` if they were
/// merged. The result has the merged mode and the merged id (else the shared one). Where both
/// land at one place, one addition there is deferred onto their changes, and a content merge is
/// recorded; else a `OursRenamedTheirsRenamedDifferently` conflict carrying the content merge is
/// recorded and, without forced resolution, an addition is deferred at each destination onto
/// each side, forced to ours one at the destination of the side the merge calls ours onto our
/// changes, and forced to the ancestor none. All conflicts have the sides as stored.
pub open spec fn renamed_on_both_sides_resolved(
    d: RenamePairDecision,
    plan: RenamePairPlan,
    ours: Change,
    theirs: Change,
    our_final: Seq<u8>,
    their_final: Seq<u8>,
    merged: Option<(Seq<u8>, blob::Resolution)>,
    tree_conflicts: Option<ResolveWith>,
    outer_side: ConflictMapping,
) -> bool {
    match (ours, theirs) {
        (
            Change::Rewrite { source_entry_mode, source_id, entry_mode: our_mode, id: our_id, .. },
            Change::Rewrite { entry_mode: their_mode, .. },
        ) => {
            let merged_id = match merged {
                Some((id, _)) => id,
                None => our_id@,
            };
            let content = |c: PairConflict| c.side == ConflictMapping::Original && rename_entries(
                c.entries,
                source_entry_mode,
                source_id@,
                our_mode,
                their_mode,
                merged_id,
            );
            if our_final == their_final {
                &&& d.our_addition is None && adds(d.their_addition, our_final, plan.merged_mode, merged_id)
                &&& match merged {
                    Some((id, res)) => d.conflicts@.len() == 1 && content(d.conflicts@[0]) && merged_as(d.conflicts@[0].resolution, id, res),
                    None => d.conflicts@.len() == 0,
                }
            } else {
                &&& d.conflicts@.len() == 1 && content(d.conflicts@[0]) && differently(d.conflicts@[0].resolution, merged)
                &&& match tree_conflicts {
                    None => adds(d.our_addition, our_final, plan.merged_mode, merged_id) && adds(
                        d.their_addition,
                        their_final,
                        plan.merged_mode,
                        merged_id,
                    ),
                    Some(ResolveWith::Ancestor) => d.our_addition is None && d.their_addition is None,
                    Some(ResolveWith::Ours) => d.their_addition is None && adds(
                        d.our_addition,
                        if outer_side == ConflictMapping::Original {
                            our_final
                        } else {
                            their_final
                        },
                        plan.merged_mode,
                        merged_id,
                    ),
                }
            }
        },
        _ => false,
    }
}

/// `true` if `resolution` failed as renames to different destinations, carrying the content merge
/// `merged`, if any.
pub open spec fn differently(resolution: Result<Resolution, ResolutionFailure>, merged: Option<(Seq<u8>, blob::Resolution)>) -> bool {
    resolution matches Err(ResolutionFailure::OursRenamedTheirsRenamedDifferently { merged_blob }) && match (merged_blob, merged) {
        (Some(b), Some((id, r))) => b.merged_blob_id@ == id && b.resolution == r,
        (None, None) => true,
        _ => false,
    }
}

/// Resolve the renames `ours` and `theirs` as [`renamed_on_both_sides_resolved`] says.
pub fn finish_renamed_on_both_sides(
    plan: &RenamePairPlan,
    ours: &Change,
    theirs: &Change,
    our_final: Vec<u8>,
    their_final: Vec<u8>,
    merged: Option<(ObjectId, blob::Resolution)>,
    tree_conflicts: Option<ResolveWith>,
    outer_side: ConflictMapping,
) -> (r: RenamePairDecision)
    requires
        ours is Rewrite,
        theirs is Rewrite,
    ensures
        renamed_on_both_sides_resolved(
            r,
            *plan,
            *ours,
            *theirs,
            our_final@,
            their_final@,
            match merged {
                Some((id, res)) => Some((id@, res)),
                None => None,
            },
            tree_conflicts,
            outer_side,
        ),
{
    let (source_mode, source_id, our_mode, our_id, their_mode) = match (ours, theirs) {
        (
            Change::Rewrite { source_entry_mode, source_id, entry_mode: our_mode, id: our_id, .. },
            Change::Rewrite { entry_mode: their_mode, .. },
        ) => (*source_entry_mode, source_id, *our_mode, our_id, *their_mode),
        _ => {
            proof {
                assert(false);
            }
            return RenamePairDecision { conflicts: Vec::new(), our_addition: None, their_addition: None };
        },
    };
    let merged_id = match &merged {
        Some((id, _)) => id.copied(),
        None => our_id.copied(),
    };
    let entries = |id: &ObjectId| -> (e: [Option<ConflictIndexEntry>; 3])
        ensures
            rename_entries(e, source_mode, source_id@, our_mode, their_mode, id@),
        {
            [
                Some(ConflictIndexEntry { mode: source_mode, id: source_id.copied(), path_hint: Some(ConflictIndexEntryPathHint::Source) }),
                Some(ConflictIndexEntry { mode: our_mode, id: id.copied(), path_hint: Some(ConflictIndexEntryPathHint::Current) }),
                Some(ConflictIndexEntry { mode: their_mode, id: id.copied(), path_hint: Some(ConflictIndexEntryPathHint::RenamedOrTheirs) }),
            ]
        };
    let mut conflicts: Vec<PairConflict> = Vec::new();
    if slice_eq(our_final.as_slice(), their_final.as_slice()) {
        if let Some((id, res)) = merged {
            let e = entries(&merged_id);
            conflicts.push(
                PairConflict {
                    resolution: Ok(
                        Resolution::OursModifiedTheirsModifiedThenBlobContentMerge {
                            merged_blob: ContentMerge { merged_blob_id: id, resolution: res },
                        },
                    ),
                    side: ConflictMapping::Original,
                    entries: e,
                },
            );
        }
        let addition = Addition { location: our_final, mode: plan.merged_mode, id: merged_id };
        RenamePairDecision { conflicts, our_addition: None, their_addition: Some(addition) }
    } else {
        let merged_blob = match merged {
            Some((id, res)) => Some(ContentMerge { merged_blob_id: id, resolution: res }),
            None => None,
        };
        let e = entries(&merged_id);
        conflicts.push(
            PairConflict {
                resolution: Err(ResolutionFailure::OursRenamedTheirsRenamedDifferently { merged_blob }),
                side: ConflictMapping::Original,
                entries: e,
            },
        );
        let (our_addition, their_addition) = match tree_conflicts {
            None => (
                Some(Addition { location: our_final, mode: plan.merged_mode, id: merged_id.copied() }),
                Some(Addition { location: their_final, mode: plan.merged_mode, id: merged_id }),
            ),
            Some(ResolveWith::Ancestor) => (None, None),
            Some(ResolveWith::Ours) => {
                let location = match outer_side {
                    ConflictMapping::Original => our_final,
                    ConflictMapping::Swapped => their_final,
                };
                (Some(Addition { location, mode: plan.merged_mode, id: merged_id }), None)
            },
        };
        RenamePairDecision { conflicts, our_addition, their_addition }
    }
}

// ---------------------------------------------------------------------------------------------
// Different entries renamed to one destination.

/// `true` if `ours` and `theirs` rename entries from different sources to one destination, ours
/// being no tree.
pub open spec fn same_destination(ours: Change, theirs: Change) -> bool {
    match (ours, theirs) {
        (
            Change::Rewrite { source_location: our_source, entry_mode: our_mode, location: our_location, .. },
            Change::Rewrite { source_location: their_source, location: their_location, .. },
        ) => our_source@ != their_source@ && our_location@ == their_location@ && !is_tree_mode(our_mode),
        _ => false,
    }
}

/// How renames of different sources to one destination are resolved.
#[derive(Debug)]
pub enum SameDestination {
    /// Decided from the two changes.
    Decided(PairSteps),
    /// Both sources go and the blobs are merged, as the plan says (see
    /// [`finish_same_destination_merge`]).
    Merge(ContentMergePlan),
    /// Both sources go and one entry moves to a unique path (see
    /// [`finish_same_destination_mismatch`]): the plan's side is `Original` where ours is a
    /// symbolic link and stays, and the moving entry's path is found in the tree of its side.
    Relocate(TypeMismatchPlan),
}

/// `true` if `d` begins with removing both sources and no longer tracking each in its side's tree.
pub open spec fn removes_both_sources(d: PairSteps, our_source: Seq<u8>, their_source: Seq<u8>) -> bool {
    &&& d.edits@.len() >= 2 && removes(d.edits@[0], our_source) && removes(d.edits@[1], their_source)
    &&& d.untrack@.len() == 2 && d.untrack@[0].0@ == our_source && d.untrack@[0].1 == ConflictMapping::Original
    &&& d.untrack@[1].0@ == their_source && d.untrack@[1].1 == ConflictMapping::Swapped
}

/// `true` if `d` resolves renames of different sources to one destination where tree conflicts
/// are forced to `tree_conflicts`, as [`same_destination_resolved`] says.
pub open spec fn forced_same_destination(
    d: PairSteps,
    os: Seq<u8>,
    om: EntryMode,
    oid: Seq<u8>,
    ts: Seq<u8>,
    tm: EntryMode,
    tid: Seq<u8>,
    location: Seq<u8>,
    tree_conflicts: Option<ResolveWith>,
    outer_side: ConflictMapping,
) -> bool {
    &&& !d.defer_theirs && d.ours == ChangeDisposition::Processed && d.theirs == ChangeDisposition::Processed
    &&& d.conflict matches Some(c) && c.side == ConflictMapping::Original && c.resolution == Err::<Resolution, ResolutionFailure>(
        ResolutionFailure::OursRenamedTheirsRenamedToSameLocation,
    ) && c.entries[0] is None && entry_is(c.entries[1], om, oid) && entry_is(c.entries[2], tm, tid)
    &&& if tree_conflicts == Some(ResolveWith::Ours) {
        let (source, mode, id, side) = if outer_side == ConflictMapping::Original {
            (os, om, oid, ConflictMapping::Original)
        } else {
            (ts, tm, tid, ConflictMapping::Swapped)
        };
        d.edits@.len() == 2 && removes(d.edits@[0], source) && upserts_at(d.edits@[1], location, mode, id) && d.untrack@.len()
            == 1 && d.untrack@[0].0@ == source && d.untrack@[0].1 == side
    } else {
        d.edits@.len() == 0 && d.untrack@.len() == 0
    }
}

/// `true` if `r` is how the renames `ours` and `theirs` of different sources to one destination
/// are resolved, where [`same_destination`] holds: identical entries collapse into one, both
/// sources removed and both changes applied; other entries, none a submodule, conflict: without
/// forced resolution both sources go and their contents merge where their modes merge, else one
/// moves; forced to ours, the source of the side the merge calls ours is removed and its entry
/// put at the destination; forced to the ancestor, nothing is done; these record
/// `OursRenamedTheirsRenamedToSameLocation` with both entries. Submodules are left to other rules.
pub open spec fn same_destination_resolved(
    ours: Change,
    theirs: Change,
    tree_conflicts: Option<ResolveWith>,
    outer_side: ConflictMapping,
    r: Option<SameDestination>,
) -> bool {
    match (ours, theirs) {
        (
            Change::Rewrite { source_location: os, entry_mode: om, id: oid, location, .. },
            Change::Rewrite { source_location: ts, entry_mode: tm, id: tid, .. },
        ) => if om == tm && oid@ == tid@ {
            r matches Some(SameDestination::Decided(d)) && removes_both_sources(d, os@, ts@) && d.edits@.len() == 3
                && upserts_at(d.edits@[2], location@, om, oid@) && d.ours == ChangeDisposition::Applied && d.theirs
                == ChangeDisposition::Applied && d.conflict is None && !d.defer_theirs
        } else if is_commit_mode(om) || is_commit_mode(tm) {
            r is None
        } else if tree_conflicts is None {
            if merge_modes_spec(om, tm) is Some {
                r matches Some(SameDestination::Merge(p)) && p.location@ == location@ && Some(p.merged_mode)
                    == merge_modes_spec(om, tm) && p.our_mode == om && p.their_mode == tm && p.base_id@ == null_like(oid@)
                    && p.base_mode == p.merged_mode && p.side == outer_side
            } else {
                r matches Some(SameDestination::Relocate(p)) && p.location@ == location@ && p.side == (if kind_of(om.value)
                    == EntryKind::Link {
                    ConflictMapping::Original
                } else {
                    ConflictMapping::Swapped
                }) && p.moved_is_ours == (kind_of(om.value) != EntryKind::Link)
            }
        } else {
            r matches Some(SameDestination::Decided(d)) && forced_same_destination(d, os@, om, oid@, ts@, tm, tid@, location@, tree_conflicts, outer_side)
        },
        _ => false,
    }
}

fn remove_both_sources(our_source: &Vec<u8>, their_source: &Vec<u8>) -> (r: PairSteps)
    ensures
        r.edits@.len() == 2,
        removes_both_sources(r, our_source@, their_source@),
        r.ours == ChangeDisposition::Processed && r.theirs == ChangeDisposition::Processed && r.conflict is None
            && !r.defer_theirs,
{
    let mut edits: Vec<PairEdit> = Vec::new();
    edits.push(PairEdit::Remove { location: our_source.clone() });
    edits.push(PairEdit::Remove { location: their_source.clone() });
    let mut untrack: Vec<(Vec<u8>, ConflictMapping)> = Vec::new();
    untrack.push((our_source.clone(), ConflictMapping::Original));
    untrack.push((their_source.clone(), ConflictMapping::Swapped));
    PairSteps {
        edits,
        untrack,
        ours: ChangeDisposition::Processed,
        theirs: ChangeDisposition::Processed,
        conflict: None,
        defer_theirs: false,
    }
}

/// Resolve renames of different sources to one destination, as [`same_destination_resolved`]
/// says.
pub fn plan_same_destination(
    ours: &Change,
    theirs: &Change,
    tree_conflicts: Option<ResolveWith>,
    outer_side: ConflictMapping,
) -> (r: Option<SameDestination>)
    requires
        same_destination(*ours, *theirs),
    ensures
        same_destination_resolved(*ours, *theirs, tree_conflicts, outer_side, r),
{
    match (ours, theirs) {
        (
            Change::Rewrite { source_location: os, entry_mode: om, id: oid, location, .. },
            Change::Rewrite { source_location: ts, entry_mode: tm, id: tid, .. },
        ) => {
            if *om == *tm && slice_eq(oid.bytes.as_slice(), tid.bytes.as_slice()) {
                let mut d = remove_both_sources(os, ts);
                d.edits.push(upsert_edit(location, *om, oid));
                d.ours = ChangeDisposition::Applied;
                d.theirs = ChangeDisposition::Applied;
                return Some(SameDestination::Decided(d));
            }
            if om.is_commit() || tm.is_commit() {
                return None;
            }
            match tree_conflicts {
                None => match merge_modes(*om, *tm) {
                    Some(merged_mode) => Some(
                        SameDestination::Merge(
                            ContentMergePlan {
                                location: location.clone(),
                                merged_mode,
                                base_id: null_id(oid.kind()),
                                base_mode: merged_mode,
                                our_mode: *om,
                                their_mode: *tm,
                                side: outer_side,
                            },
                        ),
                    ),
                    None => {
                        let link = om.kind() == EntryKind::Link;
                        Some(
                            SameDestination::Relocate(
                                TypeMismatchPlan {
                                    location: location.clone(),
                                    side: if link {
                                        ConflictMapping::Original
                                    } else {
                                        ConflictMapping::Swapped
                                    },
                                    moved_is_ours: !link,
                                },
                            ),
                        )
                    },
                },
                Some(resolve) => {
                    let mut edits: Vec<PairEdit> = Vec::new();
                    let mut untrack: Vec<(Vec<u8>, ConflictMapping)> = Vec::new();
                    match (resolve, outer_side) {
                        (ResolveWith::Ours, ConflictMapping::Original) => {
                            edits.push(PairEdit::Remove { location: os.clone() });
                            edits.push(upsert_edit(location, *om, oid));
                            untrack.push((os.clone(), ConflictMapping::Original));
                        },
                        (ResolveWith::Ours, ConflictMapping::Swapped) => {
                            edits.push(PairEdit::Remove { location: ts.clone() });
                            edits.push(upsert_edit(location, *tm, tid));
                            untrack.push((ts.clone(), ConflictMapping::Swapped));
                        },
                        (ResolveWith::Ancestor, _) => {},
                    }
                    let entries = [None, index_entry(*om, oid), index_entry(*tm, tid)];
                    Some(
                        SameDestination::Decided(
                            PairSteps {
                                edits,
                                untrack,
                                ours: ChangeDisposition::Processed,
                                theirs: ChangeDisposition::Processed,
                                conflict: Some(
                                    PairConflict {
                                        resolution: Err(ResolutionFailure::OursRenamedTheirsRenamedToSameLocation),
                                        side: ConflictMapping::Original,
                                        entries,
                                    },
                                ),
                                defer_theirs: false,
                            },
                        ),
                    )
                },
            }
        },
        _ => None,
    }
}

/// `true` if `d` resolves renames of different sources to one destination whose contents merged
/// into `merged_id` with `resolution`, as `plan` says: both sources go, the merged blob is put at
/// the destination with the merged mode, and the content merge is recorded with our and their
/// entry.
pub open spec fn same_destination_merged(
    d: PairSteps,
    plan: ContentMergePlan,
    ours: Change,
    theirs: Change,
    merged_id: Seq<u8>,
    resolution: blob::Resolution,
) -> bool {
    match (ours, theirs) {
        (
            Change::Rewrite { source_location: os, entry_mode: om, id: oid, .. },
            Change::Rewrite { source_location: ts, entry_mode: tm, id: tid, .. },
        ) => {
            &&& removes_both_sources(d, os@, ts@) && d.edits@.len() == 3
            &&& upserts_at(d.edits@[2], plan.location@, plan.merged_mode, merged_id)
            &&& d.ours == ChangeDisposition::Processed && d.theirs == ChangeDisposition::Processed && !d.defer_theirs
            &&& d.conflict matches Some(c) && c.side == ConflictMapping::Original && merged_as(c.resolution, merged_id, resolution)
                && c.entries[0] is None && entry_is(c.entries[1], om, oid@) && entry_is(c.entries[2], tm, tid@)
        },
        _ => false,
    }
}

/// Resolve renames of different sources to one destination whose contents merged, as
/// [`same_destination_merged`] says.
pub fn finish_same_destination_merge(
    plan: &ContentMergePlan,
    ours: &Change,
    theirs: &Change,
    merged_id: ObjectId,
    resolution: blob::Resolution,
) -> (r: PairSteps)
    requires
        ours is Rewrite,
        theirs is Rewrite,
    ensures
        same_destination_merged(r, *plan, *ours, *theirs, merged_id@, resolution),
{
    match (ours, theirs) {
        (
            Change::Rewrite { source_location: os, entry_mode: om, id: oid, .. },
            Change::Rewrite { source_location: ts, entry_mode: tm, id: tid, .. },
        ) => {
            let mut d = remove_both_sources(os, ts);
            d.edits.push(upsert_edit(&plan.location, plan.merged_mode, &merged_id));
            let entries = [None, index_entry(*om, oid), index_entry(*tm, tid)];
            d.conflict = Some(
                PairConflict {
                    resolution: Ok(
                        Resolution::OursModifiedTheirsModifiedThenBlobContentMerge {
                            merged_blob: ContentMerge { merged_blob_id: merged_id, resolution },
                        },
                    ),
                    side: ConflictMapping::Original,
                    entries,
                },
            );
            d
        },
        _ => {
            proof {
                assert(false);
            }
            deferring(false)
        },
    }
}

/// `true` if `d` resolves renames of different sources to one destination of types that do not
/// merge, told apart by `plan`, where the moving entry got `renamed`: both sources go, the staying
/// entry is put at the destination and the moving one at the renamed path, and the conflict is
/// recorded with the plan's side, the staying entry at the current path and the moving one at the
/// renamed path.
pub open spec fn same_destination_relocated(d: PairSteps, plan: TypeMismatchPlan, ours: Change, theirs: Change, renamed: Seq<u8>) -> bool {
    match (ours, theirs) {
        (
            Change::Rewrite { source_location: os, entry_mode: om, id: oid, .. },
            Change::Rewrite { source_location: ts, entry_mode: tm, id: tid, .. },
        ) => {
            let (stay, moved) = if plan.side == ConflictMapping::Original {
                ((om, oid@), (tm, tid@))
            } else {
                ((tm, tid@), (om, oid@))
            };
            &&& removes_both_sources(d, os@, ts@) && d.edits@.len() == 4
            &&& upserts_at(d.edits@[2], plan.location@, stay.0, stay.1) && upserts_at(d.edits@[3], renamed, moved.0, moved.1)
            &&& d.ours == ChangeDisposition::Processed && d.theirs == ChangeDisposition::Processed && !d.defer_theirs
            &&& d.conflict matches Some(c) && c.side == plan.side && mismatch_failure(c.resolution, renamed) && c.entries[0] is None
                && hinted_entry_is(c.entries[1], stay.0, stay.1, ConflictIndexEntryPathHint::Current) && hinted_entry_is(
                c.entries[2],
                moved.0,
                moved.1,
                ConflictIndexEntryPathHint::RenamedOrTheirs,
            )
        },
        _ => false,
    }
}

/// Resolve renames of different sources to one destination of types that do not merge, as
/// [`same_destination_relocated`] says.
pub fn finish_same_destination_mismatch(plan: &TypeMismatchPlan, ours: &Change, theirs: &Change, renamed: Vec<u8>) -> (r: PairSteps)
    requires
        ours is Rewrite,
        theirs is Rewrite,
    ensures
        same_destination_relocated(r, *plan, *ours, *theirs, renamed@),
{
    match (ours, theirs) {
        (
            Change::Rewrite { source_location: os, entry_mode: om, id: oid, .. },
            Change::Rewrite { source_location: ts, entry_mode: tm, id: tid, .. },
        ) => {
            let ((sm, sid), (mm, mid)) = match plan.side {
                ConflictMapping::Original => ((*om, oid), (*tm, tid)),
                ConflictMapping::Swapped => ((*tm, tid), (*om, oid)),
            };
            let mut d = remove_both_sources(os, ts);
            d.edits.push(upsert_edit(&plan.location, sm, sid));
            d.edits.push(upsert_edit(&renamed, mm, mid));
            let entries = [
                None,
                Some(ConflictIndexEntry { mode: sm, id: sid.copied(), path_hint: Some(ConflictIndexEntryPathHint::Current) }),
                Some(ConflictIndexEntry { mode: mm, id: mid.copied(), path_hint: Some(ConflictIndexEntryPathHint::RenamedOrTheirs) }),
            ];
            d.conflict = Some(
                PairConflict {
                    resolution: Err(ResolutionFailure::OursAddedTheirsAddedTypeMismatch { their_unique_location: renamed }),
                    side: plan.side,
                    entries,
                },
            );
            d
        },
        _ => {
            proof {
                assert(false);
            }
            deferring(false)
        },
    }
}

/// `true` if `ours` and `theirs` rename entries from different sources to one destination, ours
/// being no tree: the pair that [`plan_same_destination`] takes.
pub fn renames_to_same_destination(ours: &Change, theirs: &Change) -> (r: bool)
    ensures
        r == same_destination(*ours, *theirs),
{
    match (ours, theirs) {
        (
            Change::Rewrite { source_location: os, entry_mode: om, location: ol, .. },
            Change::Rewrite { source_location: ts, location: tl, .. },
        ) => !slice_eq(os.as_slice(), ts.as_slice()) && slice_eq(ol.as_slice(), tl.as_slice()) && !om.is_tree(),
        _ => false,
    }
}

// ---------------------------------------------------------------------------------------------
// A directory of ours renamed where theirs renames a file.

/// How a directory renamed by ours meets a rename of theirs.
#[derive(Debug)]
pub enum RenamedTree {
    /// Decided from the two changes.
    Decided(PairSteps),
    /// Their renamed entry at `location`, where our directory went, moves to a unique path in our
    /// tree, qualified by their label (see [`finish_renamed_tree_clash`]).
    Relocate { location: Vec<u8> },
}

/// `true` if `d` applies the change of the side the merge calls ours, that change counting as
/// applied.
pub open spec fn applies_our_resolution(d: PairSteps, outer_side: ConflictMapping) -> bool {
    d.edits@ == seq![PairEdit::ApplyOurResolution] && (d.ours, d.theirs) == our_resolution_applied(outer_side)
}

/// `true` if `r` is how our rename of a directory meets their rename: where their rename lands
/// where our directory went, their entry moves to a unique path; where it lands at the source our
/// directory vacated and the pair was matched as our tree erased by their leaf (`erase_tree`), it
/// is accepted there: applied without forced resolution, the change of the side the merge calls
/// ours applied where forced to ours, nothing where forced to the ancestor, with no conflict.
/// `None` for other pairs.
pub open spec fn renamed_tree(
    ours: Change,
    theirs: Change,
    erase_tree: bool,
    tree_conflicts: Option<ResolveWith>,
    outer_side: ConflictMapping,
    r: Option<RenamedTree>,
) -> bool {
    match (ours, theirs) {
        (
            Change::Rewrite { source_location: our_source, entry_mode: tree_mode, location: tree_location, .. },
            Change::Rewrite { location, .. },
        ) => if is_tree_mode(tree_mode) && tree_location@ == location@ {
            r matches Some(RenamedTree::Relocate { location: l }) && l@ == location@
        } else if is_tree_mode(tree_mode) && location@ == our_source@ && erase_tree {
            r matches Some(RenamedTree::Decided(d)) && d.untrack@.len() == 0 && d.conflict is None && !d.defer_theirs && match tree_conflicts {
                None => d.edits@ == seq![PairEdit::ApplyTheirs] && d.ours == ChangeDisposition::Processed && d.theirs
                    == ChangeDisposition::Applied,
                Some(ResolveWith::Ours) => applies_our_resolution(d, outer_side),
                Some(ResolveWith::Ancestor) => d.edits@.len() == 0 && d.ours == ChangeDisposition::Processed && d.theirs
                    == ChangeDisposition::Processed,
            }
        } else {
            r is None
        },
        _ => r is None,
    }
}

/// Decide how our rename of a directory meets their rename, as [`renamed_tree`] says.
pub fn plan_renamed_tree(
    ours: &Change,
    theirs: &Change,
    erase_tree: bool,
    tree_conflicts: Option<ResolveWith>,
    outer_side: ConflictMapping,
) -> (r: Option<RenamedTree>)
    ensures
        renamed_tree(*ours, *theirs, erase_tree, tree_conflicts, outer_side, r),
{
    match (ours, theirs) {
        (
            Change::Rewrite { source_location: our_source, entry_mode: tree_mode, location: tree_location, .. },
            Change::Rewrite { location, .. },
        ) => {
            if !tree_mode.is_tree() {
                return None;
            }
            if slice_eq(tree_location.as_slice(), location.as_slice()) {
                return Some(RenamedTree::Relocate { location: location.clone() });
            }
            if !erase_tree || !slice_eq(location.as_slice(), our_source.as_slice()) {
                return None;
            }
            let mut edits: Vec<PairEdit> = Vec::new();
            let (o, t) = match tree_conflicts {
                None => {
                    edits.push(PairEdit::ApplyTheirs);
                    (ChangeDisposition::Processed, ChangeDisposition::Applied)
                },
                Some(ResolveWith::Ours) => {
                    edits.push(PairEdit::ApplyOurResolution);
                    match outer_side {
                        ConflictMapping::Original => (ChangeDisposition::Applied, ChangeDisposition::Processed),
                        ConflictMapping::Swapped => (ChangeDisposition::Processed, ChangeDisposition::Applied),
                    }
                },
                Some(ResolveWith::Ancestor) => (ChangeDisposition::Processed, ChangeDisposition::Processed),
            };
            assert(tree_conflicts is None ==> edits@ =~= seq![PairEdit::ApplyTheirs]);
            assert(tree_conflicts == Some(ResolveWith::Ours) ==> edits@ =~= seq![PairEdit::ApplyOurResolution]);
            Some(
                RenamedTree::Decided(
                    PairSteps { edits, untrack: Vec::new(), ours: o, theirs: t, conflict: None, defer_theirs: false },
                ),
            )
        },
        _ => None,
    }
}

/// `true` if `d` moves their renamed entry (from `source` to `location`, of `mode` and `id`),
/// which lands where our directory renamed to `tree_location` went, to `renamed`: without forced
/// resolution their source is removed, their entry put at the renamed path and no longer tracked
/// at the location in their tree, both changes counting as applied; forced to ours, the change of
/// the side the merge calls ours is applied and the other side's entry at the location is no
/// longer tracked; forced to the ancestor, nothing is done. The conflict records their entry at
/// the renamed path.
pub open spec fn renamed_tree_relocated(
    d: PairSteps,
    tree_location: Seq<u8>,
    source: Seq<u8>,
    location: Seq<u8>,
    mode: EntryMode,
    id: Seq<u8>,
    renamed: Seq<u8>,
    tree_conflicts: Option<ResolveWith>,
    outer_side: ConflictMapping,
) -> bool {
    &&& !d.defer_theirs
    &&& d.conflict matches Some(c) && c.side == ConflictMapping::Original && blocked_failure(c.resolution, renamed)
        && c.entries[0] is None && c.entries[1] is None && renamed_entry_is(c.entries[2], mode, id)
    &&& match tree_conflicts {
        None => {
            &&& d.edits@.len() == 2 && removes(d.edits@[0], source) && upserts_at(d.edits@[1], renamed, mode, id)
            &&& d.untrack@.len() == 1 && d.untrack@[0].0@ == location && d.untrack@[0].1 == ConflictMapping::Swapped
            &&& d.ours == ChangeDisposition::Applied && d.theirs == ChangeDisposition::Applied
        },
        Some(ResolveWith::Ours) => {
            &&& applies_our_resolution(d, outer_side)
            &&& d.untrack@.len() == 1 && if outer_side == ConflictMapping::Original {
                d.untrack@[0].0@ == location && d.untrack@[0].1 == ConflictMapping::Swapped
            } else {
                d.untrack@[0].0@ == tree_location && d.untrack@[0].1 == ConflictMapping::Original
            }
        },
        Some(ResolveWith::Ancestor) => d.edits@.len() == 0 && d.untrack@.len() == 0 && d.ours == ChangeDisposition::Processed
            && d.theirs == ChangeDisposition::Processed,
    }
}

/// Move their renamed entry that lands where our directory went to `renamed`, as
/// [`renamed_tree_relocated`] says.
pub fn finish_renamed_tree_clash(
    ours: &Change,
    theirs: &Change,
    renamed: Vec<u8>,
    tree_conflicts: Option<ResolveWith>,
    outer_side: ConflictMapping,
) -> (r: PairSteps)
    requires
        ours is Rewrite,
        theirs is Rewrite,
    ensures
        match (*ours, *theirs) {
            (
                Change::Rewrite { location: tree_location, .. },
                Change::Rewrite { source_location, location, entry_mode, id, .. },
            ) => renamed_tree_relocated(
                r,
                tree_location@,
                source_location@,
                location@,
                entry_mode,
                id@,
                renamed@,
                tree_conflicts,
                outer_side,
            ),
            _ => false,
        },
{
    match (ours, theirs) {
        (Change::Rewrite { location: tree_location, .. }, Change::Rewrite { source_location, location, entry_mode, id, .. }) => {
            let entries = [
                None,
                None,
                Some(ConflictIndexEntry { mode: *entry_mode, id: id.copied(), path_hint: Some(ConflictIndexEntryPathHint::RenamedOrTheirs) }),
            ];
            let conflict = PairConflict {
                resolution: Err(ResolutionFailure::OursDirectoryTheirsNonDirectoryTheirsRenamed { renamed_unique_path_of_theirs: renamed.clone() }),
                side: ConflictMapping::Original,
                entries,
            };
            let mut edits: Vec<PairEdit> = Vec::new();
            let mut untrack: Vec<(Vec<u8>, ConflictMapping)> = Vec::new();
            let (o, t) = match tree_conflicts {
                None => {
                    edits.push(PairEdit::Remove { location: source_location.clone() });
                    edits.push(upsert_edit(&renamed, *entry_mode, id));
                    untrack.push((location.clone(), ConflictMapping::Swapped));
                    (ChangeDisposition::Applied, ChangeDisposition::Applied)
                },
                Some(ResolveWith::Ours) => {
                    edits.push(PairEdit::ApplyOurResolution);
                    assert(edits@ =~= seq![PairEdit::ApplyOurResolution]);
                    match outer_side {
                        ConflictMapping::Original => {
                            untrack.push((location.clone(), ConflictMapping::Swapped));
                            (ChangeDisposition::Applied, ChangeDisposition::Processed)
                        },
                        ConflictMapping::Swapped => {
                            untrack.push((tree_location.clone(), ConflictMapping::Original));
                            (ChangeDisposition::Processed, ChangeDisposition::Applied)
                        },
                    }
                },
                Some(ResolveWith::Ancestor) => (ChangeDisposition::Processed, ChangeDisposition::Processed),
            };
            PairSteps { edits, untrack, ours: o, theirs: t, conflict: Some(conflict), defer_theirs: false }
        },
        _ => {
            proof {
                assert(false);
            }
            deferring(false)
        },
    }
}

// ---------------------------------------------------------------------------------------------
// A rename meeting an addition at its destination.

/// The rename and the addition of a pair, with the side that renamed (`Original` where our change
/// is the rename), if the pair is one.
pub open spec fn rename_and_addition(ours: Change, theirs: Change) -> Option<(Change, Change, ConflictMapping)> {
    match (ours, theirs) {
        (Change::Rewrite { .. }, Change::Addition { .. }) => Some((ours, theirs, ConflictMapping::Original)),
        (Change::Addition { .. }, Change::Rewrite { .. }) => Some((theirs, ours, ConflictMapping::Swapped)),
        _ => None,
    }
}

/// How a rename meets an addition that no earlier rule takes.
#[derive(Debug)]
pub enum RenameAddition {
    /// Decided from the two changes.
    Decided(PairSteps),
    /// The contents merge, as the plan says (see [`finish_rename_addition_merge`]).
    Merge(RenameAdditionPlan),
    /// The types do not merge: one entry moves to a unique path (see
    /// [`finish_rename_addition_mismatch`]), found in the renaming side's tree, qualified by our
    /// label where the plan's `label_is_ours`, else by theirs.
    Relocate(RenameAdditionPlan),
}

/// The shape of a rename meeting an addition: the renaming side (`Original` where ours renames),
/// the rename's source and destination, the merged mode where the modes merge (else the rename's),
/// the blobs to merge where the ids differ (the rename, the addition, and a null base of the
/// source's mode, at the destination and source), and, where the types do not merge, whether the
/// unique path is qualified by our label (not where the rename is a symbolic link or a tree and
/// stays, so that the addition moves).
#[derive(Debug)]
pub struct RenameAdditionPlan {
    pub side: ConflictMapping,
    pub source: Vec<u8>,
    pub location: Vec<u8>,
    pub merged_mode: EntryMode,
    pub content_merge: Option<(BlobInput, BlobInput, BlobInput)>,
    pub label_is_ours: bool,
}

/// `true` if `d` resolves a submodule renamed on one side (by `side`) and added on the other as a
/// `SubmoduleAddAdd` conflict, the change of the side the merge calls ours applied unless the
/// ancestor is kept.
pub open spec fn submodules_renamed_and_added(
    d: PairSteps,
    r_mode: EntryMode,
    r_id: Seq<u8>,
    a_mode: EntryMode,
    a_id: Seq<u8>,
    side: ConflictMapping,
    tree_conflicts: Option<ResolveWith>,
    outer_side: ConflictMapping,
) -> bool {
    &&& d.untrack@.len() == 0 && !d.defer_theirs
    &&& if tree_conflicts == Some(ResolveWith::Ancestor) {
        d.edits@.len() == 0 && d.ours == ChangeDisposition::Processed && d.theirs == ChangeDisposition::Processed
    } else {
        applies_our_resolution(d, outer_side)
    }
    &&& d.conflict matches Some(c) && c.side == side && c.resolution == Err::<Resolution, ResolutionFailure>(
        ResolutionFailure::SubmoduleAddAdd,
    ) && c.entries[0] is None && entry_is(c.entries[1], r_mode, r_id) && entry_is(c.entries[2], a_mode, a_id)
}

/// `true` if `r` is how the rename `w` (by `side`) meets the addition `a`, where no earlier rule
/// took the pair: two submodules conflict (`SubmoduleAddAdd`), the change of the side the merge
/// calls ours applied unless the ancestor is kept; a directory renamed away from where the
/// addition lands keeps the addition (applied without forced resolution, the side the merge calls
/// ours applied where forced to ours); else the contents merge where the modes merge, or one entry
/// moves where they do not.
pub open spec fn rename_addition(
    w: Change,
    a: Change,
    side: ConflictMapping,
    tree_conflicts: Option<ResolveWith>,
    outer_side: ConflictMapping,
    r: Option<RenameAddition>,
) -> bool {
    match (w, a) {
        (
            Change::Rewrite { source_location, source_entry_mode, source_id, entry_mode: r_mode, id: r_id, location, .. },
            Change::Addition { location: added, entry_mode: a_mode, id: a_id, .. },
        ) => if is_commit_mode(r_mode) && is_commit_mode(a_mode) {
            r matches Some(RenameAddition::Decided(d)) && submodules_renamed_and_added(d, r_mode, r_id@, a_mode, a_id@, side, tree_conflicts, outer_side)
        } else if is_tree_mode(r_mode) && added@ == source_location@ {
            r matches Some(RenameAddition::Decided(d)) && d.untrack@.len() == 0 && !d.defer_theirs && d.conflict is None
                && match tree_conflicts {
                None => d.edits@.len() == 1 && upserts_at(d.edits@[0], added@, a_mode, a_id@) && d.ours
                    == ChangeDisposition::Applied && d.theirs == ChangeDisposition::Applied,
                Some(ResolveWith::Ours) => applies_our_resolution(d, outer_side),
                Some(ResolveWith::Ancestor) => d.edits@.len() == 0 && d.ours == ChangeDisposition::Processed && d.theirs
                    == ChangeDisposition::Processed,
            }
        } else {
            let shape = |p: RenameAdditionPlan| {
                &&& p.side == side && p.source@ == source_location@ && p.location@ == location@
                &&& if r_id@ == a_id@ {
                    p.content_merge is None
                } else {
                    p.content_merge matches Some((x, y, z)) && blob_is(x, location@, r_id@, r_mode) && blob_is(y, location@, a_id@, a_mode)
                        && blob_is(z, source_location@, null_like(source_id@), source_entry_mode)
                }
            };
            match merge_modes_spec(r_mode, a_mode) {
                Some(m) => r matches Some(RenameAddition::Merge(p)) && shape(p) && p.merged_mode == m,
                None => r matches Some(RenameAddition::Relocate(p)) && p.side == side && p.source@ == source_location@
                    && p.location@ == location@ && p.merged_mode == r_mode && p.content_merge is None && p.label_is_ours == !(
                kind_of(r_mode.value) == EntryKind::Link || kind_of(r_mode.value) == EntryKind::Tree),
            }
        },
        _ => r is None,
    }
}

/// Decide how the rename and the addition of the pair `ours`, `theirs` meet, where no earlier
/// rule took the pair, as [`rename_addition`] says; `None` where the pair is not a rename and an
/// addition.
pub fn plan_rename_addition(
    ours: &Change,
    theirs: &Change,
    tree_conflicts: Option<ResolveWith>,
    outer_side: ConflictMapping,
) -> (r: Option<RenameAddition>)
    ensures
        match rename_and_addition(*ours, *theirs) {
            Some((w, a, side)) => rename_addition(w, a, side, tree_conflicts, outer_side, r),
            None => r is None,
        },
{
    let (w, a, side) = match (ours, theirs) {
        (Change::Rewrite { .. }, Change::Addition { .. }) => (ours, theirs, ConflictMapping::Original),
        (Change::Addition { .. }, Change::Rewrite { .. }) => (theirs, ours, ConflictMapping::Swapped),
        _ => {
            return None;
        },
    };
    match (w, a) {
        (
            Change::Rewrite { source_location, source_entry_mode, source_id, entry_mode: r_mode, id: r_id, location, .. },
            Change::Addition { location: added, entry_mode: a_mode, id: a_id, .. },
        ) => {
            let our_resolution = || -> (d: PairSteps)
                ensures
                    applies_our_resolution(d, outer_side),
                    d.untrack@.len() == 0 && !d.defer_theirs && d.conflict is None,
                {
                    let mut edits: Vec<PairEdit> = Vec::new();
                    edits.push(PairEdit::ApplyOurResolution);
                    assert(edits@ =~= seq![PairEdit::ApplyOurResolution]);
                    let (o, t) = match outer_side {
                        ConflictMapping::Original => (ChangeDisposition::Applied, ChangeDisposition::Processed),
                        ConflictMapping::Swapped => (ChangeDisposition::Processed, ChangeDisposition::Applied),
                    };
                    PairSteps { edits, untrack: Vec::new(), ours: o, theirs: t, conflict: None, defer_theirs: false }
                };
            let keeps_ancestor = match tree_conflicts {
                Some(ResolveWith::Ancestor) => true,
                _ => false,
            };
            if r_mode.is_commit() && a_mode.is_commit() {
                let mut d = if keeps_ancestor {
                    deferring(false)
                } else {
                    our_resolution()
                };
                d.conflict = Some(
                    PairConflict {
                        resolution: Err(ResolutionFailure::SubmoduleAddAdd),
                        side,
                        entries: [None, index_entry(*r_mode, r_id), index_entry(*a_mode, a_id)],
                    },
                );
                return Some(RenameAddition::Decided(d));
            }
            if r_mode.is_tree() && slice_eq(added.as_slice(), source_location.as_slice()) {
                let d = match tree_conflicts {
                    None => {
                        let mut edits: Vec<PairEdit> = Vec::new();
                        edits.push(upsert_edit(added, *a_mode, a_id));
                        PairSteps {
                            edits,
                            untrack: Vec::new(),
                            ours: ChangeDisposition::Applied,
                            theirs: ChangeDisposition::Applied,
                            conflict: None,
                            defer_theirs: false,
                        }
                    },
                    Some(ResolveWith::Ours) => our_resolution(),
                    Some(ResolveWith::Ancestor) => deferring(false),
                };
                return Some(RenameAddition::Decided(d));
            }
            match merge_modes(*r_mode, *a_mode) {
                Some(merged_mode) => {
                    let content_merge = if slice_eq(r_id.bytes.as_slice(), a_id.bytes.as_slice()) {
                        None
                    } else {
                        let null = null_id(source_id.kind());
                        Some(
                            (
                                blob_input(location, r_id, *r_mode),
                                blob_input(location, a_id, *a_mode),
                                blob_input(source_location, &null, *source_entry_mode),
                            ),
                        )
                    };
                    Some(
                        RenameAddition::Merge(
                            RenameAdditionPlan {
                                side,
                                source: source_location.clone(),
                                location: location.clone(),
                                merged_mode,
                                content_merge,
                                label_is_ours: false,
                            },
                        ),
                    )
                },
                None => {
                    let kind = r_mode.kind();
                    let rename_stays = kind == EntryKind::Link || kind == EntryKind::Tree;

                    Some(
                        RenameAddition::Relocate(
                            RenameAdditionPlan {
                                side,
                                source: source_location.clone(),
                                location: location.clone(),
                                merged_mode: *r_mode,
                                content_merge: None,
                                label_is_ours: !rename_stays,
                            },
                        ),
                    )
                },
            }
        },
        _ => None,
    }
}

/// `true` if `d` resolves the rename `w` (by `plan.side`) against the addition `a` whose contents
/// merged into `merged` (else both had one id): the source is removed and no longer tracked in
/// the renaming side's tree, the merged entry is put at the destination with the merged mode, and
/// a content merge is recorded with the rename's and the addition's entries.
pub open spec fn rename_addition_merged(
    d: PairSteps,
    plan: RenameAdditionPlan,
    w: Change,
    a: Change,
    merged: Option<(Seq<u8>, blob::Resolution)>,
) -> bool {
    match (w, a) {
        (Change::Rewrite { entry_mode: r_mode, id: r_id, .. }, Change::Addition { entry_mode: a_mode, id: a_id, .. }) => {
            let merged_id = match merged {
                Some((id, _)) => id,
                None => r_id@,
            };
            &&& d.edits@.len() == 2 && removes(d.edits@[0], plan.source@) && upserts_at(d.edits@[1], plan.location@, plan.merged_mode, merged_id)
            &&& d.untrack@.len() == 1 && d.untrack@[0].0@ == plan.source@ && d.untrack@[0].1 == plan.side
            &&& d.ours == ChangeDisposition::Processed && d.theirs == ChangeDisposition::Processed && !d.defer_theirs
            &&& match merged {
                Some((id, res)) => d.conflict matches Some(c) && c.side == ConflictMapping::Original && merged_as(c.resolution, id, res)
                    && c.entries[0] is None && entry_is(c.entries[1], r_mode, r_id@) && entry_is(c.entries[2], a_mode, a_id@),
                None => d.conflict is None,
            }
        },
        _ => false,
    }
}

/// Resolve a rename against an addition whose contents merged, as [`rename_addition_merged`] says.
pub fn finish_rename_addition_merge(
    plan: &RenameAdditionPlan,
    w: &Change,
    a: &Change,
    merged: Option<(ObjectId, blob::Resolution)>,
) -> (r: PairSteps)
    requires
        w is Rewrite,
        a is Addition,
    ensures
        rename_addition_merged(
            r,
            *plan,
            *w,
            *a,
            match merged {
                Some((id, res)) => Some((id@, res)),
                None => None,
            },
        ),
{
    match (w, a) {
        (Change::Rewrite { entry_mode: r_mode, id: r_id, .. }, Change::Addition { entry_mode: a_mode, id: a_id, .. }) => {
            let mut edits: Vec<PairEdit> = Vec::new();
            edits.push(PairEdit::Remove { location: plan.source.clone() });
            let (merged_id, conflict) = match merged {
                Some((id, res)) => (
                    id.copied(),
                    Some(
                        PairConflict {
                            resolution: Ok(
                                Resolution::OursModifiedTheirsModifiedThenBlobContentMerge {
                                    merged_blob: ContentMerge { merged_blob_id: id, resolution: res },
                                },
                            ),
                            side: ConflictMapping::Original,
                            entries: [None, index_entry(*r_mode, r_id), index_entry(*a_mode, a_id)],
                        },
                    ),
                ),
                None => (r_id.copied(), None),
            };
            edits.push(upsert_edit(&plan.location, plan.merged_mode, &merged_id));
            let mut untrack: Vec<(Vec<u8>, ConflictMapping)> = Vec::new();
            untrack.push((plan.source.clone(), plan.side));
            PairSteps {
                edits,
                untrack,
                ours: ChangeDisposition::Processed,
                theirs: ChangeDisposition::Processed,
                conflict,
                defer_theirs: false,
            }
        },
        _ => {
            proof {
                assert(false);
            }
            deferring(false)
        },
    }
}

/// How a rename against an addition of another type ends: the steps, and the addition to defer,
/// if any, onto the changes of the side it names (ours where `Original`), waiting for that side's
/// change of the pair.
#[derive(Debug)]
pub struct RenameAdditionMismatch {
    pub steps: PairSteps,
    pub deferred: Option<(Addition, ConflictMapping)>,
}

/// `true` if `m` resolves the rename `w` (by `plan.side`) against the addition `a` of another
/// type, where the moving entry got `renamed`. The rename stays at its destination where it is a
/// symbolic link or a tree (the logical side is then `Original`), else the addition stays. The
/// source is removed and no longer tracked in the renaming side's tree without forced resolution,
/// where forced to ours and the renaming side is the side the merge calls ours, or where the
/// addition is not at the source. Without forced resolution, or in that forced case, the staying
/// entry is put at the destination, which is no longer tracked in the renaming side's tree. The
/// conflict is recorded with the renaming side, the staying and the moving entry (hinted at the
/// current and renamed paths where the rename stays, the other way round where it does not).
/// Without forced resolution the moving entry is deferred at the renamed path onto the side other
/// than the logical one picks.
pub open spec fn rename_addition_relocated(
    m: RenameAdditionMismatch,
    plan: RenameAdditionPlan,
    w: Change,
    a: Change,
    renamed: Seq<u8>,
    tree_conflicts: Option<ResolveWith>,
    outer_side: ConflictMapping,
) -> bool {
    match (w, a) {
        (
            Change::Rewrite { source_location, entry_mode: r_mode, id: r_id, .. },
            Change::Addition { location: added, entry_mode: a_mode, id: a_id, .. },
        ) => {
            let d = m.steps;
            let rename_stays = kind_of(r_mode.value) == EntryKind::Link || kind_of(r_mode.value) == EntryKind::Tree;
            let (stay, moved, stay_hint, moved_hint) = if rename_stays {
                ((r_mode, r_id@), (a_mode, a_id@), ConflictIndexEntryPathHint::Current, ConflictIndexEntryPathHint::RenamedOrTheirs)
            } else {
                ((a_mode, a_id@), (r_mode, r_id@), ConflictIndexEntryPathHint::RenamedOrTheirs, ConflictIndexEntryPathHint::Current)
            };
            let ours_is_rename = tree_conflicts == Some(ResolveWith::Ours) && plan.side == outer_side;
            let removes_source = tree_conflicts is None || ours_is_rename || added@ != source_location@;
            let puts = tree_conflicts is None || ours_is_rename;
            &&& d.edits@.len() == (if removes_source { 1int } else { 0int }) + (if puts { 1int } else { 0int })
            &&& removes_source ==> removes(d.edits@[0], plan.source@)
            &&& puts ==> upserts_at(d.edits@[d.edits@.len() - 1], plan.location@, stay.0, stay.1)
            &&& d.untrack@.len() == (if removes_source { 1int } else { 0int }) + (if puts { 1int } else { 0int })
            &&& removes_source ==> d.untrack@[0].0@ == plan.source@ && d.untrack@[0].1 == plan.side
            &&& puts ==> d.untrack@[d.untrack@.len() - 1].0@ == plan.location@ && d.untrack@[d.untrack@.len() - 1].1 == plan.side
            &&& d.ours == ChangeDisposition::Processed && d.theirs == ChangeDisposition::Processed && !d.defer_theirs
            &&& d.conflict matches Some(c) && c.side == plan.side && mismatch_failure(c.resolution, renamed) && c.entries[0] is None
                && hinted_entry_is(c.entries[1], stay.0, stay.1, stay_hint) && hinted_entry_is(c.entries[2], moved.0, moved.1, moved_hint)
            &&& if tree_conflicts is None {
                m.deferred matches Some((x, onto)) && x.location@ == renamed && x.mode == moved.0 && x.id@ == moved.1 && onto == (
                if rename_stays {
                    ConflictMapping::Swapped
                } else {
                    ConflictMapping::Original
                })
            } else {
                m.deferred is None
            }
        },
        _ => false,
    }
}

/// Resolve a rename against an addition of another type, as [`rename_addition_relocated`] says.
pub fn finish_rename_addition_mismatch(
    plan: &RenameAdditionPlan,
    w: &Change,
    a: &Change,
    renamed: Vec<u8>,
    tree_conflicts: Option<ResolveWith>,
    outer_side: ConflictMapping,
) -> (r: RenameAdditionMismatch)
    requires
        w is Rewrite,
        a is Addition,
    ensures
        rename_addition_relocated(r, *plan, *w, *a, renamed@, tree_conflicts, outer_side),
{
    match (w, a) {
        (
            Change::Rewrite { source_location, entry_mode: r_mode, id: r_id, .. },
            Change::Addition { location: added, entry_mode: a_mode, id: a_id, .. },
        ) => {
            let kind = r_mode.kind();
            let rename_stays = kind == EntryKind::Link || kind == EntryKind::Tree;
            let ((sm, sid, sh), (mm, mid, mh)) = if rename_stays {
                ((*r_mode, r_id, ConflictIndexEntryPathHint::Current), (*a_mode, a_id, ConflictIndexEntryPathHint::RenamedOrTheirs))
            } else {
                ((*a_mode, a_id, ConflictIndexEntryPathHint::RenamedOrTheirs), (*r_mode, r_id, ConflictIndexEntryPathHint::Current))
            };
            let ours_is_rename = match tree_conflicts {
                Some(ResolveWith::Ours) => plan.side == outer_side,
                _ => false,
            };
            let removes_source = tree_conflicts.is_none() || ours_is_rename || !slice_eq(added.as_slice(), source_location.as_slice());
            let puts = tree_conflicts.is_none() || ours_is_rename;
            let mut edits: Vec<PairEdit> = Vec::new();
            let mut untrack: Vec<(Vec<u8>, ConflictMapping)> = Vec::new();
            if removes_source {
                edits.push(PairEdit::Remove { location: plan.source.clone() });
                untrack.push((plan.source.clone(), plan.side));
            }
            if puts {
                edits.push(upsert_edit(&plan.location, sm, sid));
                untrack.push((plan.location.clone(), plan.side));
            }
            let entries = [
                None,
                Some(ConflictIndexEntry { mode: sm, id: sid.copied(), path_hint: Some(sh) }),
                Some(ConflictIndexEntry { mode: mm, id: mid.copied(), path_hint: Some(mh) }),
            ];
            let deferred = if tree_conflicts.is_none() {
                Some(
                    (
                        Addition { location: renamed.clone(), mode: mm, id: mid.copied() },
                        if rename_stays {
                            ConflictMapping::Swapped
                        } else {
                            ConflictMapping::Original
                        },
                    ),
                )
            } else {
                None
            };
            RenameAdditionMismatch {
                steps: PairSteps {
                    edits,
                    untrack,
                    ours: ChangeDisposition::Processed,
                    theirs: ChangeDisposition::Processed,
                    conflict: Some(
                        PairConflict {
                            resolution: Err(ResolutionFailure::OursAddedTheirsAddedTypeMismatch { their_unique_location: renamed }),
                            side: plan.side,
                            entries,
                        },
                    ),
                    defer_theirs: false,
                },
                deferred,
            }
        },
        _ => {
            proof {
                assert(false);
            }
            RenameAdditionMismatch { steps: deferring(false), deferred: None }
        },
    }
}

// ---------------------------------------------------------------------------------------------
// Pairs no rule takes.

/// `true` if `d` resolves a pair that no rule takes: an `Unknown` conflict without index entries is
/// recorded, and the change of the side the merge calls ours is applied where tree conflicts are
/// forced to ours, nothing otherwise.
pub open spec fn unknown_pair(d: PairSteps, tree_conflicts: Option<ResolveWith>, outer_side: ConflictMapping) -> bool {
    &&& d.untrack@.len() == 0 && !d.defer_theirs
    &&& if tree_conflicts == Some(ResolveWith::Ours) {
        applies_our_resolution(d, outer_side)
    } else {
        d.edits@.len() == 0 && d.ours == ChangeDisposition::Processed && d.theirs == ChangeDisposition::Processed
    }
    &&& d.conflict matches Some(c) && c.side == ConflictMapping::Original && c.resolution == Err::<Resolution, ResolutionFailure>(
        ResolutionFailure::Unknown,
    ) && c.entries[0] is None && c.entries[1] is None && c.entries[2] is None
}

/// Resolve a pair that no rule takes, as [`unknown_pair`] says.
pub fn resolve_unknown_pair(tree_conflicts: Option<ResolveWith>, outer_side: ConflictMapping) -> (r: PairSteps)
    ensures
        unknown_pair(r, tree_conflicts, outer_side),
{
    let mut d = deferring(false);
    match tree_conflicts {
        Some(ResolveWith::Ours) => {
            d.edits.push(PairEdit::ApplyOurResolution);
            assert(d.edits@ =~= seq![PairEdit::ApplyOurResolution]);
            match outer_side {
                ConflictMapping::Original => d.ours = ChangeDisposition::Applied,
                ConflictMapping::Swapped => d.theirs = ChangeDisposition::Applied,
            }
        },
        _ => {},
    }
    d.conflict = Some(PairConflict { resolution: Err(ResolutionFailure::Unknown), side: ConflictMapping::Original, entries: [None, None, None] });
    d
}

} // verus!
