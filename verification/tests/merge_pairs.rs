use gix_plumbing::merge::tree::drive::{any_pending, schedule_change, ChangeAction};
use gix_plumbing::merge::tree::side::SideState;
use gix_plumbing::merge::tree::pair::{
    finish_blocking_relocation, finish_renamed_on_both_sides, plan_blocking_leaf, plan_renamed_on_both_sides,
    resolve_addition_pair, resolve_blocked_by_directory, BlockingLeaf,
};
use gix_plumbing::merge::tree::utils::ChangeState;
use gix_plumbing::merge::tree::pair::{
    finish_rename_addition_merge, finish_rename_addition_mismatch, finish_renamed_tree_clash, finish_same_destination_merge,
    plan_rename_addition, plan_renamed_tree, plan_same_destination, renames_to_same_destination, resolve_unknown_pair,
    RenameAddition, RenamedTree, SameDestination,
};
use gix_plumbing::hash::ObjectId;
use gix_plumbing::merge::blob::BinaryResolveWith;
use gix_plumbing::merge::commit::{
    virtual_base_event_expected, virtual_merge_base_begin, virtual_merge_base_step, VirtualBaseAction, VirtualBaseEvent,
    VirtualBasePhase,
};
use gix_plumbing::merge::blob::Resolution as Blob;
use gix_plumbing::merge::tree::pair::{
    finish_content_merge, finish_modified_renamed, finish_modified_replaced, finish_type_mismatch, plan_content_merge,
    plan_modified_renamed, plan_modified_replaced, plan_type_mismatch, resolve_pair, PairEdit,
};
use gix_plumbing::merge::tree::utils::{Change, ChangeDisposition, TrackedChange};
use gix_plumbing::merge::tree::{ConflictMapping, EntryMode, Resolution, ResolutionFailure, ResolveWith};

const BLOB: EntryMode = EntryMode { value: 0o100644 };
const TREE: EntryMode = EntryMode { value: 0o040000 };
const COMMIT: EntryMode = EntryMode { value: 0o160000 };

fn id(byte: u8) -> ObjectId {
    ObjectId { bytes: vec![byte; 20] }
}

fn modification(location: &str, mode: EntryMode, new: u8) -> Change {
    Change::Modification {
        location: location.as_bytes().to_vec(),
        previous_entry_mode: mode,
        previous_id: id(1),
        entry_mode: mode,
        id: id(new),
    }
}

fn deletion(location: &str) -> Change {
    Change::Deletion { location: location.as_bytes().to_vec(), relation: None, entry_mode: BLOB, id: id(1) }
}

fn addition(location: &str, mode: EntryMode, new: u8) -> Change {
    Change::Addition { location: location.as_bytes().to_vec(), relation: None, entry_mode: mode, id: id(new) }
}

#[test]
fn both_deletions_apply_ours() {
    let d = resolve_pair(&deletion("f"), &deletion("f"), None, ConflictMapping::Original, false, &[], &[]).unwrap();
    assert!(matches!(d.edit, Some(PairEdit::ApplyOurs)));
    assert_eq!((d.ours, d.theirs), (ChangeDisposition::Applied, ChangeDisposition::Applied));
    assert!(d.conflict.is_none());
}

#[test]
fn diverging_submodules_keep_ours_unless_the_ancestor_is_forced() {
    let ours = modification("sub", COMMIT, 2);
    let theirs = modification("sub", COMMIT, 3);
    let d = resolve_pair(&ours, &theirs, None, ConflictMapping::Swapped, false, &[], &[]).unwrap();
    assert!(matches!(d.edit, Some(PairEdit::ApplyOurResolution)));
    assert_eq!((d.ours, d.theirs), (ChangeDisposition::Processed, ChangeDisposition::Applied));
    let c = d.conflict.unwrap();
    assert_eq!(c.resolution, Err(ResolutionFailure::SubmoduleMerge));
    assert_eq!(c.entries[0].as_ref().unwrap().id, id(1));
    assert_eq!(c.entries[2].as_ref().unwrap().id, id(3));

    let d = resolve_pair(&ours, &theirs, Some(ResolveWith::Ancestor), ConflictMapping::Original, false, &[], &[]).unwrap();
    assert!(d.edit.is_none());
    assert_eq!((d.ours, d.theirs), (ChangeDisposition::Processed, ChangeDisposition::Processed));

    let same = resolve_pair(&ours, &modification("sub", COMMIT, 2), None, ConflictMapping::Original, false, &[], &[]).unwrap();
    assert!(matches!(same.edit, Some(PairEdit::ApplyOurs)));
    assert!(same.conflict.is_none());
}

#[test]
fn submodules_added_on_both_sides_conflict() {
    let d = resolve_pair(&addition("s", COMMIT, 2), &addition("s", COMMIT, 3), None, ConflictMapping::Original, false, &[], &[])
        .unwrap();
    let c = d.conflict.unwrap();
    assert_eq!(c.resolution, Err(ResolutionFailure::SubmoduleAddAdd));
    assert!(c.entries[0].is_none());
    assert!(resolve_pair(&addition("s", COMMIT, 2), &addition("s", COMMIT, 3), None, ConflictMapping::Original, true, &[], &[])
        .is_none());
    assert!(resolve_pair(&addition("s", BLOB, 2), &addition("s", BLOB, 3), None, ConflictMapping::Original, false, &[], &[])
        .is_none());
}

#[test]
fn modified_and_deleted_entries_conflict() {
    let ours = modification("f", BLOB, 2);
    let theirs = deletion("f");
    let d = resolve_pair(&ours, &theirs, None, ConflictMapping::Original, false, &[], &[]).unwrap();
    match d.edit {
        Some(PairEdit::Upsert { location, mode, id: new }) => {
            assert_eq!(location, b"f".to_vec());
            assert_eq!(mode, BLOB);
            assert_eq!(new, id(2));
        }
        _ => panic!("the modification stays"),
    }
    let c = d.conflict.unwrap();
    assert_eq!(c.resolution, Err(ResolutionFailure::OursModifiedTheirsDeleted));
    assert_eq!(c.side, ConflictMapping::Original);
    assert!(c.entries[2].is_none());

    let d = resolve_pair(&theirs, &ours, Some(ResolveWith::Ours), ConflictMapping::Original, false, &[], &[]).unwrap();
    assert!(matches!(d.edit, Some(PairEdit::Remove { .. })), "ours deleted it");
    assert_eq!((d.ours, d.theirs), (ChangeDisposition::Applied, ChangeDisposition::Processed));
    assert_eq!(d.conflict.unwrap().side, ConflictMapping::Swapped);

    let dir = vec![TrackedChange::new(addition("f", TREE, 4), None, None)];
    assert!(resolve_pair(&ours, &theirs, None, ConflictMapping::Original, false, &[], &dir).is_none());
    let d = resolve_pair(&ours, &theirs, Some(ResolveWith::Ancestor), ConflictMapping::Original, false, &[], &dir).unwrap();
    assert!(d.edit.is_none());
}

#[test]
fn pairs_that_need_more_than_the_changes_are_not_decided() {
    let ours = modification("f", BLOB, 2);
    assert!(resolve_pair(&ours, &modification("f", BLOB, 3), None, ConflictMapping::Original, false, &[], &[]).is_none());
    assert!(resolve_pair(&ours, &addition("f/x", BLOB, 3), None, ConflictMapping::Original, false, &[], &[]).is_none());
}

#[test]
fn virtual_merge_base_merges_bases_in_turn() {
    let (state, action) = virtual_merge_base_begin(id(1), id(2), vec![id(3)], 0);
    match &action {
        VirtualBaseAction::MergeCommits(m) => {
            assert_eq!((m.ours.clone(), m.theirs.clone(), m.marker_size_multiplier), (id(1), id(2), 1));
            assert_eq!((m.current_label, m.other_label), ("Temporary merge branch 1", "Temporary merge branch 2"));
            assert_eq!(m.tree_conflicts, ResolveWith::Ancestor);
            assert_eq!(m.resolve_binary_with, BinaryResolveWith::Ancestor);
        }
        _ => panic!("the first merge begins"),
    }
    assert!(!virtual_base_event_expected(&state, &VirtualBaseEvent::TreeWritten(id(9))));
    let merged = VirtualBaseEvent::Merged { unresolved: false, virtual_merge_bases: vec![] };
    assert!(virtual_base_event_expected(&state, &merged));
    let (state, action) = virtual_merge_base_step(state, merged);
    assert!(matches!(action, VirtualBaseAction::WriteTree));
    let (state, action) = virtual_merge_base_step(state, VirtualBaseEvent::TreeWritten(id(10)));
    match &action {
        VirtualBaseAction::CreateCommit { parent_a, parent_b, tree } => {
            assert_eq!((parent_a.clone(), parent_b.clone(), tree.clone()), (id(1), id(2), id(10)))
        }
        _ => panic!("a virtual commit is created"),
    }
    let (state, action) = virtual_merge_base_step(state, VirtualBaseEvent::CommitCreated(id(20)));
    match &action {
        VirtualBaseAction::MergeCommits(m) => {
            assert_eq!((m.ours.clone(), m.theirs.clone(), m.marker_size_multiplier), (id(20), id(3), 2))
        }
        _ => panic!("the next merge base is merged"),
    }
    let (state, _) = virtual_merge_base_step(state, VirtualBaseEvent::Merged { unresolved: false, virtual_merge_bases: vec![id(7)] });
    let (state, _) = virtual_merge_base_step(state, VirtualBaseEvent::TreeWritten(id(11)));
    let (state, action) = virtual_merge_base_step(state, VirtualBaseEvent::CommitCreated(id(21)));
    assert!(matches!(state.phase, VirtualBasePhase::Finished));
    match action {
        VirtualBaseAction::Done { commit_id, tree_id, virtual_merge_bases } => {
            assert_eq!(commit_id, id(21));
            assert_eq!(tree_id, id(11));
            assert_eq!(virtual_merge_bases, vec![id(20), id(7), id(21)]);
        }
        _ => panic!("the merge ends"),
    }
}

#[test]
fn virtual_merge_base_fails_on_unresolved_conflicts() {
    let (state, _) = virtual_merge_base_begin(id(1), id(2), vec![], 0);
    let (state, action) = virtual_merge_base_step(state, VirtualBaseEvent::Merged { unresolved: true, virtual_merge_bases: vec![] });
    assert!(matches!(action, VirtualBaseAction::Fail));
    assert!(matches!(state.phase, VirtualBasePhase::Finished));
}

fn rename(from: &str, to: &str) -> Change {
    Change::Rewrite {
        source_location: from.as_bytes().to_vec(),
        source_entry_mode: BLOB,
        source_id: id(1),
        entry_mode: BLOB,
        id: id(2),
        location: to.as_bytes().to_vec(),
        relation: None,
        copy: false,
    }
}

#[test]
fn deleted_and_renamed_entries_conflict() {
    let d = resolve_pair(&deletion("f"), &rename("f", "g"), None, ConflictMapping::Original, false, &[], &[]).unwrap();
    assert!(matches!(&d.edit, Some(PairEdit::Remove { location }) if location == b"f"));
    assert_eq!(d.untrack, Some((b"f".to_vec(), ConflictMapping::Original)));
    assert_eq!((d.ours, d.theirs), (ChangeDisposition::Applied, ChangeDisposition::Processed));
    let c = d.conflict.unwrap();
    assert_eq!(c.resolution, Err(ResolutionFailure::OursDeletedTheirsRenamed));
    assert!(c.entries[0].is_none() && c.entries[1].is_none());
    assert_eq!(c.entries[2].as_ref().unwrap().id, id(2));
    let deferred = d.deferred.unwrap();
    assert_eq!((deferred.location, deferred.onto), (b"g".to_vec(), ConflictMapping::Swapped));
    assert_eq!(deferred.follows_renames_of, Some(ConflictMapping::Original));

    let d = resolve_pair(&rename("f", "g"), &deletion("f"), Some(ResolveWith::Ours), ConflictMapping::Original, false, &[], &[])
        .unwrap();
    assert_eq!((d.ours, d.theirs), (ChangeDisposition::Processed, ChangeDisposition::Applied));
    assert!(d.deferred.is_some(), "our rename is kept");

    let d = resolve_pair(&deletion("f"), &rename("f", "g"), Some(ResolveWith::Ancestor), ConflictMapping::Original, false, &[], &[])
        .unwrap();
    assert!(d.edit.is_none() && d.untrack.is_none() && d.deferred.is_none());
}

#[test]
fn modified_blobs_are_merged_by_content() {
    const EXE: EntryMode = EntryMode { value: 0o100755 };
    let ours = modification("f", BLOB, 2);
    let theirs = Change::Modification {
        location: b"f".to_vec(),
        previous_entry_mode: BLOB,
        previous_id: id(1),
        entry_mode: EXE,
        id: id(3),
    };
    let plan = plan_content_merge(&ours, &theirs, false, ConflictMapping::Original).unwrap();
    assert_eq!(plan.merged_mode, EXE, "the side that changed the executable bit wins");
    assert_eq!((plan.base_id.clone(), plan.base_mode), (id(1), BLOB));
    let d = finish_content_merge(&plan, &ours, &theirs, false, id(9), Blob::Conflict);
    assert!(matches!(&d.edit, Some(PairEdit::Upsert { mode, id: merged, .. }) if *mode == EXE && *merged == id(9)));
    match d.conflict.unwrap().resolution {
        Ok(Resolution::OursModifiedTheirsModifiedThenBlobContentMerge { merged_blob }) => {
            assert_eq!((merged_blob.merged_blob_id, merged_blob.resolution), (id(9), Blob::Conflict))
        }
        other => panic!("a content merge is recorded: {other:?}"),
    }

    let link_before = Change::Modification {
        location: b"f".to_vec(),
        previous_entry_mode: EntryMode { value: 0o120000 },
        previous_id: id(1),
        entry_mode: BLOB,
        id: id(2),
    };
    let plan = plan_content_merge(&link_before, &modification("f", BLOB, 3), false, ConflictMapping::Original).unwrap();
    assert_eq!((plan.base_id, plan.base_mode), (ObjectId { bytes: vec![0; 20] }, BLOB), "an incompatible ancestor is no base");
    assert!(plan_content_merge(&ours, &modification("f", BLOB, 2), false, ConflictMapping::Original).is_none(), "equal ids need no merge");
    assert!(plan_content_merge(&ours, &modification("f", COMMIT, 3), false, ConflictMapping::Original).is_none());
}

#[test]
fn added_blobs_are_merged_by_content_against_an_empty_base() {
    const EXE: EntryMode = EntryMode { value: 0o100755 };
    let ours = addition("f", EXE, 2);
    let theirs = addition("f", BLOB, 3);
    let plan = plan_content_merge(&ours, &theirs, false, ConflictMapping::Original).unwrap();
    assert_eq!((plan.merged_mode, plan.our_mode, plan.their_mode), (EXE, EXE, EXE));
    assert_eq!(plan.base_id, ObjectId { bytes: vec![0; 20] });
    assert_eq!(plan.side, ConflictMapping::Swapped, "an executable ours is merged as theirs");
    let d = finish_content_merge(&plan, &ours, &theirs, false, id(8), Blob::Complete);
    let c = d.conflict.unwrap();
    assert!(c.entries[0].is_none());
    assert_eq!(c.entries[1].as_ref().unwrap().id, id(2));
    assert!(plan_content_merge(&ours, &theirs, true, ConflictMapping::Original).is_none(), "a blocking leaf is no content merge");
    assert!(plan_content_merge(&addition("f", EntryMode { value: 0o120000 }, 2), &theirs, false, ConflictMapping::Original).is_none());
}

#[test]
fn incompatible_additions_move_one_side_to_a_unique_path() {
    const LINK: EntryMode = EntryMode { value: 0o120000 };
    let ours = addition("f", BLOB, 2);
    let theirs = addition("f", LINK, 3);
    let plan = plan_type_mismatch(&ours, &theirs, false).unwrap();
    assert_eq!(plan.side, ConflictMapping::Swapped, "the symbolic link stays");
    assert!(plan.moved_is_ours);
    let d = finish_type_mismatch(&plan, &ours, &theirs, b"f~ours".to_vec(), None, ConflictMapping::Original);
    assert!(matches!(&d.edit, Some(PairEdit::Upsert { mode, id: stays, .. }) if *mode == LINK && *stays == id(3)));
    assert_eq!(d.untrack, Some((b"f".to_vec(), ConflictMapping::Original)));
    let moved = d.deferred.unwrap();
    assert_eq!((moved.location, moved.entry_mode, moved.id), (b"f~ours".to_vec(), BLOB, id(2)));
    let c = d.conflict.unwrap();
    assert_eq!(
        c.resolution,
        Err(ResolutionFailure::OursAddedTheirsAddedTypeMismatch { their_unique_location: b"f~ours".to_vec() })
    );
    assert!(c.entries[1].is_some() && c.entries[2].is_some());

    let d = finish_type_mismatch(&plan, &ours, &theirs, b"f~ours".to_vec(), Some(ResolveWith::Ours), ConflictMapping::Swapped);
    assert!(matches!(&d.edit, Some(PairEdit::Upsert { mode, .. }) if *mode == BLOB));
    assert!(d.deferred.is_none() && d.conflict.unwrap().entries.iter().all(|e| e.is_none()));
    assert!(plan_type_mismatch(&ours, &addition("f", BLOB, 3), false).is_none(), "blobs merge by content");
}

#[test]
fn a_modified_entry_whose_place_became_a_directory_moves_away() {
    let ours = deletion("f");
    let theirs = modification("f", BLOB, 2);
    let dir = vec![TrackedChange::new(addition("f", TREE, 4), None, None)];
    assert!(plan_modified_replaced(&ours, &theirs, Some(ResolveWith::Ours), &dir, &[]).is_none());
    assert!(plan_modified_replaced(&ours, &theirs, None, &[], &[]).is_none(), "no directory took its place");
    let plan = plan_modified_replaced(&ours, &theirs, None, &dir, &[]).unwrap();
    assert_eq!((plan.location.clone(), plan.side), (b"f".to_vec(), ConflictMapping::Swapped));
    let d = finish_modified_replaced(&plan, &theirs, b"f~theirs".to_vec());
    assert!(matches!(&d.edit, Some(PairEdit::Remove { location }) if location == b"f"));
    assert_eq!(d.untrack, Some((b"f".to_vec(), ConflictMapping::Swapped)));
    assert_eq!((d.ours, d.theirs), (ChangeDisposition::Applied, ChangeDisposition::Processed));
    let moved = d.deferred.unwrap();
    assert_eq!((moved.location, moved.onto, moved.id), (b"f~theirs".to_vec(), ConflictMapping::Swapped, id(2)));
    assert_eq!(
        d.conflict.unwrap().resolution,
        Err(ResolutionFailure::OursModifiedTheirsDirectoryThenOursRenamed {
            renamed_unique_path_to_modified_blob: b"f~theirs".to_vec()
        })
    );
}

#[test]
fn a_modification_follows_a_rename() {
    let ours = modification("f", BLOB, 2);
    let unchanged = Change::Rewrite {
        source_location: b"f".to_vec(),
        source_entry_mode: BLOB,
        source_id: id(1),
        entry_mode: BLOB,
        id: id(1),
        location: b"g".to_vec(),
        relation: None,
        copy: false,
    };
    let plan = plan_modified_renamed(&ours, &unchanged).unwrap();
    assert_eq!((plan.side, plan.merged_mode, plan.destination.clone()), (ConflictMapping::Original, BLOB, b"g".to_vec()));
    assert!(plan.content_merge.is_none(), "the rename kept the content");
    let d = finish_modified_renamed(&plan, &ours, &unchanged, None, None);
    assert!(matches!(&d.edit, Some(PairEdit::Remove { location }) if location == b"f"));
    let carried = d.deferred.unwrap();
    assert_eq!((carried.location, carried.id, carried.onto), (b"g".to_vec(), id(2), ConflictMapping::Swapped));
    match d.conflict.unwrap().resolution {
        Ok(Resolution::OursModifiedTheirsRenamedAndChangedThenRename { merged_mode, merged_blob, final_location }) => {
            assert!(merged_mode.is_none() && merged_blob.is_none() && final_location.is_none())
        }
        other => panic!("the modification is carried: {other:?}"),
    }

    let changed = rename("f", "g");
    let plan = plan_modified_renamed(&changed, &ours).unwrap();
    assert_eq!(plan.side, ConflictMapping::Swapped);
    let (o, t, b) = plan.content_merge.as_ref().unwrap();
    assert_eq!((o.id.clone(), t.id.clone(), b.location.clone()), (id(2), id(2), b"f".to_vec()));
    let d = finish_modified_renamed(&plan, &ours, &changed, Some(b"new/g".to_vec()), Some((id(7), Blob::Complete)));
    assert_eq!(d.deferred.unwrap().location, b"new/g".to_vec());
}

#[test]
fn a_modification_against_a_rename_of_another_type_keeps_both() {
    const LINK: EntryMode = EntryMode { value: 0o120000 };
    let ours = modification("f", LINK, 2);
    let theirs = rename("f", "g");
    assert!(plan_modified_renamed(&ours, &theirs).is_none());
    let d = resolve_pair(&ours, &theirs, None, ConflictMapping::Original, false, &[], &[]).unwrap();
    assert!(matches!(&d.edit, Some(PairEdit::UpsertBoth { location, other_location, .. }) if location == b"f" && other_location == b"g"));
    assert_eq!(d.conflict.unwrap().resolution, Err(ResolutionFailure::OursModifiedTheirsRenamedTypeMismatch));
    let d = resolve_pair(&ours, &theirs, Some(ResolveWith::Ours), ConflictMapping::Swapped, false, &[], &[]).unwrap();
    assert!(matches!(&d.edit, Some(PairEdit::Move { from, location, .. }) if from == b"f" && location == b"g"));
}

#[test]
fn content_merges_may_be_planned_where_modes_merge_as_derived() {
    let ours = modification("f", BLOB, 2);
    let theirs = modification("f", BLOB, 3);
    assert!(gix_plumbing::merge::tree::pair::may_plan_content_merge(&ours, &theirs, false));
    assert!(gix_plumbing::merge::tree::pair::may_plan_content_merge(&deletion("f"), &theirs, false));
}

#[test]
fn changes_are_scheduled_against_the_other_side() {
    let ours = SideState::from_changes(vec![TrackedChange::new(modification("a", BLOB, 2), None, None)]);
    let mut our_changes = ours.changes;
    let unrelated = TrackedChange::new(addition("b", BLOB, 3), None, None);
    assert!(matches!(schedule_change(&unrelated, &ours.tree, &mut our_changes).action, ChangeAction::Apply { relocation: None }));
    let same_path = TrackedChange::new(deletion("a"), None, None);
    let s = schedule_change(&same_path, &ours.tree, &mut our_changes);
    assert!(matches!(s.action, ChangeAction::Pair { ours_idx: 0, match_kind: None }));
    assert!(!s.index_first);
    let tree = TrackedChange::new(addition("d", TREE, 4), None, None);
    assert!(matches!(schedule_change(&tree, &ours.tree, &mut our_changes).action, ChangeAction::Skip));
    assert!(any_pending(&our_changes));
    our_changes[0].mark_applied();
    assert!(!any_pending(&our_changes));
}

#[test]
fn renames_to_different_places_conflict_and_both_stay() {
    let ours = rename("f", "a");
    let theirs = rename("f", "b");
    let plan = plan_renamed_on_both_sides(&ours, &theirs, false, None).unwrap();
    assert!(plan.removes_source && plan.content_merge.is_none(), "both kept the same content");
    assert_eq!((plan.source.clone(), plan.extra_markers), (b"f".to_vec(), 1));
    let d = finish_renamed_on_both_sides(&plan, &ours, &theirs, b"a".to_vec(), b"b".to_vec(), None, None, ConflictMapping::Original);
    assert_eq!(d.conflicts.len(), 1);
    assert_eq!(d.conflicts[0].resolution, Err(ResolutionFailure::OursRenamedTheirsRenamedDifferently { merged_blob: None }));
    assert_eq!(d.our_addition.unwrap().location, b"a".to_vec());
    assert_eq!(d.their_addition.unwrap().location, b"b".to_vec());

    let d = finish_renamed_on_both_sides(&plan, &ours, &theirs, b"a".to_vec(), b"b".to_vec(), None, Some(ResolveWith::Ours), ConflictMapping::Swapped);
    assert_eq!(d.our_addition.unwrap().location, b"b".to_vec(), "the side the merge calls ours wins");
    assert!(d.their_addition.is_none());

    let same = finish_renamed_on_both_sides(&plan, &ours, &theirs, b"a".to_vec(), b"a".to_vec(), None, None, ConflictMapping::Original);
    assert!(same.conflicts.is_empty() && same.our_addition.is_none());
    assert!(plan_renamed_on_both_sides(&rename("f", "a"), &rename("g", "a"), false, None).is_none(), "another rule takes these");
}

#[test]
fn leaves_blocking_directories_move_away() {
    let theirs = TrackedChange::new(addition("f/child", BLOB, 3), None, None);
    match plan_blocking_leaf(&deletion("f"), &theirs, ChangeState::Pending, None) {
        Some(BlockingLeaf::Decided(d)) => assert!(d.defer_theirs && d.edits.is_empty()),
        _ => panic!("the addition waits for the deletion"),
    }
    match plan_blocking_leaf(&deletion("f"), &theirs, ChangeState::Processed, None) {
        Some(BlockingLeaf::Decided(d)) => assert!(!d.defer_theirs),
        _ => panic!("nothing is done"),
    }
    let ours = addition("f", BLOB, 2);
    match plan_blocking_leaf(&ours, &theirs, ChangeState::Pending, None) {
        Some(BlockingLeaf::Relocate { location }) => assert_eq!(location, b"f".to_vec()),
        _ => panic!("our blocking addition moves"),
    }
    let d = finish_blocking_relocation(&ours, b"f~ours".to_vec(), None, ConflictMapping::Original);
    assert_eq!(d.edits.len(), 3);
    assert!(matches!(&d.edits[1], PairEdit::Upsert { location, .. } if location == b"f~ours"));
    assert!(matches!(d.edits[2], PairEdit::ApplyTheirs));
    assert_eq!(d.untrack, vec![(b"f".to_vec(), ConflictMapping::Original)]);
    assert_eq!(d.conflict.unwrap().side, ConflictMapping::Swapped);

    let (edit, c) = resolve_blocked_by_directory(&addition("d", BLOB, 4), b"d~theirs".to_vec(), None, ConflictMapping::Original);
    assert!(matches!(edit, Some(PairEdit::Upsert { location, .. }) if location == b"d~theirs"));
    assert_eq!(
        c.resolution,
        Err(ResolutionFailure::OursDirectoryTheirsNonDirectoryTheirsRenamed { renamed_unique_path_of_theirs: b"d~theirs".to_vec() })
    );
}

#[test]
fn additions_against_modifications_and_renames() {
    let d = resolve_addition_pair(&modification("f", BLOB, 2), &addition("f/x", BLOB, 3), false, None, ConflictMapping::Original).unwrap();
    assert!(d.defer_theirs && d.edits.is_empty());
    let d = resolve_addition_pair(&rename("f", "g"), &addition("f/x", BLOB, 3), false, None, ConflictMapping::Original).unwrap();
    assert_eq!(d.edits.len(), 3);
    assert_eq!((d.ours, d.theirs), (ChangeDisposition::Applied, ChangeDisposition::Applied));
    assert!(resolve_addition_pair(&rename("f", "g"), &addition("fx", BLOB, 3), false, None, ConflictMapping::Original).is_none());
    let d = resolve_addition_pair(&addition("f/x", BLOB, 3), &rename("f", "g"), false, Some(ResolveWith::Ours), ConflictMapping::Original)
        .unwrap();
    assert!(matches!(&d.edits[1], PairEdit::Upsert { location, .. } if location == b"f/x"), "ours is the addition");
}

const LINK: EntryMode = EntryMode { value: 0o120000 };

fn rename_as(from: &str, to: &str, mode: EntryMode, new: u8) -> Change {
    Change::Rewrite {
        source_location: from.as_bytes().to_vec(),
        source_entry_mode: mode,
        source_id: id(1),
        entry_mode: mode,
        id: id(new),
        location: to.as_bytes().to_vec(),
        relation: None,
        copy: false,
    }
}

#[test]
fn renames_of_two_entries_to_one_place() {
    let (ours, theirs) = (rename_as("a", "dst", BLOB, 2), rename_as("b", "dst", BLOB, 2));
    assert!(renames_to_same_destination(&ours, &theirs));
    assert!(!renames_to_same_destination(&ours, &rename_as("a", "dst", BLOB, 3)), "one source");
    match plan_same_destination(&ours, &theirs, None, ConflictMapping::Original) {
        Some(SameDestination::Decided(d)) => {
            assert_eq!(d.edits.len(), 3);
            assert!(matches!(&d.edits[0], PairEdit::Remove { location } if location == b"a"));
            assert!(matches!(&d.edits[1], PairEdit::Remove { location } if location == b"b"));
            assert!(matches!(&d.edits[2], PairEdit::Upsert { location, id: i, .. } if location == b"dst" && *i == id(2)));
            assert_eq!((d.ours, d.theirs), (ChangeDisposition::Applied, ChangeDisposition::Applied));
            assert!(d.conflict.is_none());
        }
        _ => panic!("identical renames need no merge"),
    }
    let theirs = rename_as("b", "dst", BLOB, 3);
    let plan = match plan_same_destination(&ours, &theirs, None, ConflictMapping::Swapped) {
        Some(SameDestination::Merge(plan)) => plan,
        _ => panic!("the blobs merge"),
    };
    assert_eq!((plan.location.clone(), plan.base_id.clone(), plan.side), (b"dst".to_vec(), ObjectId { bytes: vec![0; 20] }, ConflictMapping::Swapped));
    let d = finish_same_destination_merge(&plan, &ours, &theirs, id(9), Blob::Conflict);
    assert!(matches!(&d.edits[2], PairEdit::Upsert { location, id: i, .. } if location == b"dst" && *i == id(9)));
    let c = d.conflict.unwrap();
    assert_eq!(c.entries[1].as_ref().unwrap().id, id(2));
    assert_eq!(c.entries[2].as_ref().unwrap().id, id(3));

    match plan_same_destination(&rename_as("a", "dst", LINK, 2), &theirs, None, ConflictMapping::Original) {
        Some(SameDestination::Relocate(p)) => assert!(p.side == ConflictMapping::Original && !p.moved_is_ours, "the link stays"),
        _ => panic!("a link and a blob are kept apart"),
    }
    assert!(plan_same_destination(&rename_as("a", "dst", COMMIT, 2), &theirs, None, ConflictMapping::Original).is_none());
}

#[test]
fn a_directory_renamed_where_their_rename_lands() {
    let ours = rename_as("d", "e", TREE, 2);
    match plan_renamed_tree(&ours, &rename("f", "e"), false, None, ConflictMapping::Original) {
        Some(RenamedTree::Relocate { location }) => assert_eq!(location, b"e".to_vec()),
        _ => panic!("their entry moves away"),
    }
    let d = finish_renamed_tree_clash(&ours, &rename("f", "e"), b"e~theirs".to_vec(), None, ConflictMapping::Original);
    assert_eq!(d.edits.len(), 2);
    assert!(matches!(&d.edits[0], PairEdit::Remove { location } if location == b"f"));
    assert!(matches!(&d.edits[1], PairEdit::Upsert { location, .. } if location == b"e~theirs"));
    assert_eq!(
        d.conflict.unwrap().resolution,
        Err(ResolutionFailure::OursDirectoryTheirsNonDirectoryTheirsRenamed { renamed_unique_path_of_theirs: b"e~theirs".to_vec() })
    );
    match plan_renamed_tree(&ours, &rename("f", "d"), true, None, ConflictMapping::Original) {
        Some(RenamedTree::Decided(d)) => {
            assert!(matches!(d.edits[..], [PairEdit::ApplyTheirs]));
            assert_eq!(d.theirs, ChangeDisposition::Applied);
        }
        _ => panic!("their entry takes the vacated place"),
    }
    match plan_renamed_tree(&ours, &rename("f", "d"), true, Some(ResolveWith::Ours), ConflictMapping::Swapped) {
        Some(RenamedTree::Decided(d)) => assert!(matches!(d.edits[..], [PairEdit::ApplyOurResolution])),
        _ => panic!("forced to ours"),
    }
    assert!(plan_renamed_tree(&ours, &rename("f", "d"), false, None, ConflictMapping::Original).is_none());
}

#[test]
fn a_rename_meets_an_addition() {
    let w = rename_as("a", "dst", BLOB, 2);
    let a = addition("dst", BLOB, 3);
    let plan = match plan_rename_addition(&a, &w, None, ConflictMapping::Original) {
        Some(RenameAddition::Merge(plan)) => plan,
        _ => panic!("the contents merge"),
    };
    assert_eq!((plan.side, plan.source.clone()), (ConflictMapping::Swapped, b"a".to_vec()));
    let (x, y, z) = plan.content_merge.as_ref().unwrap();
    assert_eq!((x.id.clone(), y.id.clone(), z.location.clone()), (id(2), id(3), b"a".to_vec()));
    let d = finish_rename_addition_merge(&plan, &w, &a, Some((id(9), Blob::Complete)));
    assert!(matches!(&d.edits[0], PairEdit::Remove { location } if location == b"a"));
    assert!(matches!(&d.edits[1], PairEdit::Upsert { location, id: i, .. } if location == b"dst" && *i == id(9)));
    assert!(d.conflict.is_some());

    let link = rename_as("a", "dst", LINK, 2);
    let plan = match plan_rename_addition(&link, &a, None, ConflictMapping::Original) {
        Some(RenameAddition::Relocate(plan)) => plan,
        _ => panic!("a link and a blob do not merge"),
    };
    assert!(!plan.label_is_ours, "the addition moves");
    let m = finish_rename_addition_mismatch(&plan, &link, &a, b"dst~theirs".to_vec(), None, ConflictMapping::Original);
    let (x, onto) = m.deferred.unwrap();
    assert_eq!((x.location, x.id, onto), (b"dst~theirs".to_vec(), id(3), ConflictMapping::Swapped));
    assert_eq!(
        m.steps.conflict.unwrap().resolution,
        Err(ResolutionFailure::OursAddedTheirsAddedTypeMismatch { their_unique_location: b"dst~theirs".to_vec() })
    );

    match plan_rename_addition(&rename_as("a", "s", COMMIT, 2), &addition("s", COMMIT, 3), None, ConflictMapping::Original) {
        Some(RenameAddition::Decided(d)) => {
            assert_eq!(d.conflict.unwrap().resolution, Err(ResolutionFailure::SubmoduleAddAdd))
        }
        _ => panic!("submodules conflict"),
    }
    assert!(plan_rename_addition(&w, &rename("b", "dst"), None, ConflictMapping::Original).is_none());
}

#[test]
fn pairs_no_rule_takes_are_unknown_conflicts() {
    let d = resolve_unknown_pair(None, ConflictMapping::Original);
    assert!(d.edits.is_empty());
    assert_eq!(d.conflict.unwrap().resolution, Err(ResolutionFailure::Unknown));
    let d = resolve_unknown_pair(Some(ResolveWith::Ours), ConflictMapping::Swapped);
    assert!(matches!(d.edits[..], [PairEdit::ApplyOurResolution]));
    assert_eq!((d.ours, d.theirs), (ChangeDisposition::Processed, ChangeDisposition::Applied));
}
