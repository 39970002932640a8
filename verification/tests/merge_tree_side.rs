use gix_plumbing::find::Never;
use gix_plumbing::hash::{HashKind, ObjectId};
use gix_plumbing::merge::tree::side::{
    apply_change_and_mark, apply_our_resolution, changes_equal, matching, pair, push_deferred,
    push_deferred_with_rewrite, MatchKind, SideState,
};
use gix_plumbing::merge::tree::utils::{Change, ChangeDisposition, ChangeState, Relation, TrackedChange};
use gix_plumbing::merge::tree::{ConflictMapping, EntryKind, EntryMode, PossibleConflict};
use gix_plumbing::object_tree::editor::Editor;
use gix_plumbing::object_tree::Tree;
use std::cmp::Ordering;

fn id(byte: u8) -> ObjectId {
    ObjectId { bytes: vec![byte; 20] }
}

fn blob() -> EntryMode {
    EntryMode::from_kind(EntryKind::Blob)
}

fn deletion(location: &str) -> Change {
    Change::Deletion { location: location.as_bytes().to_vec(), relation: None, entry_mode: blob(), id: id(1) }
}

fn modification(location: &str, to: u8) -> Change {
    Change::Modification {
        location: location.as_bytes().to_vec(),
        previous_entry_mode: blob(),
        previous_id: id(1),
        entry_mode: blob(),
        id: id(to),
    }
}

fn rewrite(from: &str, to: &str, source: u8, relation: Option<Relation>) -> Change {
    Change::Rewrite {
        source_location: from.as_bytes().to_vec(),
        source_entry_mode: blob(),
        source_id: id(source),
        entry_mode: blob(),
        id: id(source),
        location: to.as_bytes().to_vec(),
        relation,
        copy: false,
    }
}

fn scheduled(changes: Vec<Change>) -> Vec<TrackedChange> {
    changes.into_iter().map(|c| TrackedChange::new(c, None, None)).collect()
}

#[test]
fn sides_index_each_change_by_its_position() {
    let side = SideState::from_changes(scheduled(vec![deletion("a"), modification("b/c", 2)]));
    assert_eq!(side.tree.check_conflict(b"a"), Some(PossibleConflict::Match { change_idx: 0 }));
    assert_eq!(side.tree.check_conflict(b"b/c"), Some(PossibleConflict::Match { change_idx: 1 }));
    assert_eq!(side.tree.check_conflict(b"d"), None);
}

#[test]
fn unrelated_rewrites_of_one_source_are_ambiguous() {
    let plain = SideState::from_changes(scheduled(vec![rewrite("a", "b", 5, None), rewrite("c", "d", 6, None)]));
    assert!(!plain.has_ambiguous_rewrite_sources());
    let ambiguous = SideState::from_changes(scheduled(vec![rewrite("a", "b", 5, None), rewrite("c", "d", 5, None)]));
    assert!(ambiguous.has_ambiguous_rewrite_sources());
    let related =
        SideState::from_changes(scheduled(vec![rewrite("a", "b", 5, None), rewrite("c", "d", 5, Some(Relation::ChildOfParent(1)))]));
    assert!(!related.has_ambiguous_rewrite_sources(), "rewrites within a rewritten directory do not count");
}

#[test]
fn scheduling_compares_source_then_destination_paths() {
    let a = SideState::from_changes(scheduled(vec![rewrite("a", "b", 5, None)]));
    let b = SideState::from_changes(scheduled(vec![rewrite("a", "c", 5, None)]));
    let longer = SideState::from_changes(scheduled(vec![rewrite("a", "b", 5, None), deletion("z")]));
    assert_eq!(a.cmp_for_scheduling(&b), Ordering::Less);
    assert_eq!(b.cmp_for_scheduling(&a), Ordering::Greater);
    assert_eq!(a.cmp_for_scheduling(&a), Ordering::Equal);
    assert_eq!(a.cmp_for_scheduling(&longer), Ordering::Less, "a prefix comes first");
}

#[test]
fn identical_deletions_need_no_resolution_and_count_as_applied() {
    let mut ours = SideState::from_changes(scheduled(vec![deletion("a")]));
    let found = matching(&deletion("a"), None, None, &ours.tree, &mut ours.changes);
    assert_eq!(found, None);
    assert_eq!(ours.changes[0].state, ChangeState::Applied);
}

#[test]
fn differing_changes_at_one_path_match() {
    let mut ours = SideState::from_changes(scheduled(vec![modification("a", 2)]));
    let found = matching(&modification("a", 3), None, None, &ours.tree, &mut ours.changes);
    assert_eq!(found, Some(PossibleConflict::Match { change_idx: 0 }));
    assert_eq!(ours.changes[0].state, ChangeState::Pending);
    let ignored = matching(&modification("a", 3), Some(Some(0)), None, &ours.tree, &mut ours.changes);
    assert_eq!(ignored, None, "a deferred change does not find the change that deferred it");
    let elsewhere = matching(&modification("x", 3), None, Some(&(b"a".to_vec(), 0)), &ours.tree, &mut ours.changes);
    assert_eq!(elsewhere, Some(PossibleConflict::Match { change_idx: 0 }), "a rewritten location is checked first");
}

#[test]
fn applied_deletions_of_ours_are_not_found_again() {
    let mut ours = SideState::from_changes(scheduled(vec![deletion("a")]));
    ours.changes[0].mark_applied();
    assert_eq!(matching(&modification("a", 3), None, None, &ours.tree, &mut ours.changes), None);
}

#[test]
fn rewrites_are_checked_at_their_destination_against_rewrites_only() {
    let mut ours = SideState::from_changes(scheduled(vec![rewrite("x", "b", 7, None)]));
    let found = matching(&rewrite("y", "b", 8, None), None, None, &ours.tree, &mut ours.changes);
    assert_eq!(found, Some(PossibleConflict::Match { change_idx: 0 }));
    let mut ours = SideState::from_changes(scheduled(vec![modification("b", 2)]));
    let found = matching(&rewrite("y", "b", 8, None), None, None, &ours.tree, &mut ours.changes);
    assert_eq!(found, None);
}

#[test]
fn candidates_pair_by_their_kind() {
    let ours = scheduled(vec![deletion("a"), modification("b", 2)]);
    assert_eq!(pair(&PossibleConflict::Match { change_idx: 1 }, &ours), (Some(1), None));
    assert_eq!(
        pair(&PossibleConflict::TreeToNonTree { change_idx: Some(0) }, &ours),
        (Some(0), Some(MatchKind::EraseTree))
    );
    assert_eq!(pair(&PossibleConflict::TreeToNonTree { change_idx: Some(1) }, &ours), (None, None));
    assert_eq!(
        pair(&PossibleConflict::NonTreeToTree { change_idx: None }, &ours),
        (None, Some(MatchKind::EraseLeaf))
    );
    assert_eq!(pair(&PossibleConflict::PassedRewrittenDirectory { change_idx: 0 }, &ours), (None, None));
}

#[test]
fn deferred_changes_wait_for_insertion() {
    let mut changes = Vec::new();
    push_deferred((deletion("a"), Some(3)), &mut changes);
    push_deferred_with_rewrite((deletion("b"), None), Some((b"c".to_vec(), 1)), &mut changes);
    assert_eq!(changes[0].needs_tree_insertion, Some(Some(3)));
    assert_eq!(changes[0].state, ChangeState::Pending);
    assert_eq!(changes[1].needs_tree_insertion, Some(None));
    assert_eq!(changes[1].rewritten_location, Some((b"c".to_vec(), 1)));
}

#[test]
fn equal_changes_compare_by_all_their_fields() {
    assert!(changes_equal(&deletion("a"), &deletion("a")));
    assert!(!changes_equal(&deletion("a"), &deletion("b")));
    assert!(!changes_equal(&modification("a", 2), &modification("a", 3)));
    assert!(!changes_equal(&rewrite("a", "b", 1, None), &rewrite("a", "b", 1, Some(Relation::Parent(1)))));
}

#[test]
fn resolutions_apply_the_outer_ours() {
    let mut editor = Editor::new(Tree { entries: vec![] }, &Never, HashKind::Sha1);
    let add = Change::Addition { location: b"f".to_vec(), relation: None, entry_mode: blob(), id: id(4) };
    let mut disposition = ChangeDisposition::Processed;
    apply_change_and_mark(&mut editor, &add, &mut disposition).unwrap();
    assert_eq!(disposition, ChangeDisposition::Applied);
    assert_eq!(editor.get(&[b"f".as_slice()]).unwrap().oid, id(4));

    let other = Change::Addition { location: b"g".to_vec(), relation: None, entry_mode: blob(), id: id(5) };
    let (mut ours, mut theirs) = (ChangeDisposition::Processed, ChangeDisposition::Processed);
    apply_our_resolution(&add, &other, ConflictMapping::Swapped, &mut editor, &mut ours, &mut theirs).unwrap();
    assert_eq!((ours, theirs), (ChangeDisposition::Processed, ChangeDisposition::Applied));
    assert_eq!(editor.get(&[b"g".as_slice()]).unwrap().oid, id(5));
}
