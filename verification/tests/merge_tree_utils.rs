use gix_plumbing::find::Never;
use gix_plumbing::hash::{HashKind, ObjectId};
use gix_plumbing::merge::tree::utils::{
    apply_change, possibly_rewritten_location, rewrite_location_with_renamed_directory, to_components, to_components_bstring_ref, track,
    unique_path_in_tree, Change, ChangeDisposition, ChangeState, TrackedChange, TreeNodes,
};
use gix_plumbing::merge::tree::{EntryKind, EntryMode, PossibleConflict};
use gix_plumbing::object_tree::editor::Editor;
use gix_plumbing::object_tree::Tree;

fn null() -> ObjectId {
    ObjectId { bytes: vec![0; 20] }
}

fn id(byte: u8) -> ObjectId {
    ObjectId { bytes: vec![byte; 20] }
}

fn addition(location: &str, kind: EntryKind) -> Change {
    Change::Addition { location: location.as_bytes().to_vec(), relation: None, entry_mode: EntryMode::from_kind(kind), id: null() }
}

fn rewrite(from: &str, to: &str, kind: EntryKind, copy: bool) -> Change {
    Change::Rewrite {
        source_location: from.as_bytes().to_vec(),
        source_entry_mode: EntryMode::from_kind(kind),
        source_id: null(),
        entry_mode: EntryMode::from_kind(kind),
        id: id(9),
        location: to.as_bytes().to_vec(),
        relation: None,
        copy,
    }
}

fn path(p: &str) -> Vec<&[u8]> {
    p.split('/').map(|c| c.as_bytes()).collect()
}

#[test]
fn removing_an_absent_nested_change_does_not_remove_a_matching_root_suffix() {
    let mut tree = TreeNodes::new();
    tree.track_change(&addition("b", EntryKind::Blob), 42);

    tree.remove_change(b"a/b");
    assert!(
        matches!(tree.check_conflict(b"b"), Some(PossibleConflict::Match { change_idx: 42 })),
        "a missing `a` prefix must stop removal before an unrelated root-level `b`"
    );
}

#[test]
fn removing_a_change_prunes_empty_parent_nodes() {
    let mut tree = TreeNodes::new();
    tree.track_change(&addition("e/e", EntryKind::Blob), 0);

    tree.remove_existing_change(b"e/e");
    assert!(
        tree.check_conflict(b"e").is_none(),
        "an empty former parent isn't a leaf change or a path conflict"
    );
}

#[test]
fn passing_a_rewritten_directory_does_not_occupy_every_path_below_it() {
    let mut tree = TreeNodes::new();
    tree.track_change(&rewrite("old", "new", EntryKind::Tree, false), 0);
    tree.track_change(
        &Change::Modification {
            location: b"old/existing".to_vec(),
            previous_entry_mode: EntryMode::from_kind(EntryKind::Blob),
            previous_id: null(),
            entry_mode: EntryMode::from_kind(EntryKind::Blob),
            id: null(),
        },
        1,
    );

    assert!(
        matches!(
            tree.check_conflict(b"old/file~side"),
            Some(PossibleConflict::PassedRewrittenDirectory { change_idx: 0 })
        ),
        "the path still has to follow the directory rename"
    );
}

#[test]
fn a_tracked_tree_without_tracked_children_does_not_occupy_paths_below_it() {
    let mut tree = TreeNodes::new();
    tree.track_change(&addition("dir", EntryKind::Tree), 0);

    assert!(
        !matches!(tree.check_conflict(b"dir/file~side"), Some(PossibleConflict::NonTreeToTree { .. })),
        "a tracked tree permits children even if no child change is currently tracked"
    );
}

#[test]
fn unique_path_qualifies_a_non_tree_parent_instead_of_looping_over_child_names() {
    let mut tree = TreeNodes::new();
    tree.track_change(&addition("dir", EntryKind::Blob), 0);
    let editor = Editor::new(Tree { entries: vec![] }, &Never, HashKind::Sha1);

    assert_eq!(
        unique_path_in_tree(b"dir/file", &editor, &tree, b"OURS").unwrap(),
        b"dir~OURS/file",
        "the blocking path component itself must be moved aside"
    );
}

#[test]
fn unique_paths_count_up_while_taken() {
    let tree = TreeNodes::new();
    let mut editor = Editor::new(Tree { entries: vec![] }, &Never, HashKind::Sha1);
    editor.upsert(&path("a/b~ours"), EntryKind::Blob, id(1)).unwrap();
    editor.upsert(&path("a/b~ours_0"), EntryKind::Blob, id(1)).unwrap();
    assert_eq!(unique_path_in_tree(b"a/b", &editor, &tree, b"ours").unwrap(), b"a/b~ours_1");
    assert_eq!(unique_path_in_tree(b"x", &editor, &tree, b"o/s").unwrap(), b"x~o_s", "slashes become underscores");
}

#[test]
fn exact_matches_and_trees_in_the_way() {
    let mut tree = TreeNodes::new();
    assert!(tree.check_conflict(b"a").is_none(), "an empty index overlaps nothing");
    tree.track_change(&addition("a/b", EntryKind::Blob), 3);
    assert!(matches!(tree.check_conflict(b"a/b"), Some(PossibleConflict::Match { change_idx: 3 })));
    assert!(matches!(tree.check_conflict(b"a"), Some(PossibleConflict::TreeToNonTree { change_idx: None })));
    assert!(matches!(tree.check_conflict(b"a/b/c"), Some(PossibleConflict::NonTreeToTree { change_idx: Some(3) })));
    assert!(tree.check_conflict(b"z").is_none());
}

#[test]
fn non_tree_changes_take_over_a_path_from_tree_changes() {
    let mut tree = TreeNodes::new();
    tree.track_change(&addition("x", EntryKind::Tree), 1);
    tree.track_change(&addition("x", EntryKind::Blob), 2);
    assert!(matches!(tree.check_conflict(b"x"), Some(PossibleConflict::Match { change_idx: 2 })));
    tree.track_change(&addition("x", EntryKind::Tree), 3);
    assert!(matches!(tree.check_conflict(b"x"), Some(PossibleConflict::Match { change_idx: 2 })), "kept");
}

#[test]
fn renamed_destinations_are_no_rewritten_directories() {
    let mut tree = TreeNodes::new();
    tree.track_change(&rewrite("old", "new", EntryKind::Tree, false), 0);
    tree.track_change(&addition("new/inner", EntryKind::Blob), 1);
    assert!(tree.check_conflict(b"new/other").is_none(), "their path is already at the destination");
}

#[test]
fn inserted_changes_are_found() {
    let mut tree = TreeNodes::new();
    tree.insert(&addition("p/q", EntryKind::Blob), 5);
    assert!(matches!(tree.check_conflict(b"p/q"), Some(PossibleConflict::Match { change_idx: 5 })));
}

#[test]
fn rewritten_locations_follow_directory_renames() {
    let dir_rename = rewrite("a", "b", EntryKind::Tree, false);
    assert_eq!(rewrite_location_with_renamed_directory(b"a/file", &dir_rename).unwrap(), b"b/file");
    assert!(rewrite_location_with_renamed_directory(b"c/file", &dir_rename).is_none());
    let file_rename = rewrite("a", "b", EntryKind::Blob, false);
    assert!(rewrite_location_with_renamed_directory(b"a/file", &file_rename).is_none());
    assert!(rewrite_location_with_renamed_directory(b"a/file", &addition("a", EntryKind::Tree)).is_none());

    let mut ours = Vec::new();
    track(dir_rename, &mut ours);
    let mut tree = TreeNodes::new();
    tree.track_change(&ours[0].inner, 0);
    tree.track_change(&addition("a/existing", EntryKind::Blob), 1);
    assert_eq!(possibly_rewritten_location(&tree, b"a/new-file", &ours).unwrap(), b"b/new-file");
    assert!(possibly_rewritten_location(&tree, b"elsewhere", &ours).is_none());
}

#[test]
fn tracking_skips_tree_modifications_and_turns_copies_into_additions() {
    let mut changes = Vec::new();
    track(
        Change::Modification {
            location: b"dir".to_vec(),
            previous_entry_mode: EntryMode::from_kind(EntryKind::Tree),
            previous_id: null(),
            entry_mode: EntryMode::from_kind(EntryKind::Tree),
            id: null(),
        },
        &mut changes,
    );
    assert!(changes.is_empty());
    track(rewrite("a", "b", EntryKind::Blob, true), &mut changes);
    assert!(matches!(&changes[0].inner, Change::Addition { location, .. } if location == b"b"));
    assert_eq!(changes[0].state, ChangeState::Pending);
    track(addition("t", EntryKind::Tree), &mut changes);
    assert_eq!(changes[1].state, ChangeState::Applied, "trees start out applied");
}

#[test]
fn change_states_never_go_back_from_applied() {
    let mut change = TrackedChange::new(addition("a", EntryKind::Blob), None, None);
    assert!(change.is_pending());
    change.mark(ChangeDisposition::Applied);
    change.mark_processed();
    assert!(change.was_applied());
    let mut other = TrackedChange::new(addition("a", EntryKind::Blob), None, None);
    other.mark(ChangeDisposition::Processed);
    assert!(other.was_processed_without_application());
    other.mark_applied();
    assert!(other.was_applied());
}

#[test]
fn applying_changes_edits_the_tree() {
    let mut editor = Editor::new(Tree { entries: vec![] }, &Never, HashKind::Sha1);
    let add = Change::Addition { location: b"a/b".to_vec(), relation: None, entry_mode: EntryMode::from_kind(EntryKind::Blob), id: id(1) };
    apply_change(&mut editor, &add, None).unwrap();
    assert_eq!(editor.get(&path("a/b")).unwrap().oid, id(1));
    apply_change(&mut editor, &rewrite("a/b", "c", EntryKind::Blob, false), None).unwrap();
    assert!(editor.get(&path("a/b")).is_none());
    assert_eq!(editor.get(&path("c")).unwrap().oid, id(9));
    apply_change(&mut editor, &rewrite("c", "d", EntryKind::Blob, true), Some(b"e")).unwrap();
    assert!(editor.get(&path("c")).is_some(), "copies keep their source");
    assert!(editor.get(&path("e")).is_some(), "the alternative location wins");
    let delete = Change::Deletion { location: b"c".to_vec(), relation: None, entry_mode: EntryMode::from_kind(EntryKind::Blob), id: id(9) };
    apply_change(&mut editor, &delete, None).unwrap();
    assert!(editor.get(&path("c")).is_none());
    apply_change(&mut editor, &addition("t", EntryKind::Tree), None).unwrap();
    assert!(editor.get(&path("t")).is_none(), "trees are applied through their leaves");
}

#[test]
fn components_split_at_slashes() {
    assert_eq!(to_components(b"a/b/c"), vec![b"a".to_vec(), b"b".to_vec(), b"c".to_vec()]);
    assert_eq!(to_components(b""), vec![Vec::<u8>::new()]);
    assert_eq!(to_components(b"a/"), vec![b"a".to_vec(), Vec::new()]);
    assert_eq!(to_components_bstring_ref(&b"x/y".to_vec()), vec![b"x".to_vec(), b"y".to_vec()]);
}
