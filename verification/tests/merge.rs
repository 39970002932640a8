use gix_plumbing::find::Never;
use gix_plumbing::hash::HashKind;
use gix_plumbing::merge::tree::{pick_mut, Outcome};
use gix_plumbing::object_tree::editor::Editor;
use gix_plumbing::object_tree::Tree;
use gix_plumbing::merge::blob::{BuiltinDriver, Data, Driver, DriverChoice, IdSource, PlatformRef, Pick, Resource};
use gix_plumbing::merge::tree::utils::Change;
use gix_plumbing::merge::tree::{
    ConflictIndexEntry, involves_submodule, merge_modes, merge_modes_prev, Conflict, ConflictMapping, ContentMerge, ContentMergeTreatment,
    EntryMode, PossibleConflict, Resolution, ResolutionFailure, TreatAsUnresolved, TreeMerge,
};
use gix_plumbing::hash::ObjectId;
use gix_plumbing::merge::blob::Resolution as Blob;

const BLOB: EntryMode = EntryMode { value: 0o100644 };
const EXE: EntryMode = EntryMode { value: 0o100755 };
const LINK: EntryMode = EntryMode { value: 0o120000 };
const COMMIT: EntryMode = EntryMode { value: 0o160000 };

#[test]
fn presets() {
    assert_eq!(TreatAsUnresolved::git(), TreatAsUnresolved::default());
    assert_eq!(TreatAsUnresolved::forced_resolution().tree_merge, TreeMerge::ForcedResolution);
    assert_eq!(TreatAsUnresolved::undecidable().content_merge, ContentMergeTreatment::Markers);
}

#[test]
fn modes_merge() {
    assert_eq!(merge_modes(BLOB, BLOB), Some(BLOB));
    assert_eq!(merge_modes(BLOB, EXE), Some(EXE));
    assert_eq!(merge_modes(EXE, BLOB), Some(EXE));
    assert_eq!(merge_modes(BLOB, LINK), None);
    assert_eq!(merge_modes_prev(BLOB, EXE, BLOB), Some(EXE), "enabling the bit wins");
    assert_eq!(merge_modes_prev(BLOB, EXE, EXE), Some(BLOB), "disabling the bit wins");
    assert!(involves_submodule(&BLOB, &COMMIT));
    assert!(!involves_submodule(&BLOB, &LINK));
}

fn change(location: &str) -> Change {
    Change::Addition { location: location.as_bytes().to_vec(), relation: None, entry_mode: BLOB, id: ObjectId { bytes: vec![0; 20] } }
}

fn location(change: &Change) -> &[u8] {
    change.location()
}

#[test]
fn swapped_conflicts_report_their_sides_in_resolution_order() {
    let entry = |byte: u8| Some(ConflictIndexEntry { mode: BLOB, id: ObjectId { bytes: vec![byte; 20] }, path_hint: None });
    let swapped = Conflict::maybe_resolved(
        Err(ResolutionFailure::OursModifiedTheirsDeleted),
        change("ours"),
        change("theirs"),
        ConflictMapping::Swapped,
        ConflictMapping::Original,
        [entry(0), entry(1), entry(2)],
    );
    let (first, second) = swapped.changes_in_resolution();
    assert_eq!((location(first), location(second)), (b"theirs".as_slice(), b"ours".as_slice()));
    let ids: Vec<u8> = swapped.entries().iter().map(|e| e.as_ref().unwrap().id.bytes[0]).collect();
    assert_eq!(ids, vec![0, 2, 1]);
    let (_, first, second) = swapped.into_parts_by_resolution();
    assert_eq!((location(&first), location(&second)), (b"theirs".as_slice(), b"ours".as_slice()));

    let original = Conflict::maybe_resolved(
        Err(ResolutionFailure::OursModifiedTheirsDeleted),
        change("ours"),
        change("theirs"),
        ConflictMapping::Original,
        ConflictMapping::Original,
        [entry(0), None, entry(2)],
    );
    assert!(original.entries()[1].is_none());
    assert_eq!(location(original.changes_in_resolution().0), b"ours");
}

fn blob(resolution: gix_plumbing::merge::blob::Resolution) -> ContentMerge {
    ContentMerge { merged_blob_id: ObjectId { bytes: vec![1; 20] }, resolution }
}

#[test]
fn unresolved_conflicts_depend_on_the_preset() {
    let auto = Conflict::maybe_resolved(
        Ok(Resolution::OursModifiedTheirsModifiedThenBlobContentMerge {
            merged_blob: blob(Blob::CompleteWithAutoResolvedConflict),
        }),
        change("a"),
        change("b"),
        ConflictMapping::Original,
        ConflictMapping::Original,
        [None, None, None],
    );
    assert!(!auto.is_unresolved(TreatAsUnresolved::undecidable()));
    assert!(!auto.is_unresolved(TreatAsUnresolved::git()));
    assert!(auto.is_unresolved(TreatAsUnresolved::forced_resolution()));

    let forced = Conflict::maybe_resolved(
        Ok(Resolution::Forced(ResolutionFailure::OursModifiedTheirsDeleted)),
        change("a"),
        change("b"),
        ConflictMapping::Original,
        ConflictMapping::Swapped,
        [None, None, None],
    );
    assert!(forced.is_swapped());
    assert!(!forced.is_unresolved(TreatAsUnresolved::git()));
    assert!(forced.is_unresolved(TreatAsUnresolved::forced_resolution()));

    let failed = Conflict::maybe_resolved(
        Err(ResolutionFailure::OursRenamedTheirsRenamedDifferently { merged_blob: Some(blob(Blob::Conflict)) }),
        change("a"),
        change("b"),
        ConflictMapping::Swapped,
        ConflictMapping::Swapped,
        [None, None, None],
    );
    assert!(!failed.is_swapped());
    assert!(failed.is_unresolved(TreatAsUnresolved::undecidable()));
    assert_eq!(failed.content_merge().map(|m| m.resolution), Some(Blob::Conflict));
}

#[test]
fn possible_conflict_change_idx() {
    assert_eq!(PossibleConflict::Match { change_idx: 3 }.change_idx(), Some(3));
    assert_eq!(PossibleConflict::TreeToNonTree { change_idx: None }.change_idx(), None);
}

#[test]
fn blob_platform_picks() {
    let drivers = vec![Driver { name: b"custom".to_vec(), command: b"merge %A".to_vec(), recursive: None }];
    let null = ObjectId { bytes: vec![0; 20] };
    let some = ObjectId { bytes: vec![7; 20] };
    let platform = PlatformRef {
        drivers: &drivers,
        driver: DriverChoice::Index(0),
        ancestor: Resource { id: some.clone(), data: Data::TooLarge { size: 10 } },
        current: Resource { id: null.clone(), data: Data::Buffer(b"ours") },
        other: Resource { id: null.clone(), data: Data::Missing },
    };
    assert_eq!(platform.configured_driver().unwrap().name, b"custom".to_vec());
    let missing = PlatformRef { driver: DriverChoice::Index(5), ..platform };
    assert_eq!(missing.configured_driver().unwrap_err(), BuiltinDriver::Text);
    assert_eq!(missing.buffer_by_pick(Pick::Ours), Ok(Some(b"ours".as_slice())));
    assert_eq!(missing.buffer_by_pick(Pick::Theirs), Ok(Some(b"".as_slice())));
    assert_eq!(missing.buffer_by_pick(Pick::Ancestor), Err(()));
    assert_eq!(missing.buffer_by_pick(Pick::Buffer), Ok(None));
    assert_eq!(missing.id_by_pick(Pick::Buffer, b"new"), IdSource::Write(b"new"));
    assert_eq!(missing.id_by_pick(Pick::Ours, b"new"), IdSource::Write(b"ours"));
    assert_eq!(missing.id_by_pick(Pick::Ancestor, b"new"), IdSource::Existing(some));
    assert_eq!(missing.id_by_pick(Pick::Theirs, b"new"), IdSource::Unavailable);
    assert!(gix_plumbing::merge::blob::is_binary_buf(Data::Buffer(b"a\0b")));
    assert!(!gix_plumbing::merge::blob::is_binary_buf(Data::Buffer(b"text")));
}

#[test]
fn outcomes_report_unresolved_conflicts() {

    let resolved = Conflict::maybe_resolved(
        Ok(Resolution::Forced(ResolutionFailure::OursModifiedTheirsDeleted)),
        change("a"),
        change("b"),
        ConflictMapping::Original,
        ConflictMapping::Original,
        [None, None, None],
    );
    let mut outcome = Outcome {
        tree: Editor::new(Tree { entries: vec![] }, &Never, HashKind::Sha1),
        conflicts: vec![resolved],
        failed_on_first_unresolved_conflict: false,
    };
    assert!(!outcome.has_unresolved_conflicts(TreatAsUnresolved::git()));
    assert!(outcome.has_unresolved_conflicts(TreatAsUnresolved::forced_resolution()));
    outcome.conflicts.push(Conflict::maybe_resolved(
        Err(ResolutionFailure::Unknown),
        change("c"),
        change("d"),
        ConflictMapping::Original,
        ConflictMapping::Original,
        [None, None, None],
    ));
    assert!(outcome.has_unresolved_conflicts(TreatAsUnresolved::undecidable()));
}

#[test]
fn pick_mut_changes_the_picked_side() {
    let (mut ours, mut theirs) = (1, 2);
    *pick_mut(ConflictMapping::Swapped, &mut ours, &mut theirs) = 3;
    assert_eq!((ours, theirs), (1, 3));
    *pick_mut(ConflictMapping::Original, &mut ours, &mut theirs) = 4;
    assert_eq!((ours, theirs), (4, 3));
}
