use gix_plumbing::hash::{HashKind, ObjectId};
use gix_plumbing::merge::commit::{choose_merge_base, CommitError, MergeBase};
use gix_plumbing::merge::index::{apply_index_entries, IndexState};
use gix_plumbing::merge::tree::RemovalMode;
use gix_plumbing::merge::blob::{
    binary_merge, driver_command_line, BinaryResolveWith, BlobMerge, BuiltinDriver, Data, Driver, DriverChoice,
    DriverPlaceholders, PlatformRef, Pick, Resolution as Blob, Resource, ResourceKind,
};
use gix_plumbing::merge::tree::side::{first_outer_side, SideState};
use gix_plumbing::merge::tree::utils::{blob_merge_shortcut, combined_label, conflict_marker_size, Change};
use gix_plumbing::merge::tree::{
    tree_merge_step, Conflict, ConflictIndexEntry, ConflictIndexEntryPathHint, ConflictMapping, ConflictRules, EntryMode,
    Resolution, ResolutionFailure, ResolveWith, TreatAsUnresolved, TreeMergeAction, TreeMergeEvent, TreeMergeState,
};
use gix_plumbing::signature::verify::{
    gpg_verdict, ssh_verify_step, ProgramOutput, SshPhase, SshVerifyAction, SshVerifyEvent, SshVerifyState, Status,
    TrustLevel,
};
use gix_plumbing::signature::Format;

const BLOB: EntryMode = EntryMode { value: 0o100644 };
const LINK: EntryMode = EntryMode { value: 0o120000 };

fn id(b: u8) -> ObjectId {
    ObjectId { bytes: vec![b; 20] }
}

fn ran(success: bool, stdout: &[u8]) -> SshVerifyEvent {
    SshVerifyEvent::Ran(ProgramOutput { success, stdout: stdout.to_vec(), stderr: Vec::new() })
}

const GOOD: &[u8] = b"Good \"git\" signature for alice with ED25519 key SHA256:abc\n";

#[test]
fn ssh_verification_accepts_the_first_principal_that_verifies() {
    let state = SshVerifyState { minimum_trust: TrustLevel::Fully, phase: SshPhase::Start };
    let (state, action) = ssh_verify_step(state, SshVerifyEvent::Begin);
    assert!(matches!(action, SshVerifyAction::FindPrincipals));
    let (state, action) = ssh_verify_step(state, ran(true, b"bob\n\n alice \n"));
    assert!(matches!(action, SshVerifyAction::Verify { ref principal } if principal == b"bob"));
    let (state, action) = ssh_verify_step(state, ran(false, b"Could not verify\n"));
    assert!(matches!(action, SshVerifyAction::Verify { ref principal } if principal == b"alice"));
    let (state, action) = ssh_verify_step(state, ran(true, GOOD));
    match action {
        SshVerifyAction::Finish(outcome) => {
            assert!(outcome.is_valid());
            assert_eq!(outcome.status, Status::Good);
            assert_eq!(outcome.trust_level, TrustLevel::Fully);
            assert_eq!(outcome.signer.as_deref(), Some(b"alice".as_slice()));
            assert_eq!(outcome.fingerprint.as_deref(), Some(b"SHA256:abc".as_slice()));
            assert_eq!(outcome.format, Format::Ssh);
        }
        _ => panic!("the accepted principal finishes the verification"),
    }
    assert!(matches!(state.phase, SshPhase::Done));
    let (_, action) = ssh_verify_step(state, ran(true, GOOD));
    assert!(matches!(action, SshVerifyAction::Nothing));
}

#[test]
fn ssh_verification_without_principals_checks_without_validating() {
    let state = SshVerifyState { minimum_trust: TrustLevel::Undefined, phase: SshPhase::FindingPrincipals };
    let (state, action) = ssh_verify_step(state, ran(false, b""));
    assert!(matches!(action, SshVerifyAction::CheckNoValidate));
    let (_, action) = ssh_verify_step(state, ran(true, GOOD));
    match action {
        SshVerifyAction::Finish(outcome) => {
            assert_eq!(outcome.status, Status::Good);
            assert_eq!(outcome.trust_level, TrustLevel::Undefined);
            assert_eq!(outcome.signer, None);
            assert!(!outcome.is_valid(), "check-novalidate never counts as a successful verification");
        }
        _ => panic!("check-novalidate finishes the verification"),
    }
}

#[test]
fn ssh_verification_with_no_accepted_principal_keeps_the_last_run() {
    let state = SshVerifyState { minimum_trust: TrustLevel::Marginal, phase: SshPhase::FindingPrincipals };
    let (state, _) = ssh_verify_step(state, ran(true, b"bob\n"));
    let (_, action) = ssh_verify_step(state, ran(false, b"Signature verification failed\n"));
    match action {
        SshVerifyAction::Finish(outcome) => {
            assert_eq!(outcome.status, Status::Bad);
            assert_eq!(outcome.trust_level, TrustLevel::Fully);
            assert_eq!(outcome.signer, None);
            assert!(!outcome.is_valid());
        }
        _ => panic!("the last principal finishes the verification"),
    }
}

#[test]
fn gpg_verdict_judges_the_status_lines() {
    let status = b"[GNUPG:] GOODSIG 1234 Alice\n[GNUPG:] TRUST_FULLY 0 pgp\n";
    let outcome = gpg_verdict(
        Format::OpenPgp,
        ProgramOutput { success: true, stdout: status.to_vec(), stderr: b"gpg: Good signature".to_vec() },
        TrustLevel::Marginal,
    );
    assert_eq!(outcome.status, Status::Good);
    assert_eq!(outcome.trust_level, TrustLevel::Fully);
    assert!(outcome.is_valid());
    let failed = gpg_verdict(
        Format::OpenPgp,
        ProgramOutput { success: false, stdout: status.to_vec(), stderr: Vec::new() },
        TrustLevel::Marginal,
    );
    assert!(!failed.is_valid());
}

fn platform<'a>(drivers: &'a [Driver], driver: DriverChoice, current: Resource<'a>, other: Resource<'a>) -> PlatformRef<'a> {
    PlatformRef { drivers, driver, ancestor: Resource { id: id(9), data: Data::Buffer(b"base\n") }, current, other }
}

#[test]
fn blob_merges_are_decided_by_driver_and_content() {
    let text = platform(
        &[],
        DriverChoice::BuiltIn(BuiltinDriver::Text),
        Resource { id: id(1), data: Data::Buffer(b"ours\n") },
        Resource { id: id(2), data: Data::Buffer(b"theirs\n") },
    );
    assert_eq!(text.merge(None), BlobMerge::Text(BuiltinDriver::Text));
    let binary = platform(
        &[],
        DriverChoice::BuiltIn(BuiltinDriver::Union),
        Resource { id: id(1), data: Data::Buffer(b"o\0urs") },
        Resource { id: id(2), data: Data::Buffer(b"theirs\n") },
    );
    assert_eq!(binary.merge(None), BlobMerge::Picked(Pick::Ours, Blob::Conflict));
    assert_eq!(
        binary.merge(Some(BinaryResolveWith::Theirs)),
        BlobMerge::Picked(Pick::Theirs, Blob::CompleteWithAutoResolvedConflict)
    );
    let same = platform(
        &[],
        DriverChoice::BuiltIn(BuiltinDriver::Binary),
        Resource { id: id(3), data: Data::TooLarge { size: 1 << 40 } },
        Resource { id: id(3), data: Data::TooLarge { size: 1 << 40 } },
    );
    assert_eq!(same.merge(None), BlobMerge::Picked(Pick::Ours, Blob::Complete));
    let unbacked = platform(
        &[],
        DriverChoice::BuiltIn(BuiltinDriver::Binary),
        Resource { id: ObjectId { bytes: vec![0; 20] }, data: Data::Buffer(b"same") },
        Resource { id: id(4), data: Data::Buffer(b"same") },
    );
    assert_eq!(unbacked.merge(None), BlobMerge::Picked(Pick::Ours, Blob::Complete), "unbacked sides compare by content");
    let drivers = [Driver { name: b"custom".to_vec(), command: b"merge %O %A %B".to_vec(), recursive: None }];
    let external = platform(
        &drivers,
        DriverChoice::Index(0),
        Resource { id: id(1), data: Data::Buffer(b"ours\n") },
        Resource { id: id(2), data: Data::Buffer(b"theirs\n") },
    );
    assert_eq!(external.merge(None), BlobMerge::External(0));
    let missing_driver = platform(
        &drivers,
        DriverChoice::Index(1),
        Resource { id: id(1), data: Data::Buffer(b"ours\n") },
        Resource { id: id(2), data: Data::Buffer(b"theirs\n") },
    );
    assert_eq!(missing_driver.merge(None), BlobMerge::Text(BuiltinDriver::Text));
}

#[test]
fn binary_merges_pick_the_configured_side() {
    assert_eq!(binary_merge(None), (Pick::Ours, Blob::Conflict));
    assert_eq!(binary_merge(Some(BinaryResolveWith::Ancestor)), (Pick::Ancestor, Blob::CompleteWithAutoResolvedConflict));
}

#[test]
fn blob_merges_decided_before_their_content() {
    let same = blob_merge_shortcut(&id(1), BLOB, &id(1), LINK, &id(0), ConflictMapping::Original, None).unwrap();
    assert_eq!((same.0, same.1), (id(1), Blob::Complete));
    let links = blob_merge_shortcut(&id(1), LINK, &id(2), LINK, &id(3), ConflictMapping::Original, None).unwrap();
    assert_eq!((links.0, links.1), (id(1), Blob::Conflict));
    let swapped = blob_merge_shortcut(&id(1), LINK, &id(2), LINK, &id(3), ConflictMapping::Swapped, None).unwrap();
    assert_eq!(swapped.0, id(2), "ours is theirs where the sides are swapped");
    let ancestor =
        blob_merge_shortcut(&id(1), LINK, &id(2), LINK, &id(3), ConflictMapping::Original, Some(BinaryResolveWith::Ancestor))
            .unwrap();
    assert_eq!((ancestor.0, ancestor.1), (id(3), Blob::CompleteWithAutoResolvedConflict));
    assert!(blob_merge_shortcut(&id(1), BLOB, &id(2), LINK, &id(3), ConflictMapping::Original, None).is_none());
}

#[test]
fn conflict_markers_grow_and_saturate() {
    assert_eq!(conflict_marker_size(7, 0, 0), 7);
    assert_eq!(conflict_marker_size(7, 2, 1), 11);
    assert_eq!(conflict_marker_size(7, 1, 200), 255);
    assert_eq!(conflict_marker_size(250, 10, 0), 255);
}

#[test]
fn labels_name_their_location() {
    assert_eq!(combined_label(b"ours", b"dir/file"), b"ours:dir/file".to_vec());
}

fn conflict(resolution: Result<Resolution, ResolutionFailure>) -> Conflict {
    let c = || Change::Addition { location: b"f".to_vec(), relation: None, entry_mode: BLOB, id: id(1) };
    Conflict::maybe_resolved(resolution, c(), c(), ConflictMapping::Original, ConflictMapping::Original, [None, None, None])
}

fn merge_state(tree_conflicts: Option<ResolveWith>, fail_on_conflict: Option<TreatAsUnresolved>) -> TreeMergeState {
    TreeMergeState {
        rules: ConflictRules { tree_conflicts, fail_on_conflict },
        conflicts: Vec::new(),
        failed_on_first_conflict: false,
        outer_side: ConflictMapping::Original,
        batch_start: 0,
        batch_end: 3,
    }
}

#[test]
fn tree_merges_force_or_fail_on_conflicts() {
    let (state, action) = tree_merge_step(
        merge_state(Some(ResolveWith::Ours), None),
        TreeMergeEvent::Conflict(conflict(Err(ResolutionFailure::OursModifiedTheirsDeleted))),
    );
    assert_eq!(action, TreeMergeAction::Continue);
    assert!(state.conflicts[0].resolution.is_ok(), "a strategy forces a resolution");
    let (state, action) = tree_merge_step(
        merge_state(None, Some(TreatAsUnresolved::git())),
        TreeMergeEvent::Conflict(conflict(Err(ResolutionFailure::OursModifiedTheirsDeleted))),
    );
    assert_eq!(action, TreeMergeAction::Stop);
    assert!(state.failed_on_first_conflict);
    let (state, action) = tree_merge_step(
        merge_state(Some(ResolveWith::Ancestor), Some(TreatAsUnresolved::git())),
        TreeMergeEvent::Conflict(conflict(Err(ResolutionFailure::OursModifiedTheirsDeleted))),
    );
    assert_eq!(action, TreeMergeAction::Continue, "forced resolutions are resolved for git");
    let (state, action) = tree_merge_step(state, TreeMergeEvent::BatchDone { changes_len: 5 });
    assert_eq!(action, TreeMergeAction::Batch { start: 3, end: 5 });
    let (state, action) = tree_merge_step(state, TreeMergeEvent::BatchDone { changes_len: 5 });
    assert_eq!(action, TreeMergeAction::SwapSides);
    assert_eq!(state.outer_side, ConflictMapping::Swapped);
    let (_, action) = tree_merge_step(
        merge_state(Some(ResolveWith::Ours), Some(TreatAsUnresolved::forced_resolution())),
        TreeMergeEvent::Conflict(conflict(Err(ResolutionFailure::OursModifiedTheirsDeleted))),
    );
    assert_eq!(action, TreeMergeAction::Stop, "forced resolutions count for the strictest treatment");
}

#[test]
fn the_side_without_changes_is_not_processed_first() {
    let ours = SideState::from_changes(vec![]);
    let theirs = SideState::from_changes(vec![]);
    assert_eq!(first_outer_side(&ours, &theirs), ConflictMapping::Swapped);
}

#[test]
fn driver_command_lines_replace_their_placeholders() {
    let p = DriverPlaceholders {
        base_path: b"/tmp/base",
        ours_path: b"/tmp/ours",
        theirs_path: b"/tmp/theirs",
        marker_size: 12,
        rela_path: b"it's!",
        ancestor: Some(b"base"),
        current: None,
        other: Some(b"theirs"),
    };
    assert_eq!(
        driver_command_line(b"merge %O %A %B -L %L %P", &p),
        b"merge /tmp/base /tmp/ours /tmp/theirs -L 12 'it'\\''s'\\!''".to_vec()
    );
    assert_eq!(driver_command_line(b"m %S %X %Y", &p), b"m 'base' '' 'theirs'".to_vec());
    assert_eq!(driver_command_line(b"100%% %Q done%", &p), b"100%% %Q done%".to_vec());
}

#[test]
fn driver_inputs_need_every_side_loaded() {
    let loaded = platform(
        &[],
        DriverChoice::BuiltIn(BuiltinDriver::Text),
        Resource { id: id(1), data: Data::Missing },
        Resource { id: id(2), data: Data::Buffer(b"theirs") },
    );
    let (base, ours, theirs) = loaded.driver_inputs().unwrap();
    assert_eq!((base, ours, theirs), (b"base\n".as_slice(), b"".as_slice(), b"theirs".as_slice()));
    let too_large = platform(
        &[],
        DriverChoice::BuiltIn(BuiltinDriver::Text),
        Resource { id: id(1), data: Data::Buffer(b"ours") },
        Resource { id: id(2), data: Data::TooLarge { size: 1 } },
    );
    assert_eq!(too_large.driver_inputs(), Err(ResourceKind::OtherOrTheirs));
}

#[test]
fn merge_bases_choose_the_common_ancestor() {
    assert!(matches!(choose_merge_base(None, HashKind::Sha1, false, true), Ok(MergeBase::EmptyTree(HashKind::Sha1))));
    assert!(matches!(choose_merge_base(None, HashKind::Sha1, false, false), Err(CommitError::NoMergeBase)));
    let one = [id(1)];
    assert!(matches!(choose_merge_base(Some(&one), HashKind::Sha1, false, false), Ok(MergeBase::Single(ref b)) if *b == id(1)));
    let three = [id(1), id(2), id(3)];
    assert!(matches!(choose_merge_base(Some(&three), HashKind::Sha1, true, false), Ok(MergeBase::First(ref b)) if *b == id(1)));
    match choose_merge_base(Some(&three), HashKind::Sha1, false, false) {
        Ok(MergeBase::Virtual { first, merge_order }) => {
            assert_eq!(first, id(3));
            assert_eq!(merge_order, vec![id(2), id(1)]);
        }
        other => panic!("several merge bases are merged: {other:?}"),
    }
}

#[test]
fn conflict_entries_go_to_their_paths() {
    const TREE: EntryMode = EntryMode { value: 0o040000 };
    let ours = Change::Rewrite {
        source_location: b"old".to_vec(),
        source_entry_mode: BLOB,
        source_id: id(1),
        entry_mode: BLOB,
        id: id(2),
        location: b"ours".to_vec(),
        relation: None,
        copy: false,
    };
    let theirs = Change::Addition { location: b"theirs".to_vec(), relation: None, entry_mode: BLOB, id: id(3) };
    let entries = [
        Some(ConflictIndexEntry { mode: BLOB, id: id(1), path_hint: Some(ConflictIndexEntryPathHint::Source) }),
        Some(ConflictIndexEntry { mode: BLOB, id: id(2), path_hint: None }),
        Some(ConflictIndexEntry { mode: TREE, id: id(3), path_hint: None }),
    ];
    let c = Conflict::maybe_resolved(
        Err(ResolutionFailure::OursAddedTheirsAddedTypeMismatch { their_unique_location: b"theirs~1".to_vec() }),
        ours,
        theirs,
        ConflictMapping::Original,
        ConflictMapping::Original,
        entries,
    );
    let staged = c.index_entry_paths().unwrap();
    assert_eq!(staged[0].as_ref().unwrap().0, b"old".to_vec());
    assert_eq!(staged[1].as_ref().unwrap().0, b"theirs~1".to_vec(), "by default the renamed path");
    assert!(staged[2].is_none(), "trees get no index entry");
    let forced = conflict(Ok(Resolution::Forced(ResolutionFailure::Unknown)));
    assert!(forced.index_entry_paths().is_none());
}

fn index_with(paths: &[&str]) -> IndexState {
    let mut state = gix_index::State::new(gix_index::hash::Kind::Sha1);
    for p in paths {
        state.dangerously_push_entry(
            Default::default(),
            gix_index::hash::ObjectId::from_bytes_or_panic(&[9; 20]),
            gix_index::entry::Flags::empty(),
            gix_index::entry::Mode::FILE,
            p.as_bytes().into(),
        );
    }
    state.sort_entries();
    IndexState { inner: state }
}

fn modify(location: &str, b: u8) -> Change {
    Change::Modification {
        location: location.as_bytes().to_vec(),
        previous_entry_mode: BLOB,
        previous_id: id(1),
        entry_mode: BLOB,
        id: id(b),
    }
}

#[test]
fn unresolved_conflicts_add_their_stages_to_the_index() {
    let entries = [
        Some(ConflictIndexEntry { mode: BLOB, id: id(1), path_hint: None }),
        Some(ConflictIndexEntry { mode: BLOB, id: id(2), path_hint: None }),
        Some(ConflictIndexEntry { mode: BLOB, id: id(3), path_hint: None }),
    ];
    let c = Conflict::maybe_resolved(
        Err(ResolutionFailure::OursModifiedTheirsDeleted),
        modify("f", 2),
        modify("f", 3),
        ConflictMapping::Original,
        ConflictMapping::Original,
        entries,
    );
    let mut index = index_with(&["a", "f", "z"]);
    assert!(apply_index_entries(&[c], TreatAsUnresolved::git(), &mut index, RemovalMode::Prune));
    let listed: Vec<(String, u32)> = index
        .inner
        .entries()
        .iter()
        .map(|e| (e.path(&index.inner).to_string(), e.stage_raw()))
        .collect();
    assert_eq!(
        listed,
        vec![("a".into(), 0), ("f".into(), 1), ("f".into(), 2), ("f".into(), 3), ("z".into(), 0)]
    );
}

#[test]
fn resolved_conflicts_leave_the_index_alone() {
    let c = conflict(Ok(Resolution::Forced(ResolutionFailure::Unknown)));
    let mut index = index_with(&["f"]);
    assert!(!apply_index_entries(&[c], TreatAsUnresolved::git(), &mut index, RemovalMode::Mark));
    assert_eq!(index.inner.entries().len(), 1);
}
