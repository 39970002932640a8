use gix_plumbing::dynamic::{
    base_recursion, id_to_look_up, lookup_step, DecodeOutcome, DeltaBaseRecursion, Error, LookupAction, LookupEvent,
    LookupPhase, LookupState, SnapshotSize,
};
use gix_plumbing::hash::ObjectId;

fn id(b: u8) -> ObjectId {
    ObjectId { bytes: vec![b; 20] }
}

#[test]
fn replacements_stand_in_unless_ignored() {
    let replacements = vec![(id(1), id(2)), (id(3), id(4))];
    assert_eq!(id_to_look_up(&id(3), None, 10, false, &replacements).unwrap(), id(4));
    assert_eq!(id_to_look_up(&id(3), None, 10, true, &replacements).unwrap(), id(3));
    assert_eq!(id_to_look_up(&id(5), None, 10, false, &replacements).unwrap(), id(5));
}

#[test]
fn delta_base_lookups_ignore_replacements_and_stop_at_the_limit() {
    let replacements = vec![(id(1), id(2))];
    let rec = DeltaBaseRecursion::new(&id(9));
    assert_eq!(id_to_look_up(&id(1), Some(&rec), 1, false, &replacements).unwrap(), id(1));
    let deeper = rec.inc_depth();
    assert_eq!(deeper.depth, 1);
    match id_to_look_up(&id(1), Some(&deeper), 1, false, &replacements) {
        Err(Error::DeltaBaseRecursionLimit { max_depth, id: original }) => {
            assert_eq!(max_depth, 1);
            assert_eq!(original, id(9), "the error names the object whose lookup started the chain");
        }
        other => panic!("expected the recursion limit, got {other:?}"),
    }
}

#[test]
fn base_recursion_starts_at_the_object_and_deepens() {
    let first = base_recursion(None, &id(7));
    assert_eq!((first.depth, first.original_id.clone()), (0, id(7)));
    let second = base_recursion(Some(first), &id(8));
    assert_eq!((second.depth, second.original_id), (1, id(7)));
}

#[test]
fn lookups_ask_indices_then_loose_databases_then_newer_snapshots() {
    let start = LookupState { indices: 2, loose_dbs: 1, phase: LookupPhase::Start };
    let (s, a) = lookup_step(start, LookupEvent::Begin);
    assert_eq!(a, LookupAction::LookupIndex { idx: 0 });
    let (s, a) = lookup_step(s, LookupEvent::IndexLookedUp { hit: false, pack_loaded: false });
    assert_eq!(a, LookupAction::LookupIndex { idx: 1 });
    let (s, a) = lookup_step(s, LookupEvent::IndexLookedUp { hit: false, pack_loaded: false });
    assert_eq!(a, LookupAction::LookupLoose { idx: 0 });
    let (s, a) = lookup_step(s, LookupEvent::LooseContains { contained: false });
    assert_eq!(a, LookupAction::LoadNewerIndex);
    let (s, a) = lookup_step(s, LookupEvent::Refreshed { snapshot: Some(SnapshotSize { indices: 3, loose_dbs: 0 }) });
    assert_eq!(a, LookupAction::LookupIndex { idx: 0 });
    assert_eq!(s.indices, 3);
    let (s, a) = lookup_step(s, LookupEvent::IndexLookedUp { hit: false, pack_loaded: false });
    let (s, a2) = lookup_step(s, LookupEvent::IndexLookedUp { hit: true, pack_loaded: false });
    assert_eq!((a, a2), (LookupAction::LookupIndex { idx: 1 }, LookupAction::LoadPack { idx: 1 }));
    let (s, a) = lookup_step(s, LookupEvent::PackLoaded { loaded: true });
    assert_eq!(a, LookupAction::Decode { idx: 1 });
    let (s, a) = lookup_step(s, LookupEvent::Decoded { outcome: DecodeOutcome::BaseUnresolved });
    assert_eq!(a, LookupAction::FindBase);
    let (s, a) = lookup_step(s, LookupEvent::BaseFound { found: true });
    assert_eq!(a, LookupAction::DecodeWithBase { idx: 1 });
    let (s, a) = lookup_step(s, LookupEvent::Decoded { outcome: DecodeOutcome::Decoded });
    assert_eq!(a, LookupAction::Found { idx: 1, move_to_front: true });
    assert_eq!(s.phase, LookupPhase::Done);
}

#[test]
fn lookups_end_without_a_newer_snapshot_or_a_missing_base() {
    let (_, a) = lookup_step(LookupState { indices: 0, loose_dbs: 0, phase: LookupPhase::Start }, LookupEvent::Begin);
    assert_eq!(a, LookupAction::LoadNewerIndex);
    let (_, a) = lookup_step(
        LookupState { indices: 0, loose_dbs: 0, phase: LookupPhase::Refreshing },
        LookupEvent::Refreshed { snapshot: None },
    );
    assert_eq!(a, LookupAction::NotFound);
    let (_, a) = lookup_step(
        LookupState { indices: 1, loose_dbs: 0, phase: LookupPhase::FindingBase { idx: 0 } },
        LookupEvent::BaseFound { found: false },
    );
    assert_eq!(a, LookupAction::FailBaseMissing);
    let (_, a) = lookup_step(
        LookupState { indices: 1, loose_dbs: 2, phase: LookupPhase::Loose { idx: 1 } },
        LookupEvent::LooseContains { contained: true },
    );
    assert_eq!(a, LookupAction::ReadLoose { idx: 1 });
}
