//! The decisions of an object lookup in the dynamic object database: which id to look for,
//! where replacement objects stand in for others, and how deep the lookups of delta bases that
//! lie outside their pack may chain before the lookup gives up, and in which order indices, packs,
//! loose databases and newer snapshots of the store are asked.
use vstd::prelude::*;

use crate::bytes::slice_eq;
use crate::hash::ObjectId;

verus! {

/// The errors of an object lookup that the library decides.
#[derive(Debug)]
pub enum Error {
    /// Delta bases outside their pack chained `max_depth` lookups deep while looking up `id`.
    DeltaBaseRecursionLimit { max_depth: usize, id: ObjectId },
}

/// How many lookups of delta bases deep a lookup has gone, started for `original_id`.
#[derive(Debug, Clone)]
pub struct DeltaBaseRecursion {
    /// The number of nested lookups.
    pub depth: usize,
    /// The object whose lookup started the chain.
    pub original_id: ObjectId,
}

impl DeltaBaseRecursion {
    /// The first lookup of a delta base, for the object `id`.
    pub fn new(id: &ObjectId) -> (r: Self)
        ensures
            r.depth == 0,
            r.original_id@ == id@,
    {
        DeltaBaseRecursion { depth: 0, original_id: id.copied() }
    }

    /// One lookup deeper.
    pub fn inc_depth(self) -> (r: Self)
        requires
            self.depth < usize::MAX,
        ensures
            r.depth == self.depth + 1,
            r.original_id == self.original_id,
    {
        DeltaBaseRecursion { depth: self.depth + 1, original_id: self.original_id }
    }
}

/// `true` if an entry of `replacements` replaces `id` by `target`.
pub open spec fn replaced_by(replacements: Seq<(ObjectId, ObjectId)>, id: Seq<u8>, target: Seq<u8>) -> bool {
    exists|k: int| 0 <= k < replacements.len() && #[trigger] replacements[k].0@ == id && replacements[k].1@ == target
}

/// `true` if an entry of `replacements` replaces `id`.
pub open spec fn is_replaced(replacements: Seq<(ObjectId, ObjectId)>, id: Seq<u8>) -> bool {
    exists|k: int| 0 <= k < replacements.len() && #[trigger] replacements[k].0@ == id
}

/// The id that a lookup of `id` looks for, or why it does not look: a lookup of a delta base
/// (`recursion` is given) that is `max_recursion_depth` lookups deep fails; it looks for `id`
/// itself, as does every lookup where replacements are ignored; every other lookup looks for the
/// object that `replacements`, pairs of an id and the id of its replacement, put in the place of
/// `id`, if there is one.
pub fn id_to_look_up(
    id: &ObjectId,
    recursion: Option<&DeltaBaseRecursion>,
    max_recursion_depth: usize,
    ignore_replacements: bool,
    replacements: &[(ObjectId, ObjectId)],
) -> (r: Result<ObjectId, Error>)
    ensures
        match recursion {
            Some(rec) => if rec.depth >= max_recursion_depth {
                r matches Err(Error::DeltaBaseRecursionLimit { max_depth, id: original })
                    && max_depth == max_recursion_depth && original@ == rec.original_id@
            } else {
                r matches Ok(found) && found@ == id@
            },
            None => r matches Ok(found) && if !ignore_replacements && is_replaced(replacements@, id@) {
                replaced_by(replacements@, id@, found@)
            } else {
                found@ == id@
            },
        },
{
    match recursion {
        Some(rec) => {
            if rec.depth >= max_recursion_depth {
                return Err(Error::DeltaBaseRecursionLimit { max_depth: max_recursion_depth, id: rec.original_id.copied() });
            }
            Ok(id.copied())
        },
        None => {
            if !ignore_replacements {
                let mut k: usize = 0;
                while k < replacements.len()
                    invariant
                        k <= replacements@.len(),
                        recursion is None,
                        !ignore_replacements,
                        forall|j: int| 0 <= j < k ==> replacements@[j].0@ != id@,
                    decreases replacements.len() - k,
                {
                    if slice_eq(replacements[k].0.bytes.as_slice(), id.bytes.as_slice()) {
                        let found = replacements[k].1.copied();
                        assert(replaced_by(replacements@, id@, found@)) by {
                            assert(replacements@[k as int].0@ == id@ && replacements@[k as int].1@ == found@);
                        }
                        return Ok(found);
                    }
                    k += 1;
                }
            }
            Ok(id.copied())
        },
    }
}

/// The recursion that a lookup of a delta base of `id` outside its pack goes on with: one deeper
/// than `recursion`, or the first one, for `id`.
pub fn base_recursion(recursion: Option<DeltaBaseRecursion>, id: &ObjectId) -> (r: DeltaBaseRecursion)
    requires
        recursion matches Some(rec) ==> rec.depth < usize::MAX,
    ensures
        match recursion {
            Some(rec) => r.depth == rec.depth + 1 && r.original_id == rec.original_id,
            None => r.depth == 0 && r.original_id@ == id@,
        },
{
    match recursion {
        Some(rec) => rec.inc_depth(),
        None => DeltaBaseRecursion::new(id),
    }
}

// ---------------------------------------------------------------------------------------------
// The rounds of a lookup.

/// Where a lookup of an object stands, once it knows the id to look for: how many indices and
/// loose object databases the current snapshot of the store has, and what the lookup awaits.
#[derive(Debug, Clone, Copy, PartialEq, Eq, Structural)]
pub struct LookupState {
    pub indices: usize,
    pub loose_dbs: usize,
    pub phase: LookupPhase,
}

/// What a lookup awaits.
#[derive(Debug, Clone, Copy, PartialEq, Eq, Structural)]
pub enum LookupPhase {
    /// Nothing was asked yet.
    Start,
    /// Whether the index at `idx` knows the object.
    Index { idx: usize },
    /// The pack of the entry that the index at `idx` knows, which was not loaded yet.
    LoadingPack { idx: usize },
    /// A newer snapshot of the store, as the pack of an entry went missing.
    RefreshingAfterMissingPack,
    /// The object decoded from the entry that the index at `idx` knows.
    Decoding { idx: usize },
    /// The lookup of the delta base of that entry, which lies outside its pack.
    FindingBase { idx: usize },
    /// The object decoded from that entry again, with its base at hand.
    DecodingWithBase { idx: usize },
    /// Whether the loose object database at `idx` holds the object.
    Loose { idx: usize },
    /// A newer snapshot of the store, as no index and no loose database knew the object.
    Refreshing,
    /// The lookup ended.
    Done,
}

/// How decoding a pack entry went.
#[derive(Debug, Clone, Copy, PartialEq, Eq, Structural)]
pub enum DecodeOutcome {
    /// The object was decoded.
    Decoded,
    /// The entry is a delta whose base lies outside its pack.
    BaseUnresolved,
    /// Decoding failed.
    Failed,
}

/// How many indices and loose object databases a snapshot of the store has.
#[derive(Debug, Clone, Copy, PartialEq, Eq, Structural)]
pub struct SnapshotSize {
    pub indices: usize,
    pub loose_dbs: usize,
}

/// What performing the last action gave.
#[derive(Debug, Clone, Copy, PartialEq, Eq, Structural)]
pub enum LookupEvent {
    /// The lookup begins.
    Begin,
    /// The index knows the object (`hit`), and the pack of its entry is loaded (`pack_loaded`).
    IndexLookedUp { hit: bool, pack_loaded: bool },
    /// The pack could be loaded (`loaded`), or is no longer there.
    PackLoaded { loaded: bool },
    /// A newer snapshot of this size, or none newer.
    Refreshed { snapshot: Option<SnapshotSize> },
    /// How decoding went.
    Decoded { outcome: DecodeOutcome },
    /// The lookup of the delta base found it, or found nothing.
    BaseFound { found: bool },
    /// The loose database holds the object, or not.
    LooseContains { contained: bool },
}

/// What a lookup does next.
#[derive(Debug, Clone, Copy, PartialEq, Eq, Structural)]
pub enum LookupAction {
    /// Ask the index at `idx`.
    LookupIndex { idx: usize },
    /// Load the pack of the entry that the index at `idx` knows.
    LoadPack { idx: usize },
    /// Load a newer snapshot of the store, clearing the cached object count if there is one.
    LoadNewerIndex,
    /// Decode the entry that the index at `idx` knows.
    Decode { idx: usize },
    /// Look up the delta base outside the pack, one recursion deeper (see [`base_recursion`]).
    FindBase,
    /// Look up the entry again and decode it, with its base at hand.
    DecodeWithBase { idx: usize },
    /// Ask the loose database at `idx`.
    LookupLoose { idx: usize },
    /// Read the object from the loose database at `idx`.
    ReadLoose { idx: usize },
    /// The object was decoded from the pack of the index at `idx`; that index moves to the front
    /// of the snapshot's indices where it is not there yet.
    Found { idx: usize, move_to_front: bool },
    /// The entry could not be decoded.
    FailDecode,
    /// The delta base outside the pack was not found.
    FailBaseMissing,
    /// The store does not hold the object.
    NotFound,
    /// The event does not fit what the lookup awaits.
    Nothing,
}

/// A round of a lookup in a snapshot with `indices` indices and `loose_dbs` loose databases,
/// from the index at `idx` on: the next index, else the first loose database, else a newer
/// snapshot.
pub open spec fn from_index(indices: usize, loose_dbs: usize, idx: int) -> (LookupState, LookupAction) {
    if 0 <= idx < indices {
        (
            LookupState { indices, loose_dbs, phase: LookupPhase::Index { idx: idx as usize } },
            LookupAction::LookupIndex { idx: idx as usize },
        )
    } else {
        from_loose(indices, loose_dbs, 0)
    }
}

/// The rest of a round from the loose database at `idx` on: that one, else a newer snapshot.
pub open spec fn from_loose(indices: usize, loose_dbs: usize, idx: int) -> (LookupState, LookupAction) {
    if 0 <= idx < loose_dbs {
        (
            LookupState { indices, loose_dbs, phase: LookupPhase::Loose { idx: idx as usize } },
            LookupAction::LookupLoose { idx: idx as usize },
        )
    } else {
        (LookupState { indices, loose_dbs, phase: LookupPhase::Refreshing }, LookupAction::LoadNewerIndex)
    }
}

/// The next state and action of a lookup in `state` on `event`. Each round asks the indices in
/// order, then the loose databases, then loads a newer snapshot and begins a new round, until
/// there is none newer. An index that knows the object has its entry decoded, once its pack is
/// loaded; a pack that went missing also asks for a newer snapshot. A delta base outside the pack
/// is looked up, and the entry decoded again with it.
pub open spec fn lookup_next(state: LookupState, event: LookupEvent) -> (LookupState, LookupAction) {
    let n = state.indices;
    let m = state.loose_dbs;
    let done = LookupState { phase: LookupPhase::Done, ..state };
    match (state.phase, event) {
        (LookupPhase::Start, LookupEvent::Begin) => from_index(n, m, 0),
        (LookupPhase::Index { idx }, LookupEvent::IndexLookedUp { hit, pack_loaded }) => if !hit {
            from_index(n, m, idx + 1)
        } else if pack_loaded {
            (LookupState { phase: LookupPhase::Decoding { idx }, ..state }, LookupAction::Decode { idx })
        } else {
            (LookupState { phase: LookupPhase::LoadingPack { idx }, ..state }, LookupAction::LoadPack { idx })
        },
        (LookupPhase::LoadingPack { idx }, LookupEvent::PackLoaded { loaded }) => if loaded {
            (LookupState { phase: LookupPhase::Decoding { idx }, ..state }, LookupAction::Decode { idx })
        } else {
            (LookupState { phase: LookupPhase::RefreshingAfterMissingPack, ..state }, LookupAction::LoadNewerIndex)
        },
        (LookupPhase::RefreshingAfterMissingPack, LookupEvent::Refreshed { snapshot })
        | (LookupPhase::Refreshing, LookupEvent::Refreshed { snapshot }) => match snapshot {
            Some(size) => from_index(size.indices, size.loose_dbs, 0),
            None => (done, LookupAction::NotFound),
        },
        (LookupPhase::Decoding { idx }, LookupEvent::Decoded { outcome }) => match outcome {
            DecodeOutcome::Decoded => (done, LookupAction::Found { idx, move_to_front: idx != 0 }),
            DecodeOutcome::BaseUnresolved => (LookupState { phase: LookupPhase::FindingBase { idx }, ..state }, LookupAction::FindBase),
            DecodeOutcome::Failed => (done, LookupAction::FailDecode),
        },
        (LookupPhase::FindingBase { idx }, LookupEvent::BaseFound { found }) => if found {
            (LookupState { phase: LookupPhase::DecodingWithBase { idx }, ..state }, LookupAction::DecodeWithBase { idx })
        } else {
            (done, LookupAction::FailBaseMissing)
        },
        (LookupPhase::DecodingWithBase { idx }, LookupEvent::Decoded { outcome }) => if outcome == DecodeOutcome::Decoded {
            (done, LookupAction::Found { idx, move_to_front: idx != 0 })
        } else {
            (done, LookupAction::FailDecode)
        },
        (LookupPhase::Loose { idx }, LookupEvent::LooseContains { contained }) => if contained {
            (done, LookupAction::ReadLoose { idx })
        } else {
            from_loose(n, m, idx + 1)
        },
        _ => (state, LookupAction::Nothing),
    }
}

/// The rest of a round from the index at `idx` on, as [`from_index`] says.
fn next_index(indices: usize, loose_dbs: usize, idx: usize) -> (r: (LookupState, LookupAction))
    ensures
        r == from_index(indices, loose_dbs, idx as int),
{
    if idx < indices {
        (LookupState { indices, loose_dbs, phase: LookupPhase::Index { idx } }, LookupAction::LookupIndex { idx })
    } else {
        next_loose(indices, loose_dbs, 0)
    }
}

/// The rest of a round from the loose database at `idx` on, as [`from_loose`] says.
fn next_loose(indices: usize, loose_dbs: usize, idx: usize) -> (r: (LookupState, LookupAction))
    ensures
        r == from_loose(indices, loose_dbs, idx as int),
{
    if idx < loose_dbs {
        (LookupState { indices, loose_dbs, phase: LookupPhase::Loose { idx } }, LookupAction::LookupLoose { idx })
    } else {
        (LookupState { indices, loose_dbs, phase: LookupPhase::Refreshing }, LookupAction::LoadNewerIndex)
    }
}

/// Take one step of a lookup: from `state` on `event` to the next state and what to do.
pub fn lookup_step(state: LookupState, event: LookupEvent) -> (r: (LookupState, LookupAction))
    ensures
        r == lookup_next(state, event),
{
    let n = state.indices;
    let m = state.loose_dbs;
    let done = LookupState { phase: LookupPhase::Done, ..state };
    match (state.phase, event) {
        (LookupPhase::Start, LookupEvent::Begin) => next_index(n, m, 0),
        (LookupPhase::Index { idx }, LookupEvent::IndexLookedUp { hit, pack_loaded }) => if !hit {
            if idx < n {
                next_index(n, m, idx + 1)
            } else {
                next_loose(n, m, 0)
            }
        } else if pack_loaded {
            (LookupState { phase: LookupPhase::Decoding { idx }, ..state }, LookupAction::Decode { idx })
        } else {
            (LookupState { phase: LookupPhase::LoadingPack { idx }, ..state }, LookupAction::LoadPack { idx })
        },
        (LookupPhase::LoadingPack { idx }, LookupEvent::PackLoaded { loaded }) => if loaded {
            (LookupState { phase: LookupPhase::Decoding { idx }, ..state }, LookupAction::Decode { idx })
        } else {
            (LookupState { phase: LookupPhase::RefreshingAfterMissingPack, ..state }, LookupAction::LoadNewerIndex)
        },
        (LookupPhase::RefreshingAfterMissingPack, LookupEvent::Refreshed { snapshot })
        | (LookupPhase::Refreshing, LookupEvent::Refreshed { snapshot }) => match snapshot {
            Some(size) => next_index(size.indices, size.loose_dbs, 0),
            None => (done, LookupAction::NotFound),
        },
        (LookupPhase::Decoding { idx }, LookupEvent::Decoded { outcome }) => match outcome {
            DecodeOutcome::Decoded => (done, LookupAction::Found { idx, move_to_front: idx != 0 }),
            DecodeOutcome::BaseUnresolved => (LookupState { phase: LookupPhase::FindingBase { idx }, ..state }, LookupAction::FindBase),
            DecodeOutcome::Failed => (done, LookupAction::FailDecode),
        },
        (LookupPhase::FindingBase { idx }, LookupEvent::BaseFound { found }) => if found {
            (LookupState { phase: LookupPhase::DecodingWithBase { idx }, ..state }, LookupAction::DecodeWithBase { idx })
        } else {
            (done, LookupAction::FailBaseMissing)
        },
        (LookupPhase::DecodingWithBase { idx }, LookupEvent::Decoded { outcome }) => match outcome {
            DecodeOutcome::Decoded => (done, LookupAction::Found { idx, move_to_front: idx != 0 }),
            _ => (done, LookupAction::FailDecode),
        },
        (LookupPhase::Loose { idx }, LookupEvent::LooseContains { contained }) => if contained {
            (done, LookupAction::ReadLoose { idx })
        } else if idx < m {
            next_loose(n, m, idx + 1)
        } else {
            (LookupState { indices: n, loose_dbs: m, phase: LookupPhase::Refreshing }, LookupAction::LoadNewerIndex)
        },
        _ => (state, LookupAction::Nothing),
    }
}

/// A lookup asks only for indices and loose databases that the snapshot it works on has, moves an
/// index to the front only where it is not there, and ends without the object where no newer
/// snapshot comes.
pub proof fn lemma_lookup_in_range(state: LookupState, event: LookupEvent)
    ensures
        ({
            let (next, action) = lookup_next(state, event);
            &&& action matches LookupAction::LookupIndex { idx } ==> idx < next.indices
            &&& action matches LookupAction::LookupLoose { idx } ==> idx < next.loose_dbs
            &&& action matches LookupAction::Found { idx, move_to_front } ==> move_to_front == (idx != 0)
            &&& (event == LookupEvent::Refreshed { snapshot: None } && (state.phase == LookupPhase::Refreshing
                || state.phase == LookupPhase::RefreshingAfterMissingPack)) ==> action == LookupAction::NotFound
        }),
{
}

} // verus!
