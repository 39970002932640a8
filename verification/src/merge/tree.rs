//! The decisions of tree merges: which conflicts count as unresolved, how entry modes merge, and
//! which side is which.
use vstd::prelude::*;

use crate::find::FindTree;
use crate::hash::ObjectId;
use crate::merge::blob;
use crate::object_tree::editor::{Editor, Error as EditError};
use crate::object_tree::is_tree_mode;
use utils::Change;

pub mod drive;
pub mod pair;
pub mod side;
pub mod utils;

verus! {

// ---------------------------------------------------------------------------------------------
// Entry modes.

/// The kind of a tree entry.
#[derive(Debug, Clone, Copy, PartialEq, Eq, Structural)]
pub enum EntryKind {
    Tree,
    Blob,
    BlobExecutable,
    Link,
    Commit,
}

/// The raw mode of a tree entry, as stored in trees.
#[derive(Debug, Clone, Copy, PartialEq, Eq, Structural)]
pub struct EntryMode {
    pub value: u16,
}

/// The kind of an entry whose raw mode is `value`: trees, symlinks and submodule commits by their
/// type bits, and blobs, executable where the owner may execute them.
pub open spec fn kind_of(value: u16) -> EntryKind {
    if value & 0o170000 == 0o040000 {
        EntryKind::Tree
    } else if value & 0o170000 == 0o120000 {
        EntryKind::Link
    } else if value & 0o170000 == 0o160000 {
        EntryKind::Commit
    } else if value & 0o100 != 0 {
        EntryKind::BlobExecutable
    } else {
        EntryKind::Blob
    }
}

/// The canonical raw mode of entries of `kind`.
pub open spec fn mode_of(kind: EntryKind) -> u16 {
    match kind {
        EntryKind::Tree => 0o040000,
        EntryKind::Blob => 0o100644,
        EntryKind::BlobExecutable => 0o100755,
        EntryKind::Link => 0o120000,
        EntryKind::Commit => 0o160000,
    }
}

impl EntryMode {
    /// The kind of this entry.
    pub fn kind(&self) -> (r: EntryKind)
        ensures
            r == kind_of(self.value),
    {
        let t = self.value & 0o170000;
        if t == 0o040000 {
            EntryKind::Tree
        } else if t == 0o120000 {
            EntryKind::Link
        } else if t == 0o160000 {
            EntryKind::Commit
        } else if self.value & 0o100 != 0 {
            EntryKind::BlobExecutable
        } else {
            EntryKind::Blob
        }
    }

    /// The canonical mode of entries of `kind`.
    pub fn from_kind(kind: EntryKind) -> (r: EntryMode)
        ensures
            r.value == mode_of(kind),
    {
        let value: u16 = match kind {
            EntryKind::Tree => 0o040000,
            EntryKind::Blob => 0o100644,
            EntryKind::BlobExecutable => 0o100755,
            EntryKind::Link => 0o120000,
            EntryKind::Commit => 0o160000,
        };
        EntryMode { value }
    }

    /// `true` if this entry is a submodule commit.
    pub fn is_commit(&self) -> (r: bool)
        ensures
            r == (kind_of(self.value) == EntryKind::Commit),
    {
        matches!(self.kind(), EntryKind::Commit)
    }
}

/// `true` if either entry is a submodule.
pub fn involves_submodule(a: &EntryMode, b: &EntryMode) -> (r: bool)
    ensures
        r == (kind_of(a.value) == EntryKind::Commit || kind_of(b.value) == EntryKind::Commit),
{
    a.is_commit() || b.is_commit()
}

/// `true` for the two kinds of blobs.
pub open spec fn is_blob_kind(k: EntryKind) -> bool {
    k == EntryKind::Blob || k == EntryKind::BlobExecutable
}

/// The mode that merging `a` and `b` without a common ancestor yields: equal modes are kept, and
/// two blob modes of which one is executable merge into an executable blob.
pub open spec fn merge_modes_spec(a: EntryMode, b: EntryMode) -> Option<EntryMode> {
    if a == b {
        Some(a)
    } else if is_blob_kind(kind_of(a.value)) && is_blob_kind(kind_of(b.value)) && (kind_of(a.value)
        == EntryKind::BlobExecutable || kind_of(b.value) == EntryKind::BlobExecutable) {
        Some(EntryMode { value: mode_of(EntryKind::BlobExecutable) })
    } else {
        None
    }
}

/// Merge two modes without a common ancestor: retain equal modes and, for two blob modes, prefer executable.
///
/// This is suitable for add/add and other pairs without a single shared source mode. If both changes derive from the
/// same entry, use [`merge_modes_prev()`] so a mode changed on one side wins over the unchanged ancestor mode.
pub fn merge_modes(a: EntryMode, b: EntryMode) -> (r: Option<EntryMode>)
    ensures
        r == merge_modes_spec(a, b),
{
    if a == b {
        return Some(a);
    }
    let (ka, kb) = (a.kind(), b.kind());
    if (ka == EntryKind::BlobExecutable && (kb == EntryKind::BlobExecutable || kb == EntryKind::Blob)) || (ka
        == EntryKind::Blob && kb == EntryKind::BlobExecutable) {
        Some(EntryMode::from_kind(EntryKind::BlobExecutable))
    } else {
        None
    }
}

/// `true` where [`merge_modes_prev()`] is defined: where `a` and `b` are different blob modes, the
/// ancestor `prev` is a blob of the other executable state than the side that changed it.
pub open spec fn merge_modes_prev_defined(a: EntryMode, b: EntryMode, prev: EntryMode) -> bool {
    let (ka, kb, kp) = (kind_of(a.value), kind_of(b.value), kind_of(prev.value));
    a != b && is_blob_kind(ka) && is_blob_kind(kb) && (ka == EntryKind::BlobExecutable || kb
        == EntryKind::BlobExecutable) ==> {
        let changed = if ka == kp {
            kb
        } else {
            ka
        };
        (kp == EntryKind::Blob && changed == EntryKind::BlobExecutable) || (kp == EntryKind::BlobExecutable
            && changed == EntryKind::Blob)
    }
}

/// The mode that merging `a` and `b`, both derived from `prev`, yields: equal modes are kept, and
/// where blob modes differ in their executable bit, the side that changed it wins.
pub open spec fn merge_modes_prev_spec(a: EntryMode, b: EntryMode, prev: EntryMode) -> Option<EntryMode> {
    let (ka, kb, kp) = (kind_of(a.value), kind_of(b.value), kind_of(prev.value));
    if a == b {
        Some(a)
    } else if is_blob_kind(ka) && is_blob_kind(kb) && (ka == EntryKind::BlobExecutable || kb
        == EntryKind::BlobExecutable) {
        let changed = if ka == kp {
            kb
        } else {
            ka
        };
        Some(EntryMode { value: mode_of(changed) })
    } else {
        None
    }
}

/// Merge modes derived from the same ancestor mode, `prev`.
///
/// Equal modes are retained. If blob modes differ only in their executable bit, the side that differs from `prev` wins,
/// preserving either a one-sided enable or disable of that bit.
pub fn merge_modes_prev(a: EntryMode, b: EntryMode, prev: EntryMode) -> (r: Option<EntryMode>)
    requires
        merge_modes_prev_defined(a, b, prev),
    ensures
        r == merge_modes_prev_spec(a, b, prev),
{
    if a == b {
        return Some(a);
    }
    let (ka, kb) = (a.kind(), b.kind());
    if (ka == EntryKind::BlobExecutable && (kb == EntryKind::BlobExecutable || kb == EntryKind::Blob)) || (ka
        == EntryKind::Blob && kb == EntryKind::BlobExecutable) {
        let kp = prev.kind();
        let changed = if ka == kp {
            kb
        } else {
            ka
        };
        if kp == EntryKind::Blob && changed == EntryKind::BlobExecutable {
            Some(EntryMode::from_kind(EntryKind::BlobExecutable))
        } else {
            Some(EntryMode::from_kind(EntryKind::Blob))
        }
    } else {
        None
    }
}

/// Merging modes without an ancestor doesn't depend on the order of the sides.
pub proof fn lemma_merge_modes_symmetric(a: EntryMode, b: EntryMode)
    ensures
        merge_modes_spec(a, b) == merge_modes_spec(b, a),
{
}

/// Merging modes derived from an ancestor doesn't depend on the order of the sides.
pub proof fn lemma_merge_modes_prev_symmetric(a: EntryMode, b: EntryMode, prev: EntryMode)
    requires
        merge_modes_prev_defined(a, b, prev),
    ensures
        merge_modes_prev_defined(b, a, prev),
        merge_modes_prev_spec(a, b, prev) == merge_modes_prev_spec(b, a, prev),
{
}

// ---------------------------------------------------------------------------------------------
// Sides.

/// Which side of a conflict is which.
#[derive(Debug, Clone, Copy, PartialEq, Eq, Structural)]
pub enum ConflictMapping {
    /// `ours` is ours.
    Original,
    /// `ours` is theirs and `theirs` is ours.
    Swapped,
}

impl ConflictMapping {
    pub open spec fn spec_swapped(self) -> ConflictMapping {
        match self {
            ConflictMapping::Original => ConflictMapping::Swapped,
            ConflictMapping::Swapped => ConflictMapping::Original,
        }
    }

    /// `true` if the sides are swapped.
    pub fn is_swapped(&self) -> (r: bool)
        ensures
            r == (*self == ConflictMapping::Swapped),
    {
        match self {
            ConflictMapping::Swapped => true,
            ConflictMapping::Original => false,
        }
    }

    /// The opposite mapping.
    pub fn swapped(self) -> (r: ConflictMapping)
        ensures
            r == self.spec_swapped(),
    {
        match self {
            ConflictMapping::Original => ConflictMapping::Swapped,
            ConflictMapping::Swapped => ConflictMapping::Original,
        }
    }

    /// This mapping as seen through the enclosing `global` mapping.
    pub fn to_global(self, global: ConflictMapping) -> (r: ConflictMapping)
        ensures
            r == (if global == ConflictMapping::Original {
                self
            } else {
                self.spec_swapped()
            }),
    {
        match global {
            ConflictMapping::Original => self,
            ConflictMapping::Swapped => self.swapped(),
        }
    }
}

/// Swapping twice restores the mapping, and looking through two mappings is looking through
/// their combination in either order.
pub proof fn lemma_mapping_involution(m: ConflictMapping, g: ConflictMapping)
    ensures
        m.spec_swapped().spec_swapped() == m,
        (if g == ConflictMapping::Original {
            m
        } else {
            m.spec_swapped()
        }) == (if m == ConflictMapping::Original {
            g
        } else {
            g.spec_swapped()
        }),
{
}

/// `ours` as seen from `side`: itself where the sides are original, `theirs` where they are swapped.
pub fn pick<'a, T>(side: ConflictMapping, ours: &'a T, theirs: &'a T) -> (r: &'a T)
    ensures
        r == (if side == ConflictMapping::Original {
            ours
        } else {
            theirs
        }),
{
    match side {
        ConflictMapping::Original => ours,
        ConflictMapping::Swapped => theirs,
    }
}

/// `ours` as seen from `side`, for changing it: the value of the side that is picked, which
/// the caller changes, while the other side keeps its value.
pub fn pick_mut<'a, T>(side: ConflictMapping, ours: &'a mut T, theirs: &'a mut T) -> (r: &'a mut T)
    ensures
        side == ConflictMapping::Original ==> *r == *old(ours) && *final(ours) == *final(r) && *final(theirs) == *old(theirs),
        side == ConflictMapping::Swapped ==> *r == *old(theirs) && *final(theirs) == *final(r) && *final(ours) == *old(ours),
{
    match side {
        ConflictMapping::Original => ours,
        ConflictMapping::Swapped => theirs,
    }
}

/// The index of `ours` as seen from `side`.
pub fn pick_idx(side: ConflictMapping, ours: usize, theirs: usize) -> (r: usize)
    ensures
        r == (if side == ConflictMapping::Original {
            ours
        } else {
            theirs
        }),
{
    match side {
        ConflictMapping::Original => ours,
        ConflictMapping::Swapped => theirs,
    }
}

// ---------------------------------------------------------------------------------------------
// What counts as unresolved.

/// Which kind of content merges should be considered unresolved?
#[derive(Debug, Clone, Copy, PartialEq, Eq, Structural)]
pub enum ContentMergeTreatment {
    /// Content merges that still show conflict markers.
    Markers,
    /// Content merges who would have conflicted if it wasn't for a resolution strategy.
    ForcedResolution,
}

/// Which kind of tree merges should be considered unresolved?
#[derive(Debug, Clone, Copy, PartialEq, Eq, Structural)]
pub enum TreeMerge {
    /// All failed renames.
    Undecidable,
    /// All failed renames, and the ones where a tree item was renamed to avoid a clash.
    EvasiveRenames,
    /// All of `EvasiveRenames`, and tree merges that would have conflicted but which were resolved
    /// with a [resolution strategy](ResolveWith).
    ForcedResolution,
}

/// Determine what should be considered an unresolved conflict.
#[derive(Debug, Clone, Copy, PartialEq, Eq, Structural)]
pub struct TreatAsUnresolved {
    /// Determine which content merges should be considered unresolved.
    pub content_merge: ContentMergeTreatment,
    /// Determine which tree merges should be considered unresolved.
    pub tree_merge: TreeMerge,
}

impl Default for TreatAsUnresolved {
    fn default() -> (r: TreatAsUnresolved)
        ensures
            r == (TreatAsUnresolved {
                content_merge: ContentMergeTreatment::Markers,
                tree_merge: TreeMerge::EvasiveRenames,
            }),
    {
        TreatAsUnresolved { content_merge: ContentMergeTreatment::Markers, tree_merge: TreeMerge::EvasiveRenames }
    }
}

impl TreatAsUnresolved {
    /// Return an instance with the highest sensitivity to what should be considered unresolved as it
    /// includes entries which have been resolved using a [merge strategy](ResolveWith).
    pub fn forced_resolution() -> (r: TreatAsUnresolved)
        ensures
            r == (TreatAsUnresolved {
                content_merge: ContentMergeTreatment::ForcedResolution,
                tree_merge: TreeMerge::ForcedResolution,
            }),
    {
        TreatAsUnresolved {
            content_merge: ContentMergeTreatment::ForcedResolution,
            tree_merge: TreeMerge::ForcedResolution,
        }
    }

    /// Return an instance that considers unresolved any conflict that Git would also consider unresolved.
    /// This is the same as the `default()` implementation.
    pub fn git() -> (r: TreatAsUnresolved)
        ensures
            r == (TreatAsUnresolved {
                content_merge: ContentMergeTreatment::Markers,
                tree_merge: TreeMerge::EvasiveRenames,
            }),
    {
        TreatAsUnresolved::default()
    }

    /// Only undecidable tree merges and conflict markers are considered unresolved.
    /// This also means that renamed entries to make space for a conflicting one is considered acceptable,
    /// making this preset the most lenient.
    pub fn undecidable() -> (r: TreatAsUnresolved)
        ensures
            r == (TreatAsUnresolved { content_merge: ContentMergeTreatment::Markers, tree_merge: TreeMerge::Undecidable }),
    {
        TreatAsUnresolved { content_merge: ContentMergeTreatment::Markers, tree_merge: TreeMerge::Undecidable }
    }
}

/// Decide how to resolve tree-related conflicts, but only those that have no way of being correct.
#[derive(Debug, Clone, Copy, PartialEq, Eq, Structural)]
pub enum ResolveWith {
    /// On irreconcilable conflict, choose neither *our* nor *their* state, but keep the common *ancestor* state instead.
    Ancestor,
    /// On irreconcilable conflict, choose *our* side.
    Ours,
}

/// Determines how we deal with the removal of unconflicted entries if these are superseded by
/// their conflicted counterparts, i.e. stage 1, 2 and 3.
#[derive(Debug, Clone, Copy, PartialEq, Eq, Structural)]
pub enum RemovalMode {
    /// Mark entries that are to be removed, keeping them in memory.
    Mark,
    /// Remove entries marked for removal from memory at the end.
    Prune,
}

/// Information about a blob content merge.
#[derive(Debug, Clone, PartialEq, Eq)]
pub struct ContentMerge {
    /// The fully merged blob.
    pub merged_blob_id: ObjectId,
    /// Identify the kind of resolution of the blob merge. Note that it may be conflicting.
    pub resolution: blob::Resolution,
}

impl ContentMerge {
    /// A copy of this information.
    pub fn copied(&self) -> (r: ContentMerge)
        ensures
            r.merged_blob_id@ == self.merged_blob_id@,
            r.resolution == self.resolution,
    {
        ContentMerge { merged_blob_id: self.merged_blob_id.copied(), resolution: self.resolution }
    }
}

/// Describes how a conflict involving *our* change and *their* change was specifically resolved.
#[derive(Debug, Clone, PartialEq, Eq)]
pub enum Resolution {
    /// *ours* had a renamed directory and *theirs* made a change in the now renamed directory.
    SourceLocationAffectedByRename { final_location: Vec<u8> },
    /// *ours* was a modified blob and *theirs* renamed that blob.
    OursModifiedTheirsRenamedAndChangedThenRename {
        merged_mode: Option<EntryMode>,
        merged_blob: Option<ContentMerge>,
        final_location: Option<Vec<u8>>,
    },
    /// *ours* and *theirs* carried changes and where content-merged.
    OursModifiedTheirsModifiedThenBlobContentMerge { merged_blob: ContentMerge },
    /// A resolution failure that was forcefully turned into a usable resolution.
    Forced(ResolutionFailure),
}

/// Describes how a conflict involving *our* change and *their* change failed to be resolved.
#[derive(Debug, Clone, PartialEq, Eq)]
pub enum ResolutionFailure {
    SubmoduleMerge,
    SubmoduleAddAdd,
    OursRenamedTheirsRenamedToSameLocation,
    OursRenamedTheirsRenamedDifferently { merged_blob: Option<ContentMerge> },
    OursModifiedTheirsDirectoryThenOursRenamed { renamed_unique_path_to_modified_blob: Vec<u8> },
    OursDirectoryTheirsNonDirectoryTheirsRenamed { renamed_unique_path_of_theirs: Vec<u8> },
    OursAddedTheirsAddedTypeMismatch { their_unique_location: Vec<u8> },
    OursModifiedTheirsRenamedTypeMismatch,
    OursDeletedTheirsRenamed,
    OursModifiedTheirsDeleted,
    Unknown,
}

/// The content merge that `failure` carries, if any.
pub open spec fn failure_merged_blob(failure: ResolutionFailure) -> Option<ContentMerge> {
    match failure {
        ResolutionFailure::OursRenamedTheirsRenamedDifferently { merged_blob } => merged_blob,
        _ => None,
    }
}

/// The content merge that `resolution` carries, if any.
pub open spec fn content_merge_spec(resolution: Result<Resolution, ResolutionFailure>) -> Option<ContentMerge> {
    match resolution {
        Ok(success) => match success {
            Resolution::Forced(failure) => failure_merged_blob(failure),
            Resolution::SourceLocationAffectedByRename { .. } => None,
            Resolution::OursModifiedTheirsRenamedAndChangedThenRename { merged_blob, .. } => merged_blob,
            Resolution::OursModifiedTheirsModifiedThenBlobContentMerge { merged_blob } => Some(merged_blob),
        },
        Err(failure) => failure_merged_blob(failure),
    }
}

/// `true` if the content merge `info` counts as unresolved under `how`.
pub open spec fn content_merge_unresolved(info: ContentMerge, how: TreatAsUnresolved) -> bool {
    match how.content_merge {
        ContentMergeTreatment::Markers => info.resolution == blob::Resolution::Conflict,
        ContentMergeTreatment::ForcedResolution => info.resolution == blob::Resolution::Conflict || info.resolution
            == blob::Resolution::CompleteWithAutoResolvedConflict,
    }
}

/// `true` if a conflict with `resolution` counts as unresolved under `how`.
pub open spec fn is_unresolved_spec(resolution: Result<Resolution, ResolutionFailure>, how: TreatAsUnresolved) -> bool {
    let merged = content_merge_spec(resolution);
    let merged_unresolved = match merged {
        Some(info) => content_merge_unresolved(info, how),
        None => false,
    };
    match how.tree_merge {
        TreeMerge::Undecidable => resolution is Err || merged_unresolved,
        _ => match resolution {
            Ok(success) => match success {
                Resolution::SourceLocationAffectedByRename { .. } => false,
                Resolution::Forced(_) => how.tree_merge == TreeMerge::ForcedResolution || merged_unresolved,
                Resolution::OursModifiedTheirsRenamedAndChangedThenRename { final_location, .. } => final_location
                    is Some || merged_unresolved,
                Resolution::OursModifiedTheirsModifiedThenBlobContentMerge { .. } => merged_unresolved,
            },
            Err(_) => true,
        },
    }
}

/// Which of the paths of a conflict an index entry of it goes to, where it is not the default.
#[derive(Debug, Clone, Copy, PartialEq, Eq, Structural)]
pub enum ConflictIndexEntryPathHint {
    /// The source location of our change.
    Source,
    /// The current location of the conflict.
    Current,
    /// The renamed location, else the location of their change as the resolution sees it.
    RenamedOrTheirs,
}

/// A conflicting entry for insertion into the index, at stage 1 (base), 2 (ours) or 3 (theirs).
#[derive(Debug, Clone, PartialEq, Eq)]
pub struct ConflictIndexEntry {
    /// The kind of object at this stage.
    pub mode: EntryMode,
    /// The id defining the state of the object.
    pub id: ObjectId,
    /// Which path the entry goes to, where it is not the default.
    pub path_hint: Option<ConflictIndexEntryPathHint>,
}

/// A copy of `entry`.
fn copy_index_entry(entry: &Option<ConflictIndexEntry>) -> (r: Option<ConflictIndexEntry>)
    ensures
        match (r, *entry) {
            (Some(a), Some(b)) => a.mode == b.mode && a.id@ == b.id@ && a.path_hint == b.path_hint,
            (None, None) => true,
            _ => false,
        },
{
    match entry {
        Some(e) => Some(ConflictIndexEntry { mode: e.mode, id: e.id.copied(), path_hint: e.path_hint }),
        None => None,
    }
}

/// A conflict encountered during a tree merge, with how it was resolved or why it couldn't be.
#[derive(Debug)]
pub struct Conflict {
    /// How the conflict resolution succeeded with `Ok(_)` or failed with `Err(_)`.
    pub resolution: Result<Resolution, ResolutionFailure>,
    /// The change of *our* side, as the sides are stored.
    pub ours: Change,
    /// The change of *their* side, as the sides are stored.
    pub theirs: Change,
    /// An entry for each stage of the conflict: base, ours, theirs, as the sides are stored.
    pub entries: [Option<ConflictIndexEntry>; 3],
    /// Which side is which.
    map: ConflictMapping,
}

/// The outcome of a tree merge.
pub struct Outcome<'a, F: FindTree> {
    /// The editor holding the merged tree.
    pub tree: Editor<'a, F>,
    /// The conflicts that were encountered, resolved or not.
    pub conflicts: Vec<Conflict>,
    /// `true` if the merge stopped at the first conflict that counts as unresolved.
    pub failed_on_first_unresolved_conflict: bool,
}

impl<'a, F: FindTree> Outcome<'a, F> {
    /// `true` if any conflict counts as unresolved by `how`, as it would still yield an undesirable
    /// tree.
    pub fn has_unresolved_conflicts(&self, how: TreatAsUnresolved) -> (r: bool)
        ensures
            r == exists|i: int| 0 <= i < self.conflicts@.len() && is_unresolved_spec(#[trigger] self.conflicts@[i].spec_resolution(), how),
    {
        let mut i: usize = 0;
        while i < self.conflicts.len()
            invariant
                i <= self.conflicts@.len(),
                forall|j: int| 0 <= j < i ==> !is_unresolved_spec(#[trigger] self.conflicts@[j].spec_resolution(), how),
            decreases self.conflicts.len() - i,
        {
            if self.conflicts[i].is_unresolved(how) {
                return true;
            }
            i += 1;
        }
        false
    }
}

impl Conflict {
    /// The resolution of this conflict.
    pub closed spec fn spec_resolution(&self) -> Result<Resolution, ResolutionFailure> {
        self.resolution
    }

    /// The stored index entries of this conflict.
    pub closed spec fn spec_entries(&self) -> [Option<ConflictIndexEntry>; 3] {
        self.entries
    }

    /// Which side is which.
    pub closed spec fn spec_map(&self) -> ConflictMapping {
        self.map
    }

    /// The change of our side, as stored.
    pub closed spec fn spec_ours(&self) -> Change {
        self.ours
    }

    /// The change of their side, as stored.
    pub closed spec fn spec_theirs(&self) -> Change {
        self.theirs
    }

    /// A conflict with `resolution`, the changes `ours` and `theirs` and `entries`, whose sides are
    /// mapped by `map` as seen through `outer_map`.
    pub fn maybe_resolved(
        resolution: Result<Resolution, ResolutionFailure>,
        ours: Change,
        theirs: Change,
        map: ConflictMapping,
        outer_map: ConflictMapping,
        entries: [Option<ConflictIndexEntry>; 3],
    ) -> (r: Conflict)
        ensures
            r.spec_resolution() == resolution,
            r.spec_ours() == ours,
            r.spec_theirs() == theirs,
            r.spec_entries() == entries,
            r.spec_map() == (if outer_map == ConflictMapping::Original {
                map
            } else {
                map.spec_swapped()
            }),
    {
        Conflict { resolution, ours, theirs, entries, map: map.to_global(outer_map) }
    }

    /// The changes `ours` and `theirs` so that they match their description in the resolution,
    /// swapped back where the sides are swapped.
    pub fn changes_in_resolution(&self) -> (r: (&Change, &Change))
        ensures
            (*r.0, *r.1) == (if self.spec_map() == ConflictMapping::Original {
                (self.spec_ours(), self.spec_theirs())
            } else {
                (self.spec_theirs(), self.spec_ours())
            }),
    {
        match self.map {
            ConflictMapping::Original => (&self.ours, &self.theirs),
            ConflictMapping::Swapped => (&self.theirs, &self.ours),
        }
    }

    /// Like [`Conflict::changes_in_resolution`], but taking the parts by value.
    pub fn into_parts_by_resolution(self) -> (r: (Result<Resolution, ResolutionFailure>, Change, Change))
        ensures
            r == (if self.spec_map() == ConflictMapping::Original {
                (self.spec_resolution(), self.spec_ours(), self.spec_theirs())
            } else {
                (self.spec_resolution(), self.spec_theirs(), self.spec_ours())
            }),
    {
        match self.map {
            ConflictMapping::Original => (self.resolution, self.ours, self.theirs),
            ConflictMapping::Swapped => (self.resolution, self.theirs, self.ours),
        }
    }

    /// The index entries for base, ours and theirs, in the order of
    /// [`Conflict::changes_in_resolution`].
    pub fn entries(&self) -> (r: [Option<ConflictIndexEntry>; 3])
        ensures
            ({
                let order = if self.spec_map() == ConflictMapping::Original {
                    [0int, 1, 2]
                } else {
                    [0int, 2, 1]
                };
                forall|k: int|
                    0 <= k < 3 ==> match (#[trigger] r@[k], self.spec_entries()@[order@[k]]) {
                        (Some(a), Some(b)) => a.mode == b.mode && a.id@ == b.id@ && a.path_hint == b.path_hint,
                        (None, None) => true,
                        _ => false,
                    }
            }),
    {
        let base = copy_index_entry(&self.entries[0]);
        let ours = copy_index_entry(&self.entries[1]);
        let theirs = copy_index_entry(&self.entries[2]);
        let r = match self.map {
            ConflictMapping::Original => [base, ours, theirs],
            ConflictMapping::Swapped => [base, theirs, ours],
        };
        proof {
            let order = if self.spec_map() == ConflictMapping::Original {
                [0int, 1, 2]
            } else {
                [0int, 2, 1]
            };
            assert(r@[0] == base);
            assert(order@[0] == 0);
            if self.map == ConflictMapping::Original {
                assert(r@[1] == ours && r@[2] == theirs);
                assert(order@[1] == 1 && order@[2] == 2);
            } else {
                assert(r@[1] == theirs && r@[2] == ours);
                assert(order@[1] == 2 && order@[2] == 1);
            }
        }
        r
    }

    /// Return `true` if this instance is considered unresolved based on the criterion specified by `how`.
    pub fn is_unresolved(&self, how: TreatAsUnresolved) -> (r: bool)
        ensures
            r == is_unresolved_spec(self.spec_resolution(), how),
    {
        let merged_unresolved = match self.content_merge_ref() {
            Some(info) => match how.content_merge {
                ContentMergeTreatment::Markers => info.resolution == blob::Resolution::Conflict,
                ContentMergeTreatment::ForcedResolution => info.resolution == blob::Resolution::Conflict
                    || info.resolution == blob::Resolution::CompleteWithAutoResolvedConflict,
            },
            None => false,
        };
        match how.tree_merge {
            TreeMerge::Undecidable => self.resolution.is_err() || merged_unresolved,
            TreeMerge::EvasiveRenames | TreeMerge::ForcedResolution => match &self.resolution {
                Ok(success) => match success {
                    Resolution::SourceLocationAffectedByRename { .. } => false,
                    Resolution::Forced(_) => how.tree_merge == TreeMerge::ForcedResolution || merged_unresolved,
                    Resolution::OursModifiedTheirsRenamedAndChangedThenRename { final_location, .. } => {
                        final_location.is_some() || merged_unresolved
                    },
                    Resolution::OursModifiedTheirsModifiedThenBlobContentMerge { .. } => merged_unresolved,
                },
                Err(_) => true,
            },
        }
    }

    /// The content merge of this conflict, by reference.
    fn content_merge_ref(&self) -> (r: Option<&ContentMerge>)
        ensures
            r == match content_merge_spec(self.resolution) {
                Some(c) => Some(&c),
                None => None::<&ContentMerge>,
            },
    {
        match &self.resolution {
            Ok(success) => match success {
                Resolution::Forced(failure) => match failure {
                    ResolutionFailure::OursRenamedTheirsRenamedDifferently { merged_blob } => merged_blob.as_ref(),
                    _ => None,
                },
                Resolution::SourceLocationAffectedByRename { .. } => None,
                Resolution::OursModifiedTheirsRenamedAndChangedThenRename { merged_blob, .. } => merged_blob.as_ref(),
                Resolution::OursModifiedTheirsModifiedThenBlobContentMerge { merged_blob } => Some(merged_blob),
            },
            Err(failure) => match failure {
                ResolutionFailure::OursRenamedTheirsRenamedDifferently { merged_blob } => merged_blob.as_ref(),
                _ => None,
            },
        }
    }

    /// Return information about the content merge if it was performed.
    pub fn content_merge(&self) -> (r: Option<ContentMerge>)
        ensures
            match content_merge_spec(self.spec_resolution()) {
                Some(c) => r matches Some(m) && m.merged_blob_id@ == c.merged_blob_id@ && m.resolution == c.resolution,
                None => r is None,
            },
    {
        match self.content_merge_ref() {
            Some(c) => Some(c.copied()),
            None => None,
        }
    }

    /// `true` if the sides of this conflict are swapped compared to the field documentation.
    pub fn is_swapped(&self) -> (r: bool)
        ensures
            r == (self.spec_map() == ConflictMapping::Swapped),
    {
        self.map.is_swapped()
    }
}

/// The most lenient preset considers unresolved no more than Git does, and Git no more than the
/// most sensitive preset.
pub proof fn lemma_presets_are_ordered(resolution: Result<Resolution, ResolutionFailure>)
    ensures
        is_unresolved_spec(
            resolution,
            TreatAsUnresolved { content_merge: ContentMergeTreatment::Markers, tree_merge: TreeMerge::Undecidable },
        ) ==> is_unresolved_spec(
            resolution,
            TreatAsUnresolved { content_merge: ContentMergeTreatment::Markers, tree_merge: TreeMerge::EvasiveRenames },
        ),
        is_unresolved_spec(
            resolution,
            TreatAsUnresolved { content_merge: ContentMergeTreatment::Markers, tree_merge: TreeMerge::EvasiveRenames },
        ) ==> is_unresolved_spec(
            resolution,
            TreatAsUnresolved {
                content_merge: ContentMergeTreatment::ForcedResolution,
                tree_merge: TreeMerge::ForcedResolution,
            },
        ),
{
}

/// The error returned by tree merges.
#[derive(Debug)]
pub enum Error {
    /// Another failure, described by this message.
    Other(String),
    /// Editing the merged tree failed.
    Edit(EditError),
    /// The merge was performed, but the binary merge result couldn't be selected as it wasn't found.
    MergeResourceNotFound,
}

/// A potential conflict that needs to be checked. It comes in several varieties and always happens
/// if paths overlap in some way between *theirs* and *ours*.
#[derive(Debug, Clone, Copy, PartialEq, Eq, Structural)]
pub enum PossibleConflict {
    /// *our* changes have a tree here, but *they* place a non-tree or edit an existing item (that we removed).
    TreeToNonTree { change_idx: Option<usize> },
    /// A non-tree in *our* tree turned into a tree in *theirs*.
    NonTreeToTree { change_idx: Option<usize> },
    /// A perfect match, i.e. *our* change at `a/b/c` corresponds to *their* change at the same path.
    Match { change_idx: usize },
    /// *their* change at `a/b/c` passed `a/b` which is an index to *our* change indicating a
    /// directory that was rewritten, with all its contents being renamed.
    PassedRewrittenDirectory { change_idx: usize },
}

impl PossibleConflict {
    /// Return the index into the change list from which this conflict tree was built.
    ///
    /// This is `None` for structural tree/non-tree conflicts if there is no change at the
    /// conflicting path itself, only one or more changes below it.
    pub fn change_idx(&self) -> (r: Option<usize>)
        ensures
            r == match *self {
                PossibleConflict::TreeToNonTree { change_idx } => change_idx,
                PossibleConflict::NonTreeToTree { change_idx } => change_idx,
                PossibleConflict::Match { change_idx } => Some(change_idx),
                PossibleConflict::PassedRewrittenDirectory { change_idx } => Some(change_idx),
            },
    {
        match self {
            PossibleConflict::TreeToNonTree { change_idx } | PossibleConflict::NonTreeToTree { change_idx } => {
                *change_idx
            },
            PossibleConflict::Match { change_idx } | PossibleConflict::PassedRewrittenDirectory { change_idx } => {
                Some(*change_idx)
            },
        }
    }
}

// ---------------------------------------------------------------------------------------------
// Recording conflicts and scheduling the sides.

/// The rules a tree merge records conflicts by: how tree conflicts are forced to a resolution,
/// if at all, and what counts as unresolved where the merge stops at the first such conflict.
#[derive(Debug, Clone, Copy, PartialEq, Eq, Structural)]
pub struct ConflictRules {
    pub tree_conflicts: Option<ResolveWith>,
    pub fail_on_conflict: Option<TreatAsUnresolved>,
}

/// Where a tree merge stands: its rules, the conflicts recorded so far, whether it stopped at the
/// first conflict counting as unresolved, which side is processed as theirs, and the bounds of the
/// batch of their changes being processed.
pub struct TreeMergeState {
    pub rules: ConflictRules,
    pub conflicts: Vec<Conflict>,
    pub failed_on_first_conflict: bool,
    pub outer_side: ConflictMapping,
    pub batch_start: usize,
    pub batch_end: usize,
}

/// A [`TreeMergeState`] with its conflicts taken as a sequence.
pub struct TreeMergeStateView {
    pub rules: ConflictRules,
    pub conflicts: Seq<Conflict>,
    pub failed_on_first_conflict: bool,
    pub outer_side: ConflictMapping,
    pub batch_start: nat,
    pub batch_end: nat,
}

impl View for TreeMergeState {
    type V = TreeMergeStateView;

    open spec fn view(&self) -> TreeMergeStateView {
        TreeMergeStateView {
            rules: self.rules,
            conflicts: self.conflicts@,
            failed_on_first_conflict: self.failed_on_first_conflict,
            outer_side: self.outer_side,
            batch_start: self.batch_start as nat,
            batch_end: self.batch_end as nat,
        }
    }
}

/// What happened in a tree merge: resolving a pair of changes met `Conflict`, or the batch of
/// their changes was worked through, after which they number `changes_len`.
pub enum TreeMergeEvent {
    Conflict(Conflict),
    BatchDone { changes_len: usize },
}

/// What the tree merge does next: go on, stop as a conflict counts as unresolved, work through
/// their changes from `start` to `end` (those added during the last batch), or, with none added,
/// swap the sides and begin with the other side's changes.
#[derive(Debug, Clone, Copy, PartialEq, Eq, Structural)]
pub enum TreeMergeAction {
    Continue,
    Stop,
    Batch { start: usize, end: usize },
    SwapSides,
}

/// `resolution` as recorded under `rules`: a failed resolution is forced into one where tree
/// conflicts are resolved by a strategy.
pub open spec fn recorded_resolution(resolution: Result<Resolution, ResolutionFailure>, rules: ConflictRules) -> Result<
    Resolution,
    ResolutionFailure,
> {
    match resolution {
        Err(failure) => if rules.tree_conflicts is Some {
            Ok(Resolution::Forced(failure))
        } else {
            Err(failure)
        },
        Ok(r) => Ok(r),
    }
}

/// `conflict` as recorded under `rules`: its resolution is [`recorded_resolution`], all else is kept.
pub closed spec fn recorded(conflict: Conflict, rules: ConflictRules) -> Conflict {
    Conflict { resolution: recorded_resolution(conflict.resolution, rules), ..conflict }
}

/// A recorded conflict differs from the one met by its resolution alone.
pub proof fn lemma_recorded(conflict: Conflict, rules: ConflictRules)
    ensures
        recorded(conflict, rules).spec_resolution() == recorded_resolution(conflict.spec_resolution(), rules),
        recorded(conflict, rules).spec_ours() == conflict.spec_ours(),
        recorded(conflict, rules).spec_theirs() == conflict.spec_theirs(),
        recorded(conflict, rules).spec_entries() == conflict.spec_entries(),
        recorded(conflict, rules).spec_map() == conflict.spec_map(),
{
}

/// The next state and action of a tree merge in `state` on `event`. A conflict is recorded as
/// [`recorded`] says; the merge stops where it fails on conflicts and this one failed to be
/// resolved or counts as unresolved, and from then on it stays failed. After a batch, the changes
/// added during it make the next batch; where there are none, the sides swap and the next side
/// starts from its first change.
pub open spec fn tree_merge_next(state: TreeMergeStateView, event: TreeMergeEvent) -> (TreeMergeStateView, TreeMergeAction) {
    match event {
        TreeMergeEvent::Conflict(c) => {
            let kept = recorded(c, state.rules);
            let failed = state.failed_on_first_conflict || match state.rules.fail_on_conflict {
                Some(how) => kept.spec_resolution() is Err || is_unresolved_spec(kept.spec_resolution(), how),
                None => false,
            };
            (
                TreeMergeStateView { conflicts: state.conflicts.push(kept), failed_on_first_conflict: failed, ..state },
                if failed {
                    TreeMergeAction::Stop
                } else {
                    TreeMergeAction::Continue
                },
            )
        },
        TreeMergeEvent::BatchDone { changes_len } => if state.batch_end != changes_len {
            (
                TreeMergeStateView { batch_start: state.batch_end, batch_end: changes_len as nat, ..state },
                TreeMergeAction::Batch { start: state.batch_end as usize, end: changes_len },
            )
        } else {
            (
                TreeMergeStateView {
                    outer_side: state.outer_side.spec_swapped(),
                    batch_start: 0,
                    batch_end: 0,
                    ..state
                },
                TreeMergeAction::SwapSides,
            )
        },
    }
}

/// Take one step of a tree merge: from `state` on `event` to the next state and what to do.
pub fn tree_merge_step(state: TreeMergeState, event: TreeMergeEvent) -> (r: (TreeMergeState, TreeMergeAction))
    ensures
        (r.0@, r.1) == tree_merge_next(state@, event),
{
    let TreeMergeState { rules, mut conflicts, failed_on_first_conflict, outer_side, batch_start, batch_end } = state;
    match event {
        TreeMergeEvent::Conflict(c) => {
            let Conflict { resolution, ours, theirs, entries, map } = c;
            let resolution = match resolution {
                Err(failure) => if rules.tree_conflicts.is_some() {
                    Ok(Resolution::Forced(failure))
                } else {
                    Err(failure)
                },
                Ok(r) => Ok(r),
            };
            let kept = Conflict { resolution, ours, theirs, entries, map };
            let failed = failed_on_first_conflict || match rules.fail_on_conflict {
                Some(how) => kept.resolution.is_err() || kept.is_unresolved(how),
                None => false,
            };
            conflicts.push(kept);
            let action = if failed {
                TreeMergeAction::Stop
            } else {
                TreeMergeAction::Continue
            };
            (TreeMergeState { rules, conflicts, failed_on_first_conflict: failed, outer_side, batch_start, batch_end }, action)
        },
        TreeMergeEvent::BatchDone { changes_len } => if batch_end != changes_len {
            (
                TreeMergeState { rules, conflicts, failed_on_first_conflict, outer_side, batch_start: batch_end, batch_end: changes_len },
                TreeMergeAction::Batch { start: batch_end, end: changes_len },
            )
        } else {
            (
                TreeMergeState {
                    rules,
                    conflicts,
                    failed_on_first_conflict,
                    outer_side: outer_side.swapped(),
                    batch_start: 0,
                    batch_end: 0,
                },
                TreeMergeAction::SwapSides,
            )
        },
    }
}

/// A tree merge that forces tree conflicts into a resolution records no conflict whose resolution
/// failed; one that stopped stays stopped, and a merge that fails on conflicts stops at the first
/// conflict it records as unresolved.
pub proof fn lemma_tree_merge_rules(state: TreeMergeStateView, c: Conflict)
    ensures
        ({
            let (next, action) = tree_merge_next(state, TreeMergeEvent::Conflict(c));
            &&& next.conflicts.len() == state.conflicts.len() + 1
            &&& state.rules.tree_conflicts is Some ==> next.conflicts.last().spec_resolution() is Ok
            &&& state.failed_on_first_conflict ==> action == TreeMergeAction::Stop
            &&& (state.rules.fail_on_conflict matches Some(how) && is_unresolved_spec(
                next.conflicts.last().spec_resolution(),
                how,
            )) ==> action == TreeMergeAction::Stop
            &&& state.rules.fail_on_conflict is None && !state.failed_on_first_conflict ==> action == TreeMergeAction::Continue
        }),
{
}

// ---------------------------------------------------------------------------------------------
// Where the index entries of a conflict go.

/// `p` by value, if there is one.
pub open spec fn opt_path(p: Option<Vec<u8>>) -> Option<Seq<u8>> {
    match p {
        Some(x) => Some(x@),
        None => None,
    }
}

/// The paths that the index entries of `c` go to, as `(renamed, current)`: the location a change
/// was moved to, if any, and the location of the conflict; `None` where the conflict was forced
/// into a resolution, whose entries are not added.
pub open spec fn conflict_paths(c: Conflict) -> Option<(Option<Seq<u8>>, Seq<u8>)> {
    let ours = c.spec_ours().spec_location();
    let resolved_theirs = if c.spec_map() == ConflictMapping::Original {
        c.spec_theirs()
    } else {
        c.spec_ours()
    };
    match c.spec_resolution() {
        Ok(success) => match success {
            Resolution::Forced(_) => None,
            Resolution::SourceLocationAffectedByRename { final_location } => Some((Some(final_location@), final_location@)),
            Resolution::OursModifiedTheirsRenamedAndChangedThenRename { final_location, .. } => Some(
                (opt_path(final_location), resolved_theirs.spec_location()),
            ),
            Resolution::OursModifiedTheirsModifiedThenBlobContentMerge { .. } => Some((None, ours)),
        },
        Err(failure) => match failure {
            ResolutionFailure::OursDirectoryTheirsNonDirectoryTheirsRenamed { renamed_unique_path_of_theirs } => Some(
                (Some(renamed_unique_path_of_theirs@), ours),
            ),
            ResolutionFailure::OursRenamedTheirsRenamedDifferently { .. } => Some((Some(c.spec_theirs().spec_location()), ours)),
            ResolutionFailure::OursModifiedTheirsDirectoryThenOursRenamed { renamed_unique_path_to_modified_blob } => Some(
                (Some(renamed_unique_path_to_modified_blob@), ours),
            ),
            ResolutionFailure::OursAddedTheirsAddedTypeMismatch { their_unique_location } => Some(
                (Some(their_unique_location@), ours),
            ),
            _ => Some((None, ours)),
        },
    }
}

/// The path that an index entry with `hint` of the conflict `c` goes to, given its paths
/// `(renamed, current)`: by default the renamed one, else the current one.
pub open spec fn entry_path(c: Conflict, paths: (Option<Seq<u8>>, Seq<u8>), hint: Option<ConflictIndexEntryPathHint>) -> Seq<u8> {
    let resolved_theirs = if c.spec_map() == ConflictMapping::Original {
        c.spec_theirs()
    } else {
        c.spec_ours()
    };
    match hint {
        None => match paths.0 {
            Some(r) => r,
            None => paths.1,
        },
        Some(ConflictIndexEntryPathHint::Source) => c.spec_ours().spec_source_location(),
        Some(ConflictIndexEntryPathHint::Current) => paths.1,
        Some(ConflictIndexEntryPathHint::RenamedOrTheirs) => match paths.0 {
            Some(r) => r,
            None => resolved_theirs.spec_location(),
        },
    }
}

impl Conflict {
    /// The index entries of this conflict at stages 1 (base), 2 (ours) and 3 (theirs), as
    /// [`Conflict::entries`] orders them, each with the path it goes to, as [`conflict_paths`] and
    /// [`entry_path`] say; entries of trees are left out. `None` where the conflict was forced into
    /// a resolution.
    pub fn index_entry_paths(&self) -> (r: Option<[Option<(Vec<u8>, ConflictIndexEntry)>; 3]>)
        ensures
            match conflict_paths(*self) {
                None => r is None,
                Some(paths) => r matches Some(staged) && {
                    let order = if self.spec_map() == ConflictMapping::Original {
                        [0int, 1, 2]
                    } else {
                        [0int, 2, 1]
                    };
                    forall|k: int|
                        0 <= k < 3 ==> match (#[trigger] staged@[k], self.spec_entries()@[order@[k]]) {
                            (Some((path, a)), Some(b)) => !is_tree_mode(b.mode) && a.mode == b.mode && a.id@ == b.id@
                                && a.path_hint == b.path_hint && path@ == entry_path(*self, paths, b.path_hint),
                            (None, Some(b)) => is_tree_mode(b.mode),
                            (None, None) => true,
                            _ => false,
                        }
                },
            },
    {
        let theirs = self.changes_in_resolution().1;
        let (renamed, current): (Option<&[u8]>, &[u8]) = match &self.resolution {
            Ok(success) => match success {
                Resolution::Forced(_) => {
                    return None;
                },
                Resolution::SourceLocationAffectedByRename { final_location } => (
                    Some(final_location.as_slice()),
                    final_location.as_slice(),
                ),
                Resolution::OursModifiedTheirsRenamedAndChangedThenRename { final_location, .. } => (
                    match final_location {
                        Some(p) => Some(p.as_slice()),
                        None => None,
                    },
                    theirs.location(),
                ),
                Resolution::OursModifiedTheirsModifiedThenBlobContentMerge { .. } => (None, self.ours.location()),
            },
            Err(failure) => match failure {
                ResolutionFailure::OursDirectoryTheirsNonDirectoryTheirsRenamed { renamed_unique_path_of_theirs } => (
                    Some(renamed_unique_path_of_theirs.as_slice()),
                    self.ours.location(),
                ),
                ResolutionFailure::OursRenamedTheirsRenamedDifferently { .. } => (
                    Some(self.theirs.location()),
                    self.ours.location(),
                ),
                ResolutionFailure::OursModifiedTheirsDirectoryThenOursRenamed { renamed_unique_path_to_modified_blob } => (
                    Some(renamed_unique_path_to_modified_blob.as_slice()),
                    self.ours.location(),
                ),
                ResolutionFailure::OursAddedTheirsAddedTypeMismatch { their_unique_location } => (
                    Some(their_unique_location.as_slice()),
                    self.ours.location(),
                ),
                _ => (None, self.ours.location()),
            },
        };
        let ghost paths = conflict_paths(*self)->0;
        assert(current@ == paths.1);
        assert(match renamed {
            Some(x) => paths.0 == Some(x@),
            None => paths.0 is None,
        });
        let source = self.ours.source_location();
        let staged = self.entries();
        let base = self.staged_path(&staged[0], renamed, current, source, theirs);
        let ours_entry = self.staged_path(&staged[1], renamed, current, source, theirs);
        let theirs_entry = self.staged_path(&staged[2], renamed, current, source, theirs);
        Some([base, ours_entry, theirs_entry])
    }

    /// `entry` with the path it goes to, unless it is a tree.
    fn staged_path(
        &self,
        entry: &Option<ConflictIndexEntry>,
        renamed: Option<&[u8]>,
        current: &[u8],
        source: &[u8],
        resolved_theirs: &Change,
    ) -> (r: Option<(Vec<u8>, ConflictIndexEntry)>)
        requires
            source@ == self.spec_ours().spec_source_location(),
            *resolved_theirs == (if self.spec_map() == ConflictMapping::Original {
                self.spec_theirs()
            } else {
                self.spec_ours()
            }),
        ensures
            match *entry {
                Some(b) => if is_tree_mode(b.mode) {
                    r is None
                } else {
                    r matches Some((path, a)) && a.mode == b.mode && a.id@ == b.id@ && a.path_hint == b.path_hint
                        && path@ == entry_path(
                        *self,
                        (
                            match renamed {
                                Some(x) => Some(x@),
                                None => None,
                            },
                            current@,
                        ),
                        b.path_hint,
                    )
                },
                None => r is None,
            },
    {
        match entry {
            None => None,
            Some(e) => {
                if e.mode.is_tree() {
                    return None;
                }
                let path: &[u8] = match e.path_hint {
                    None => match renamed {
                        Some(r) => r,
                        None => current,
                    },
                    Some(ConflictIndexEntryPathHint::Source) => source,
                    Some(ConflictIndexEntryPathHint::Current) => current,
                    Some(ConflictIndexEntryPathHint::RenamedOrTheirs) => match renamed {
                        Some(r) => r,
                        None => resolved_theirs.location(),
                    },
                };
                let owned = crate::bytes::copy_range(path, 0, path.len());
                assert(owned@ =~= path@);
                Some((owned, ConflictIndexEntry { mode: e.mode, id: e.id.copied(), path_hint: e.path_hint }))
            },
        }
    }
}

} // verus!
