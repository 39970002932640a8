//! Applying the conflicts of a tree merge to the index that the merged tree produced: the
//! conflicting stages are added, and the unconflicted entries they supersede are marked for
//! removal or removed.
use vstd::prelude::*;

use crate::hash::ObjectId;
use crate::merge::tree::{
    conflict_paths, entry_path, is_unresolved_spec, Conflict, ConflictMapping, EntryMode, RemovalMode, TreatAsUnresolved,
};
use crate::object_tree::is_tree_mode;

verus! {

/// The index of a repository, held as `gix-index` holds it; its entries are read and changed
/// only through the trusted functions below, which name what they hold.
#[verifier::external_body]
pub struct IndexState {
    pub inner: gix_index::State,
}

/// An entry of an index, as the merge reads it: its path, its stage (0 where it is unconflicted,
/// 1, 2 and 3 for the base, ours and theirs of a conflict), the bits of its mode, its id, and
/// whether it is marked for removal.
pub struct IndexEntryView {
    pub path: Seq<u8>,
    pub stage: u32,
    pub mode: u32,
    pub id: Seq<u8>,
    pub remove: bool,
}

/// The entries of `state`, in its order.
pub uninterp spec fn index_entries(state: IndexState) -> Seq<IndexEntryView>;

/// `state` is a sparse index.
pub uninterp spec fn index_is_sparse(state: IndexState) -> bool;

/// `a` comes before `b` or equals it, byte by byte, a prefix first.
pub open spec fn bytes_le(a: Seq<u8>, b: Seq<u8>) -> bool
    decreases a.len(),
{
    if a.len() == 0 {
        true
    } else if b.len() == 0 {
        false
    } else if a[0] != b[0] {
        a[0] < b[0]
    } else {
        bytes_le(a.drop_first(), b.drop_first())
    }
}

/// `a` comes before `b` in an index or at the same place: by path, then by stage.
pub open spec fn entry_le(a: IndexEntryView, b: IndexEntryView) -> bool {
    (bytes_le(a.path, b.path) && a.path != b.path) || (a.path == b.path && a.stage <= b.stage)
}

/// `entries` are sorted as an index keeps them.
pub open spec fn index_sorted(entries: Seq<IndexEntryView>) -> bool {
    forall|i: int, j: int| 0 <= i < j < entries.len() ==> entry_le(#[trigger] entries[i], #[trigger] entries[j])
}

/// The bits of the index mode that `gix-index` makes of the tree entry mode `value`: those of the
/// modes it knows, as `Mode::from_bits_truncate` keeps them.
pub open spec fn index_mode(value: u16) -> u32 {
    (value as u32) & 0o160755u32
}

/// Calls `gix_index::State::is_sparse()`, which tells whether the index is sparse.
#[verifier::external_body]
fn state_is_sparse(state: &IndexState) -> (r: bool)
    ensures
        r == index_is_sparse(*state),
{
    state.inner.is_sparse()
}

/// Calls `gix_index::State::entries()` and takes its length.
#[verifier::external_body]
fn entry_count(state: &IndexState) -> (r: usize)
    ensures
        r == index_entries(*state).len(),
{
    state.inner.entries().len()
}

/// Calls `gix_index::State::entry_index_by_path_and_stage_bounded()` for the unconflicted stage,
/// a binary search among the first `bound` entries by path and stage. Where those are sorted, it
/// gives the position of an unconflicted entry at `path` if there is one, and `None` where there
/// is none; of unsorted entries the result is left open, as the search documents.
#[verifier::external_body]
fn find_unconflicted(state: &IndexState, path: &[u8], bound: usize) -> (r: Option<usize>)
    requires
        bound <= index_entries(*state).len(),
    ensures
        r matches Some(i) ==> i < bound,
        index_sorted(index_entries(*state).take(bound as int)) ==> match r {
            Some(i) => i < bound && index_entries(*state)[i as int].path == path@ && index_entries(*state)[i as int].stage == 0,
            None => forall|i: int|
                0 <= i < bound ==> !(#[trigger] index_entries(*state)[i].path == path@ && index_entries(*state)[i].stage == 0),
        },
{
    state.inner.entry_index_by_path_and_stage_bounded(bstr::BStr::new(path), gix_index::entry::Stage::Unconflicted, bound)
}

/// Inserts the `REMOVE` flag into the flags of the entry at `pos`, through
/// `gix_index::State::entries_mut()`.
#[verifier::external_body]
fn mark_for_removal(state: &mut IndexState, pos: usize)
    requires
        pos < index_entries(*old(state)).len(),
    ensures
        index_entries(*final(state)) == index_entries(*old(state)).update(
            pos as int,
            IndexEntryView { remove: true, ..index_entries(*old(state))[pos as int] },
        ),
        index_is_sparse(*final(state)) == index_is_sparse(*old(state)),
{
    state.inner.entries_mut()[pos].flags.insert(gix_index::entry::Flags::REMOVE);
}

/// Sets the mode (through `gix_index::entry::Mode::from_bits_truncate`) and the id of the entry at
/// `pos`, through `gix_index::State::entries_mut()`.
#[verifier::external_body]
fn set_mode_and_id(state: &mut IndexState, pos: usize, mode: EntryMode, id: &ObjectId)
    requires
        pos < index_entries(*old(state)).len(),
        id@.len() == 20 || id@.len() == 32,
    ensures
        index_entries(*final(state)) == index_entries(*old(state)).update(
            pos as int,
            IndexEntryView { mode: index_mode(mode.value), id: id@, ..index_entries(*old(state))[pos as int] },
        ),
        index_is_sparse(*final(state)) == index_is_sparse(*old(state)),
{
    let entry = &mut state.inner.entries_mut()[pos];
    entry.mode = gix_index::entry::Mode::from_bits_truncate(u32::from(mode.value));
    entry.id = gix_hash::ObjectId::try_from(id.bytes.as_slice()).expect("20 or 32 bytes");
}

/// Calls `gix_index::State::dangerously_push_entry()` with default stat information, the flags of
/// `stage` (1, 2 or 3) alone, the mode as `Mode::from_bits_truncate` makes it, `id` and `path`,
/// which appends such an entry.
#[verifier::external_body]
fn push_entry(state: &mut IndexState, id: &ObjectId, stage: u32, mode: EntryMode, path: &[u8])
    requires
        1 <= stage <= 3,
        id@.len() == 20 || id@.len() == 32,
    ensures
        index_entries(*final(state)) == index_entries(*old(state)).push(
            IndexEntryView { path: path@, stage, mode: index_mode(mode.value), id: id@, remove: false },
        ),
        index_is_sparse(*final(state)) == index_is_sparse(*old(state)),
{
    let stage = match stage {
        1 => gix_index::entry::Stage::Base,
        2 => gix_index::entry::Stage::Ours,
        _ => gix_index::entry::Stage::Theirs,
    };
    state.inner.dangerously_push_entry(
        Default::default(),
        gix_hash::ObjectId::try_from(id.bytes.as_slice()).expect("20 or 32 bytes"),
        stage.into(),
        gix_index::entry::Mode::from_bits_truncate(u32::from(mode.value)),
        bstr::BStr::new(path),
    );
}

/// Calls `gix_index::State::remove_entries()` with a predicate that picks the entries whose flags
/// hold `REMOVE`, which keeps the others in their order.
#[verifier::external_body]
fn remove_marked(state: &mut IndexState)
    ensures
        index_entries(*final(state)) == index_entries(*old(state)).filter(|e: IndexEntryView| !e.remove),
        index_is_sparse(*final(state)) == index_is_sparse(*old(state)),
{
    state.inner.remove_entries(|_, _, e| e.flags.contains(gix_index::entry::Flags::REMOVE));
}

/// Calls `gix_index::State::sort_entries()`, a sort by path (byte by byte, a prefix first) and
/// then by stage, which keeps the entries and puts them in that order.
#[verifier::external_body]
fn sort_entries(state: &mut IndexState)
    ensures
        index_entries(*final(state)).to_multiset() == index_entries(*old(state)).to_multiset(),
        index_sorted(index_entries(*final(state))),
        index_is_sparse(*final(state)) == index_is_sparse(*old(state)),
{
    state.inner.sort_entries();
}

/// `a` is `b` but for the mark for removal.
pub open spec fn same_but_mark(a: IndexEntryView, b: IndexEntryView) -> bool {
    a.path == b.path && a.stage == b.stage && a.mode == b.mode && a.id == b.id
}

/// The position that `map` records for the entry at `stage` and `path`, if any.
fn recorded_position(map: &Vec<(u32, Vec<u8>, usize)>, stage: u32, path: &[u8]) -> (r: Option<usize>)
    ensures
        match r {
            Some(p) => exists|m: int| 0 <= m < map@.len() && #[trigger] map@[m].2 == p && map@[m].0 == stage && map@[m].1@ == path@,
            None => forall|m: int| 0 <= m < map@.len() ==> !(#[trigger] map@[m].0 == stage && map@[m].1@ == path@),
        },
{
    let mut m: usize = 0;
    while m < map.len()
        invariant
            m <= map@.len(),
            forall|j: int| 0 <= j < m ==> !(#[trigger] map@[j].0 == stage && map@[j].1@ == path@),
        decreases map.len() - m,
    {
        if map[m].0 == stage && crate::bytes::slice_eq(map[m].1.as_slice(), path) {
            return Some(map[m].2);
        }
        m += 1;
    }
    None
}

/// `applied` is what applying conflicts made of the index entries `old` before the marked entries
/// were removed (with `removal_mode` [`RemovalMode::Prune`]) and the entries sorted into `after`:
/// the old entries, some of them marked for removal, then the added conflicting stages, unmarked;
/// `added` tells whether there are any.
pub open spec fn applied_from(
    old: Seq<IndexEntryView>,
    applied: Seq<IndexEntryView>,
    added: bool,
    removal_mode: RemovalMode,
    after: Seq<IndexEntryView>,
) -> bool {
    &&& added == (applied.len() > old.len())
    &&& applied.len() >= old.len()
    &&& forall|i: int| 0 <= i < old.len() ==> same_but_mark(#[trigger] applied[i], old[i])
    &&& forall|i: int| old.len() <= i < applied.len() ==> 1 <= (#[trigger] applied[i]).stage <= 3 && !applied[i].remove
    &&& after.to_multiset() == (if removal_mode == RemovalMode::Prune {
        applied.filter(|e: IndexEntryView| !e.remove)
    } else {
        applied
    }).to_multiset()
}

/// The position in a conflict's stored entries of the entry at `slot` of [`Conflict::entries`].
pub open spec fn stored_slot(c: Conflict, slot: int) -> int {
    if c.spec_map() == ConflictMapping::Original || slot == 0 {
        slot
    } else {
        3 - slot
    }
}

/// `e` is the index entry that the conflict `c`, unresolved under `how`, adds at `slot` (stage
/// `slot + 1`): at the path that [`entry_path`] gives, with the mode and the id of the conflict's
/// entry there, which is no tree.
pub open spec fn staged_entry(c: Conflict, how: TreatAsUnresolved, slot: int, e: IndexEntryView) -> bool {
    &&& is_unresolved_spec(c.spec_resolution(), how)
    &&& 0 <= slot < 3
    &&& e.stage == slot + 1
    &&& conflict_paths(c) matches Some(paths)
    &&& c.spec_entries()@[stored_slot(c, slot)] matches Some(b)
    &&& !is_tree_mode(b.mode)
    &&& e.path == entry_path(c, paths, b.path_hint)
    &&& e.mode == index_mode(b.mode.value)
    &&& e.id == b.id@
}

/// The conflict `c`, unresolved under `how`, has an index entry at `slot` that goes to `path`.
pub open spec fn stages_at(c: Conflict, how: TreatAsUnresolved, slot: int, path: Seq<u8>) -> bool {
    &&& is_unresolved_spec(c.spec_resolution(), how)
    &&& 0 <= slot < 3
    &&& conflict_paths(c) matches Some(paths)
    &&& c.spec_entries()@[stored_slot(c, slot)] matches Some(b)
    &&& !is_tree_mode(b.mode)
    &&& path == entry_path(c, paths, b.path_hint)
}

/// Every entry of `old` that `now` marks for removal anew is unconflicted, at a path that one of
/// `conflicts` has an index entry at.
pub open spec fn marks_sound(old: Seq<IndexEntryView>, now: Seq<IndexEntryView>, conflicts: Seq<Conflict>, how: TreatAsUnresolved) -> bool {
    forall|i: int|
        0 <= i < old.len() && (#[trigger] now[i]).remove && !old[i].remove ==> old[i].stage == 0 && exists|k: int, slot: int|
            0 <= k < conflicts.len() && #[trigger] stages_at(conflicts[k], how, slot, old[i].path)
}

/// `e` was added by one of `conflicts`.
pub open spec fn added_by(conflicts: Seq<Conflict>, how: TreatAsUnresolved, e: IndexEntryView) -> bool {
    exists|k: int, slot: int| 0 <= k < conflicts.len() && #[trigger] staged_entry(conflicts[k], how, slot, e)
}

/// `e` is an unconflicted entry at `path`.
pub open spec fn unconflicted_at(e: IndexEntryView, path: Seq<u8>) -> bool {
    e.path == path && e.stage == 0
}

/// `old` holds an unconflicted entry at `path`.
pub open spec fn has_unconflicted(old: Seq<IndexEntryView>, path: Seq<u8>) -> bool {
    exists|i: int| 0 <= i < old.len() && #[trigger] unconflicted_at(old[i], path)
}

/// The conflict `c` supersedes an entry of `old`: it counts as unresolved under `how`, was not
/// forced into a resolution, and one of its index entries goes to a path at which `old` holds an
/// unconflicted entry.
pub open spec fn supersedes(old: Seq<IndexEntryView>, c: Conflict, how: TreatAsUnresolved) -> bool {
    exists|slot: int, p: Seq<u8>| #[trigger] stages_at(c, how, slot, p) && has_unconflicted(old, p)
}

/// `e` is an entry at `path` of the stage of `slot`.
pub open spec fn added_at(e: IndexEntryView, path: Seq<u8>, slot: int) -> bool {
    e.path == path && e.stage == slot + 1
}

/// `e` is what the conflict at `k` or a later one of `conflicts` adds at `slot`.
pub open spec fn held_later(conflicts: Seq<Conflict>, how: TreatAsUnresolved, k: int, slot: int, e: IndexEntryView) -> bool {
    exists|k2: int| k <= k2 < conflicts.len() && #[trigger] staged_entry(conflicts[k2], how, slot, e)
}

/// `e` is an unconflicted entry at `path`, marked for removal.
pub open spec fn marked_unconflicted(e: IndexEntryView, path: Seq<u8>) -> bool {
    e.path == path && e.stage == 0 && e.remove
}

/// What applying the conflict at `k` of `conflicts` owes for its index entry at `slot`, which
/// goes to `path`, in `applied`, which begins with the entries of `old`: an added entry at that
/// path and stage, as that conflict or a later one at the same path and stage gives it; and, where
/// `old` holds an unconflicted entry at that path, such an entry marked for removal.
pub open spec fn applied_for(
    old: Seq<IndexEntryView>,
    applied: Seq<IndexEntryView>,
    conflicts: Seq<Conflict>,
    how: TreatAsUnresolved,
    k: int,
    slot: int,
    path: Seq<u8>,
) -> bool {
    &&& exists|i: int|
        old.len() <= i < applied.len() && #[trigger] added_at(applied[i], path, slot) && held_later(conflicts, how, k, slot, applied[i])
    &&& has_unconflicted(old, path) ==> exists|i: int| 0 <= i < old.len() && #[trigger] marked_unconflicted(applied[i], path)
}

/// Every conflict before `n` that supersedes an entry of `old` was applied in `applied`, at each of
/// its index entries.
pub open spec fn applied_upto(
    old: Seq<IndexEntryView>,
    applied: Seq<IndexEntryView>,
    conflicts: Seq<Conflict>,
    how: TreatAsUnresolved,
    n: int,
) -> bool {
    forall|k: int, slot: int, p: Seq<u8>|
        0 <= k < n && supersedes(old, conflicts[k], how) && #[trigger] stages_at(conflicts[k], how, slot, p) ==> applied_for(
            old,
            applied,
            conflicts,
            how,
            k,
            slot,
            p,
        )
}

/// Marking the entry at `pos` of the old entries keeps what was applied.
proof fn lemma_applied_after_mark(
    old: Seq<IndexEntryView>,
    before: Seq<IndexEntryView>,
    conflicts: Seq<Conflict>,
    how: TreatAsUnresolved,
    k: int,
    slot: int,
    path: Seq<u8>,
    pos: int,
)
    requires
        0 <= pos < old.len() <= before.len(),
        applied_for(old, before, conflicts, how, k, slot, path),
    ensures
        applied_for(old, before.update(pos, IndexEntryView { remove: true, ..before[pos] }), conflicts, how, k, slot, path),
{
    let after = before.update(pos, IndexEntryView { remove: true, ..before[pos] });
    let i = choose|i: int|
        old.len() <= i < before.len() && #[trigger] added_at(before[i], path, slot) && held_later(conflicts, how, k, slot, before[i]);
    assert(after[i] == before[i]);
    assert(added_at(after[i], path, slot));
    if has_unconflicted(old, path) {
        let m = choose|m: int| 0 <= m < old.len() && #[trigger] marked_unconflicted(before[m], path);
        assert(marked_unconflicted(after[m], path));
    }
}

/// Changing the mode and id of the added entry at `pos` to what the conflict at `kcur` gives at
/// the same path and stage keeps what was applied by the conflicts up to `kcur`.
proof fn lemma_applied_after_override(
    old: Seq<IndexEntryView>,
    before: Seq<IndexEntryView>,
    conflicts: Seq<Conflict>,
    how: TreatAsUnresolved,
    k: int,
    slot: int,
    path: Seq<u8>,
    pos: int,
    e: IndexEntryView,
    kcur: int,
    cur_slot: int,
)
    requires
        old.len() <= pos < before.len(),
        e.path == before[pos].path,
        e.stage == before[pos].stage,
        !e.remove,
        k <= kcur < conflicts.len(),
        staged_entry(conflicts[kcur], how, cur_slot, e),
        applied_for(old, before, conflicts, how, k, slot, path),
    ensures
        applied_for(old, before.update(pos, e), conflicts, how, k, slot, path),
{
    let after = before.update(pos, e);
    let i = choose|i: int|
        old.len() <= i < before.len() && #[trigger] added_at(before[i], path, slot) && held_later(conflicts, how, k, slot, before[i]);
    if i == pos {
        assert(added_at(after[i], path, slot));
        assert(cur_slot == slot);
        assert(staged_entry(conflicts[kcur], how, slot, after[i]));
        assert(held_later(conflicts, how, k, slot, after[i]));
    } else {
        assert(after[i] == before[i]);
        assert(added_at(after[i], path, slot));
    }
    if has_unconflicted(old, path) {
        let m = choose|m: int| 0 <= m < old.len() && #[trigger] marked_unconflicted(before[m], path);
        assert(after[m] == before[m]);
        assert(marked_unconflicted(after[m], path));
    }
}

/// Adding an entry keeps what was applied.
proof fn lemma_applied_after_push(
    old: Seq<IndexEntryView>,
    before: Seq<IndexEntryView>,
    conflicts: Seq<Conflict>,
    how: TreatAsUnresolved,
    k: int,
    slot: int,
    path: Seq<u8>,
    e: IndexEntryView,
)
    requires
        old.len() <= before.len(),
        applied_for(old, before, conflicts, how, k, slot, path),
    ensures
        applied_for(old, before.push(e), conflicts, how, k, slot, path),
{
    let after = before.push(e);
    let i = choose|i: int|
        old.len() <= i < before.len() && #[trigger] added_at(before[i], path, slot) && held_later(conflicts, how, k, slot, before[i]);
    assert(after[i] == before[i]);
    assert(added_at(after[i], path, slot));
    if has_unconflicted(old, path) {
        let m = choose|m: int| 0 <= m < old.len() && #[trigger] marked_unconflicted(before[m], path);
        assert(after[m] == before[m]);
        assert(marked_unconflicted(after[m], path));
    }
}

/// A conflict that supersedes nothing leaves what was applied as it is, and adds no reason for the
/// index to grow.
proof fn lemma_skipped_conflict(
    old: Seq<IndexEntryView>,
    applied: Seq<IndexEntryView>,
    conflicts: Seq<Conflict>,
    how: TreatAsUnresolved,
    k: int,
    len: int,
)
    requires
        0 <= k < conflicts.len(),
        index_sorted(old) ==> !supersedes(old, conflicts[k], how),
        index_sorted(old) ==> applied_upto(old, applied, conflicts, how, k),
        index_sorted(old) ==> ((applied.len() > len) <==> exists|k2: int| 0 <= k2 < k && #[trigger] supersedes(old, conflicts[k2], how)),
    ensures
        index_sorted(old) ==> applied_upto(old, applied, conflicts, how, k + 1),
        index_sorted(old) ==> ((applied.len() > len) <==> exists|k2: int|
            0 <= k2 < k + 1 && #[trigger] supersedes(old, conflicts[k2], how)),
{
    if index_sorted(old) {
        assert forall|kk: int, sl: int, q: Seq<u8>|
            0 <= kk < k + 1 && supersedes(old, conflicts[kk], how) && #[trigger] stages_at(conflicts[kk], how, sl, q) implies applied_for(
            old,
            applied,
            conflicts,
            how,
            kk,
            sl,
            q,
        ) by {
            if kk == k {
                assert(false);
            }
        }
        if exists|k2: int| 0 <= k2 < k + 1 && #[trigger] supersedes(old, conflicts[k2], how) {
            let k2 = choose|k2: int| 0 <= k2 < k + 1 && #[trigger] supersedes(old, conflicts[k2], how);
            assert(k2 != k);
            assert(0 <= k2 < k && supersedes(old, conflicts[k2], how));
        }
    }
}

/// The index entries of each conflict have ids of 20 or 32 bytes.
pub open spec fn ids_well_sized(conflicts: Seq<Conflict>) -> bool {
    forall|k: int, j: int|
        0 <= k < conflicts.len() && 0 <= j < 3 ==> match #[trigger] conflicts[k].spec_entries()@[j] {
            Some(e) => e.id@.len() == 20 || e.id@.len() == 32,
            None => true,
        }
}

/// Add the index entries of the `conflicts` that count as unresolved under `how` to `index`,
/// which is to be the one made from the merged tree: each conflict whose entries supersede an
/// unconflicted entry adds its stages, where a later one at the same path and stage overrides the
/// mode and id of an earlier one, and marks the unconflicted entries at their paths for removal;
/// with [`RemovalMode::Prune`] the marked entries are removed at the end. The entries are sorted
/// afterwards. Returns `true` if entries were added. A sparse index is left alone.
pub fn apply_index_entries(
    conflicts: &[Conflict],
    how: TreatAsUnresolved,
    index: &mut IndexState,
    removal_mode: RemovalMode,
) -> (r: bool)
    requires
        ids_well_sized(conflicts@),
    ensures
        index_is_sparse(*final(index)) == index_is_sparse(*old(index)),
        index_is_sparse(*old(index)) ==> !r && index_entries(*final(index)) == index_entries(*old(index)),
        !index_is_sparse(*old(index)) ==> index_sorted(index_entries(*final(index))),
        !index_is_sparse(*old(index)) && removal_mode == RemovalMode::Prune ==> forall|i: int|
            0 <= i < index_entries(*final(index)).len() ==> !(#[trigger] index_entries(*final(index))[i]).remove,
        !index_is_sparse(*old(index)) ==> exists|applied: Seq<IndexEntryView>|
            #[trigger] applied_from(index_entries(*old(index)), applied, r, removal_mode, index_entries(*final(index)))
                && (forall|i: int|
                index_entries(*old(index)).len() <= i < applied.len() ==> added_by(conflicts@, how, #[trigger] applied[i]))
                && (forall|i: int|
                index_entries(*old(index)).len() <= i < applied.len() ==> index_entries(*final(index)).contains(#[trigger] applied[i]))
                && (index_sorted(index_entries(*old(index))) ==> marks_sound(index_entries(*old(index)), applied, conflicts@, how)
                && applied_upto(index_entries(*old(index)), applied, conflicts@, how, conflicts@.len() as int) && (r <==> exists|k: int|
                0 <= k < conflicts@.len() && #[trigger] supersedes(index_entries(*old(index)), conflicts@[k], how))),
{
    if state_is_sparse(index) {
        return false;
    }
    let ghost old_entries = index_entries(*index);
    let len = entry_count(index);
    let mut map: Vec<(u32, Vec<u8>, usize)> = Vec::new();
    let ghost sorted_old = index_sorted(old_entries);
    let mut k: usize = 0;
    while k < conflicts.len()
        invariant
            k <= conflicts@.len(),
            ids_well_sized(conflicts@),
            sorted_old == index_sorted(old_entries),
            !index_is_sparse(*index),
            index_is_sparse(*index) == index_is_sparse(*old(index)),
            old_entries == index_entries(*old(index)),
            len == old_entries.len(),
            index_entries(*index).len() >= len,
            forall|i: int| 0 <= i < len ==> same_but_mark(#[trigger] index_entries(*index)[i], old_entries[i]),
            forall|i: int|
                len <= i < index_entries(*index).len() ==> 1 <= (#[trigger] index_entries(*index)[i]).stage <= 3
                    && !index_entries(*index)[i].remove,
            forall|m: int| 0 <= m < map@.len() ==> len <= (#[trigger] map@[m]).2 < index_entries(*index).len(),
            forall|m: int|
                0 <= m < map@.len() ==> index_entries(*index)[(#[trigger] map@[m]).2 as int].path == map@[m].1@
                    && index_entries(*index)[map@[m].2 as int].stage == map@[m].0,
            forall|i: int| len <= i < index_entries(*index).len() ==> added_by(conflicts@, how, #[trigger] index_entries(*index)[i]),
            index_sorted(old_entries) ==> marks_sound(old_entries, index_entries(*index), conflicts@, how),
            sorted_old ==> applied_upto(old_entries, index_entries(*index), conflicts@, how, k as int),
            sorted_old ==> ((index_entries(*index).len() > len) <==> exists|k2: int|
                0 <= k2 < k && #[trigger] supersedes(old_entries, conflicts@[k2], how)),
        decreases conflicts.len() - k,
    {
        let conflict = &conflicts[k];
        let ghost entries_k = index_entries(*index);
        if !conflict.is_unresolved(how) {
            proof {
                lemma_skipped_conflict(old_entries, entries_k, conflicts@, how, k as int, len as int);
            }
            k += 1;
            continue;
        }
        let staged = match conflict.index_entry_paths() {
            Some(s) => s,
            None => {
                proof {
                    lemma_skipped_conflict(old_entries, entries_k, conflicts@, how, k as int, len as int);
                }
                k += 1;
                continue;
            },
        };
        proof {
            if sorted_old {
                assert forall|a: int, b: int| 0 <= a < b < entries_k.take(len as int).len() implies entry_le(
                    #[trigger] entries_k.take(len as int)[a],
                    #[trigger] entries_k.take(len as int)[b],
                ) by {
                    assert(same_but_mark(entries_k[a], old_entries[a]));
                    assert(same_but_mark(entries_k[b], old_entries[b]));
                }
            }
        }
        let mut supersedes_one = false;
        let mut j: usize = 0;
        while j < 3
            invariant
                j <= 3,
                k < conflicts@.len(),
                *conflict == conflicts@[k as int],
                sorted_old == index_sorted(old_entries),
                len == old_entries.len(),
                index_entries(*index) == entries_k,
                entries_k.len() >= len,
                forall|i: int| 0 <= i < len ==> same_but_mark(#[trigger] entries_k[i], old_entries[i]),
                sorted_old ==> index_sorted(entries_k.take(len as int)),
                is_unresolved_spec(conflict.spec_resolution(), how),
                conflict_paths(*conflict) matches Some(paths) && forall|s: int|
                    0 <= s < 3 ==> match (#[trigger] staged@[s], conflict.spec_entries()@[stored_slot(*conflict, s)]) {
                        (Some((path, a)), Some(b)) => !is_tree_mode(b.mode) && a.mode == b.mode && a.id@ == b.id@
                            && path@ == entry_path(*conflict, paths, b.path_hint),
                        (None, Some(b)) => is_tree_mode(b.mode),
                        (None, None) => true,
                        _ => false,
                    },
                supersedes_one ==> (sorted_old ==> supersedes(old_entries, conflicts@[k as int], how)),
                !supersedes_one ==> (sorted_old ==> forall|s: int| 0 <= s < j ==> match #[trigger] staged@[s] {
                    Some((path, _)) => !has_unconflicted(old_entries, path@),
                    None => true,
                }),
            decreases 3 - j,
        {
            match &staged[j] {
                Some((path, _)) => {
                    let found = find_unconflicted(index, path.as_slice(), len);
                    proof {
                        if sorted_old {
                            match found {
                                Some(pos) => {
                                    assert(same_but_mark(entries_k[pos as int], old_entries[pos as int]));
                                    assert(unconflicted_at(old_entries[pos as int], path@));
                                    assert(stages_at(conflicts@[k as int], how, j as int, path@));
                                },
                                None => {
                                    if has_unconflicted(old_entries, path@) {
                                        let i = choose|i: int| 0 <= i < old_entries.len() && #[trigger] unconflicted_at(old_entries[i], path@);
                                        assert(same_but_mark(entries_k[i], old_entries[i]));
                                        assert(false);
                                    }
                                },
                            }
                        }
                    }
                    if found.is_some() {
                        supersedes_one = true;
                    }
                },
                None => {},
            }
            j += 1;
        }
        if !supersedes_one {
            proof {
                if sorted_old && supersedes(old_entries, conflicts@[k as int], how) {
                    let (slot, p) = choose|slot: int, p: Seq<u8>| #[trigger] stages_at(conflicts@[k as int], how, slot, p)
                        && has_unconflicted(old_entries, p);
                    assert(staged@[slot] is Some);
                    assert(false);
                }
                lemma_skipped_conflict(old_entries, entries_k, conflicts@, how, k as int, len as int);
            }
            k += 1;
            continue;
        }
        let ghost len_k = entries_k.len();
        let mut j: usize = 0;
        while j < 3
            invariant
                j <= 3,
                k < conflicts@.len(),
                ids_well_sized(conflicts@),
                *conflict == conflicts@[k as int],
                sorted_old == index_sorted(old_entries),
                !index_is_sparse(*index),
                index_is_sparse(*index) == index_is_sparse(*old(index)),
                old_entries == index_entries(*old(index)),
                len == old_entries.len(),
                index_entries(*index).len() >= len,
                forall|i: int| 0 <= i < len ==> same_but_mark(#[trigger] index_entries(*index)[i], old_entries[i]),
                forall|i: int|
                    len <= i < index_entries(*index).len() ==> 1 <= (#[trigger] index_entries(*index)[i]).stage <= 3
                        && !index_entries(*index)[i].remove,
                forall|m: int| 0 <= m < map@.len() ==> len <= (#[trigger] map@[m]).2 < index_entries(*index).len(),
                forall|m: int|
                    0 <= m < map@.len() ==> index_entries(*index)[(#[trigger] map@[m]).2 as int].path == map@[m].1@
                        && index_entries(*index)[map@[m].2 as int].stage == map@[m].0,
                forall|i: int| len <= i < index_entries(*index).len() ==> added_by(conflicts@, how, #[trigger] index_entries(*index)[i]),
                index_sorted(old_entries) ==> marks_sound(old_entries, index_entries(*index), conflicts@, how),
                forall|s: int| 0 <= s < 3 ==> match #[trigger] staged@[s] {
                    Some((_, e)) => e.id@.len() == 20 || e.id@.len() == 32,
                    None => true,
                },
                is_unresolved_spec(conflict.spec_resolution(), how),
                conflict_paths(*conflict) matches Some(paths) && forall|s: int|
                    0 <= s < 3 ==> match (#[trigger] staged@[s], conflict.spec_entries()@[stored_slot(*conflict, s)]) {
                        (Some((path, a)), Some(b)) => !is_tree_mode(b.mode) && a.mode == b.mode && a.id@ == b.id@
                            && path@ == entry_path(*conflict, paths, b.path_hint),
                        (None, Some(b)) => is_tree_mode(b.mode),
                        (None, None) => true,
                        _ => false,
                    },
                index_entries(*index).len() >= len_k,
                len_k == entries_k.len(),
                sorted_old ==> supersedes(old_entries, conflicts@[k as int], how),
                sorted_old ==> ((len_k > len) <==> exists|k2: int|
                    0 <= k2 < k && #[trigger] supersedes(old_entries, conflicts@[k2], how)),
                sorted_old ==> applied_upto(old_entries, index_entries(*index), conflicts@, how, k as int),
                sorted_old ==> forall|sl: int, p: Seq<u8>|
                    0 <= sl < j && #[trigger] stages_at(conflicts@[k as int], how, sl, p) ==> applied_for(
                        old_entries,
                        index_entries(*index),
                        conflicts@,
                        how,
                        k as int,
                        sl,
                        p,
                    ),
            decreases 3 - j,
        {
            let ghost e_start = index_entries(*index);
            match &staged[j] {
                Some((path, entry)) => {
                    let ghost pre_mark = index_entries(*index);
                    let ghost marked: Option<int> = None;
                    proof {
                        assert(staged@[j as int] == Some((*path, *entry)));
                        if sorted_old {
                            assert forall|a: int, b: int| 0 <= a < b < pre_mark.take(len as int).len() implies entry_le(
                                #[trigger] pre_mark.take(len as int)[a],
                                #[trigger] pre_mark.take(len as int)[b],
                            ) by {
                                assert(same_but_mark(pre_mark[a], old_entries[a]));
                                assert(same_but_mark(pre_mark[b], old_entries[b]));
                            }
                        }
                    }
                    match find_unconflicted(index, path.as_slice(), len) {
                        Some(pos) => {
                            mark_for_removal(index, pos);
                            proof {
                                marked = Some(pos as int);
                                if sorted_old {
                                    assert(same_but_mark(pre_mark[pos as int], old_entries[pos as int]));
                                    assert(stages_at(conflicts@[k as int], how, j as int, old_entries[pos as int].path));
                                    assert forall|i: int|
                                        0 <= i < old_entries.len() && (#[trigger] index_entries(*index)[i]).remove
                                            && !old_entries[i].remove implies old_entries[i].stage == 0 && exists|kk: int, slot: int|
                                        0 <= kk < conflicts@.len() && #[trigger] stages_at(conflicts@[kk], how, slot, old_entries[i].path) by {
                                        if i != pos {
                                            assert(index_entries(*index)[i] == pre_mark[i]);
                                        }
                                    }
                                    assert forall|kk: int, slot: int, p: Seq<u8>|
                                        0 <= kk < k && supersedes(old_entries, conflicts@[kk], how) && #[trigger] stages_at(
                                            conflicts@[kk],
                                            how,
                                            slot,
                                            p,
                                        ) implies applied_for(old_entries, index_entries(*index), conflicts@, how, kk, slot, p) by {
                                        lemma_applied_after_mark(old_entries, pre_mark, conflicts@, how, kk, slot, p, pos as int);
                                    }
                                    assert forall|sl: int, p: Seq<u8>|
                                        0 <= sl < j && #[trigger] stages_at(conflicts@[k as int], how, sl, p) implies applied_for(
                                            old_entries,
                                            index_entries(*index),
                                            conflicts@,
                                            how,
                                            k as int,
                                            sl,
                                            p,
                                        ) by {
                                        lemma_applied_after_mark(old_entries, pre_mark, conflicts@, how, k as int, sl, p, pos as int);
                                    }
                                }
                            }
                        },
                        None => {
                            proof {
                                if sorted_old && has_unconflicted(old_entries, path@) {
                                    let i = choose|i: int| 0 <= i < old_entries.len() && #[trigger] unconflicted_at(old_entries[i], path@);
                                    assert(same_but_mark(pre_mark[i], old_entries[i]));
                                    assert(false);
                                }
                            }
                        },
                    }
                    let ghost after_mark = index_entries(*index);
                    proof {
                        if sorted_old && has_unconflicted(old_entries, path@) {
                            let mp = marked->0;
                            assert(marked_unconflicted(after_mark[mp], path@));
                        }
                    }
                    let stage: u32 = (j + 1) as u32;
                    let ghost before = index_entries(*index);
                    let ghost added: int = 0;
                    match recorded_position(&map, stage, path.as_slice()) {
                        Some(pos) => {
                            set_mode_and_id(index, pos, entry.mode, &entry.id);
                            proof {
                                added = pos as int;
                                let e = index_entries(*index)[pos as int];
                                assert(staged_entry(conflicts@[k as int], how, j as int, e));
                                assert forall|i: int| len <= i < index_entries(*index).len() implies added_by(
                                    conflicts@,
                                    how,
                                    #[trigger] index_entries(*index)[i],
                                ) by {
                                    if i != pos {
                                        assert(index_entries(*index)[i] == before[i]);
                                    }
                                }
                                if sorted_old {
                                    assert(index_entries(*index) == before.update(pos as int, e));
                                    assert forall|kk: int, slot: int, p: Seq<u8>|
                                        0 <= kk < k && supersedes(old_entries, conflicts@[kk], how) && #[trigger] stages_at(
                                            conflicts@[kk],
                                            how,
                                            slot,
                                            p,
                                        ) implies applied_for(old_entries, index_entries(*index), conflicts@, how, kk, slot, p) by {
                                        lemma_applied_after_override(old_entries, before, conflicts@, how, kk, slot, p, pos as int, e, k as int, j as int);
                                    }
                                    assert forall|sl: int, p: Seq<u8>|
                                        0 <= sl < j && #[trigger] stages_at(conflicts@[k as int], how, sl, p) implies applied_for(
                                            old_entries,
                                            index_entries(*index),
                                            conflicts@,
                                            how,
                                            k as int,
                                            sl,
                                            p,
                                        ) by {
                                        lemma_applied_after_override(old_entries, before, conflicts@, how, k as int, sl, p, pos as int, e, k as int, j as int);
                                    }
                                }
                            }
                        },
                        None => {
                            let at = entry_count(index);
                            let owned = crate::bytes::copy_range(path.as_slice(), 0, path.len());
                            push_entry(index, &entry.id, stage, entry.mode, path.as_slice());
                            proof {
                                added = at as int;
                                assert(owned@ =~= path@);
                                let e = index_entries(*index)[at as int];
                                assert(staged_entry(conflicts@[k as int], how, j as int, e));
                                assert forall|i: int| len <= i < index_entries(*index).len() implies added_by(
                                    conflicts@,
                                    how,
                                    #[trigger] index_entries(*index)[i],
                                ) by {
                                    if i != at {
                                        assert(index_entries(*index)[i] == before[i]);
                                    }
                                }
                                if sorted_old {
                                    assert(index_entries(*index) == before.push(e));
                                    assert forall|kk: int, slot: int, p: Seq<u8>|
                                        0 <= kk < k && supersedes(old_entries, conflicts@[kk], how) && #[trigger] stages_at(
                                            conflicts@[kk],
                                            how,
                                            slot,
                                            p,
                                        ) implies applied_for(old_entries, index_entries(*index), conflicts@, how, kk, slot, p) by {
                                        lemma_applied_after_push(old_entries, before, conflicts@, how, kk, slot, p, e);
                                    }
                                    assert forall|sl: int, p: Seq<u8>|
                                        0 <= sl < j && #[trigger] stages_at(conflicts@[k as int], how, sl, p) implies applied_for(
                                            old_entries,
                                            index_entries(*index),
                                            conflicts@,
                                            how,
                                            k as int,
                                            sl,
                                            p,
                                        ) by {
                                        lemma_applied_after_push(old_entries, before, conflicts@, how, k as int, sl, p, e);
                                    }
                                }
                            }
                            map.push((stage, owned, at));
                        },
                    }
                    proof {
                        if sorted_old {
                            let now = index_entries(*index);
                            assert(added_at(now[added], path@, j as int));
                            assert(staged_entry(conflicts@[k as int], how, j as int, now[added]));
                            assert(held_later(conflicts@, how, k as int, j as int, now[added]));
                            if has_unconflicted(old_entries, path@) {
                                let mp = marked->0;
                                assert(now[mp] == after_mark[mp]);
                                assert(marked_unconflicted(now[mp], path@));
                            }
                            assert(applied_for(old_entries, now, conflicts@, how, k as int, j as int, path@));
                            assert forall|sl: int, p: Seq<u8>|
                                0 <= sl < j + 1 && #[trigger] stages_at(conflicts@[k as int], how, sl, p) implies applied_for(
                                    old_entries,
                                    now,
                                    conflicts@,
                                    how,
                                    k as int,
                                    sl,
                                    p,
                                ) by {
                                if sl == j {
                                    assert(p == path@);
                                }
                            }
                        }
                    }
                },
                None => {
                    proof {
                        if sorted_old {
                            assert forall|sl: int, p: Seq<u8>|
                                0 <= sl < j + 1 && #[trigger] stages_at(conflicts@[k as int], how, sl, p) implies applied_for(
                                    old_entries,
                                    index_entries(*index),
                                    conflicts@,
                                    how,
                                    k as int,
                                    sl,
                                    p,
                                ) by {
                                if sl == j {
                                    assert(staged@[sl] is None);
                                }
                            }
                        }
                    }
                },
            }
            j += 1;
        }
        proof {
            if sorted_old {
                let (slot, p) = choose|slot: int, p: Seq<u8>| #[trigger] stages_at(conflicts@[k as int], how, slot, p)
                    && has_unconflicted(old_entries, p);
                assert(applied_for(old_entries, index_entries(*index), conflicts@, how, k as int, slot, p));
                assert(index_entries(*index).len() > len);
                assert(supersedes(old_entries, conflicts@[k as int], how));
                assert forall|kk: int, sl: int, q: Seq<u8>|
                    0 <= kk < k + 1 && supersedes(old_entries, conflicts@[kk], how) && #[trigger] stages_at(conflicts@[kk], how, sl, q)
                        implies applied_for(old_entries, index_entries(*index), conflicts@, how, kk, sl, q) by {
                }
            }
        }
        k += 1;
    }
    let ghost applied = index_entries(*index);
    let res = entry_count(index) != len;
    match removal_mode {
        RemovalMode::Mark => {},
        RemovalMode::Prune => {
            remove_marked(index);
        },
    }
    let ghost kept = index_entries(*index);
    sort_entries(index);
    assert(applied_from(old_entries, applied, res, removal_mode, index_entries(*index)));
    proof {
        let fin = index_entries(*index);
        let pred = |x: IndexEntryView| !x.remove;
        fin.to_multiset_ensures();
        assert forall|i: int| len <= i < applied.len() implies fin.contains(#[trigger] applied[i]) by {
            let e = applied[i];
            if removal_mode == RemovalMode::Prune {
                applied.lemma_filter_contains(pred, i);
                let src = applied.filter(pred);
                src.to_multiset_ensures();
                assert(src.to_multiset().count(e) > 0);
            } else {
                applied.to_multiset_ensures();
                assert(applied.contains(e));
                assert(applied.to_multiset().count(e) > 0);
            }
            assert(fin.to_multiset().count(e) > 0);
        }
    }
    proof {
        if removal_mode == RemovalMode::Prune {
            assert forall|i: int| 0 <= i < index_entries(*index).len() implies !(#[trigger] index_entries(*index)[i]).remove by {
                let fin = index_entries(*index);
                let e = fin[i];
                fin.to_multiset_ensures();
                kept.to_multiset_ensures();
                assert(fin.contains(e));
                assert(fin.to_multiset().count(e) > 0);
                assert(kept.to_multiset().count(e) > 0);
                assert(kept.contains(e));
                let w = choose|w: int| 0 <= w < kept.len() && kept[w] == e;
                applied.lemma_filter_pred(|x: IndexEntryView| !x.remove, w);
            }
        }
    }
    res
}

} // verus!
