//! Editing trees in memory: inserting, replacing and removing entries at paths, loading the trees on
//! the way from an object database, and writing changed trees back.
use vstd::prelude::*;

use crate::bytes::{copy_range, slice_eq};
use crate::find::{ExistingObjectError, FindTree};
use crate::hash::{null_id, null_of, HashKind, ObjectId};
use crate::merge::blob::{id_is_null, is_null};
use crate::merge::tree::{kind_of, mode_of, EntryKind, EntryMode};
use crate::object_tree::{entries_view, is_tree_mode, Entry, EntryView, Tree};

verus! {

// ---------------------------------------------------------------------------------------------
// The order of entries in a tree, and finding entries by name.

/// `true` if `e` is a tree.
pub open spec fn is_tree_view(e: EntryView) -> bool {
    is_tree_mode(e.mode)
}

/// The byte of `name` at `i`, or the slash that a tree's name is taken to end in.
pub open spec fn next_byte(name: Seq<u8>, is_tree: bool, i: int) -> Option<u8> {
    if 0 <= i < name.len() {
        Some(name[i])
    } else if is_tree {
        Some(47u8)
    } else {
        None
    }
}

/// `-1`, `0` or `1` as `a` orders before, with or after `b`, where nothing orders first.
pub open spec fn cmp_next(a: Option<u8>, b: Option<u8>) -> int {
    match (a, b) {
        (None, None) => 0,
        (None, Some(_)) => -1,
        (Some(_), None) => 1,
        (Some(x), Some(y)) => if x < y {
            -1
        } else if x > y {
            1
        } else {
            0
        },
    }
}

/// The order of the names `a` and `b` from byte `i` on, as [`name_order`] describes it.
pub open spec fn name_order_from(a: Seq<u8>, a_tree: bool, b: Seq<u8>, b_tree: bool, i: int) -> int
    decreases a.len() - i,
{
    if 0 <= i < a.len() && i < b.len() {
        if a[i] == b[i] {
            name_order_from(a, a_tree, b, b_tree, i + 1)
        } else if a[i] < b[i] {
            -1
        } else {
            1
        }
    } else {
        cmp_next(next_byte(a, a_tree, i), next_byte(b, b_tree, i))
    }
}

/// How git orders tree entries (`-1`, `0` or `1`): byte by byte over the bytes both names have,
/// then by the next byte, where a tree's name continues with a slash and a name that ends orders
/// first.
pub open spec fn name_order(a: Seq<u8>, a_tree: bool, b: Seq<u8>, b_tree: bool) -> int {
    name_order_from(a, a_tree, b, b_tree, 0)
}

/// The index of the first entry from `i` on that is named `name` and is a tree exactly where
/// `is_tree` is `true`.
pub open spec fn position_from(entries: Seq<EntryView>, name: Seq<u8>, is_tree: bool, i: int) -> Option<int>
    decreases entries.len() - i,
{
    if i < 0 || i >= entries.len() {
        None
    } else if entries[i].filename == name && is_tree_view(entries[i]) == is_tree {
        Some(i)
    } else {
        position_from(entries, name, is_tree, i + 1)
    }
}

/// The entry that reading a path finds for `name`: a tree of that name, else any other entry.
pub open spec fn get_index(entries: Seq<EntryView>, name: Seq<u8>) -> Option<int> {
    match position_from(entries, name, true, 0) {
        Some(k) => Some(k),
        None => position_from(entries, name, false, 0),
    }
}

/// The entry that editing a path finds for `name`: a non-tree of that name, else a tree.
pub open spec fn edit_index(entries: Seq<EntryView>, name: Seq<u8>) -> Option<int> {
    match position_from(entries, name, false, 0) {
        Some(k) => Some(k),
        None => position_from(entries, name, true, 0),
    }
}

/// Where an entry named `name` goes among `entries`, searching from `i`: before the first entry
/// that git orders after it, or at the end.
pub open spec fn insert_pos_from(entries: Seq<EntryView>, name: Seq<u8>, is_tree: bool, i: int) -> int
    decreases entries.len() - i,
{
    if i < 0 || i >= entries.len() {
        entries.len() as int
    } else if name_order(entries[i].filename, is_tree_view(entries[i]), name, is_tree) > 0 {
        i
    } else {
        insert_pos_from(entries, name, is_tree, i + 1)
    }
}

/// Where an entry named `name` goes among `entries`.
pub open spec fn insert_pos(entries: Seq<EntryView>, name: Seq<u8>, is_tree: bool) -> int {
    insert_pos_from(entries, name, is_tree, 0)
}

/// `entries` with the entry at `k` replaced by `e`; where `e` is a tree and the replaced entry was
/// not, or the other way round, `e` moves to where git orders it among the others.
pub open spec fn replace_at(entries: Seq<EntryView>, k: int, e: EntryView) -> Seq<EntryView> {
    if is_tree_view(entries[k]) == is_tree_view(e) {
        entries.update(k, e)
    } else {
        let rest = entries.remove(k);
        rest.insert(insert_pos(rest, e.filename, is_tree_view(e)), e)
    }
}

proof fn lemma_position_from(entries: Seq<EntryView>, name: Seq<u8>, is_tree: bool, i: int)
    requires
        0 <= i,
    ensures
        position_from(entries, name, is_tree, i) matches Some(k) ==> i <= k < entries.len()
            && entries[k].filename == name && is_tree_view(entries[k]) == is_tree,
        position_from(entries, name, is_tree, i) is None ==> forall|j: int|
            i <= j < entries.len() ==> !(entries[j].filename == name && is_tree_view(entries[j]) == is_tree),
    decreases entries.len() - i,
{
    if i < entries.len() && !(entries[i].filename == name && is_tree_view(entries[i]) == is_tree) {
        lemma_position_from(entries, name, is_tree, i + 1);
    }
}

proof fn lemma_insert_pos_from(entries: Seq<EntryView>, name: Seq<u8>, is_tree: bool, i: int)
    requires
        0 <= i <= entries.len(),
    ensures
        i <= insert_pos_from(entries, name, is_tree, i) <= entries.len(),
    decreases entries.len() - i,
{
    if i < entries.len() {
        lemma_insert_pos_from(entries, name, is_tree, i + 1);
    }
}

/// The mode of trees is a tree's mode, and that of other kinds is not.
proof fn lemma_mode_of_kind(kind: EntryKind)
    ensures
        kind_of(mode_of(kind)) == kind,
{
    assert(kind_of(0o040000u16) == EntryKind::Tree) by (bit_vector);
    assert(kind_of(0o100644u16) == EntryKind::Blob) by (bit_vector);
    assert(kind_of(0o100755u16) == EntryKind::BlobExecutable) by (bit_vector);
    assert(kind_of(0o120000u16) == EntryKind::Link) by (bit_vector);
    assert(kind_of(0o160000u16) == EntryKind::Commit) by (bit_vector);
}

/// The order of `a` and `b` as git orders tree entries.
fn name_order_of(a: &[u8], a_tree: bool, b: &[u8], b_tree: bool) -> (r: i8)
    ensures
        r == name_order(a@, a_tree, b@, b_tree),
{
    let mut i: usize = 0;
    while i < a.len() && i < b.len() && a[i] == b[i]
        invariant
            i <= a.len(),
            i <= b.len(),
            name_order(a@, a_tree, b@, b_tree) == name_order_from(a@, a_tree, b@, b_tree, i as int),
        decreases a.len() - i,
    {
        i += 1;
    }
    if i < a.len() && i < b.len() {
        if a[i] < b[i] {
            -1
        } else {
            1
        }
    } else {
        let x: Option<u8> = if i < a.len() {
            Some(a[i])
        } else if a_tree {
            Some(47)
        } else {
            None
        };
        let y: Option<u8> = if i < b.len() {
            Some(b[i])
        } else if b_tree {
            Some(47)
        } else {
            None
        };
        match (x, y) {
            (None, None) => 0,
            (None, Some(_)) => -1,
            (Some(_), None) => 1,
            (Some(p), Some(q)) => if p < q {
                -1
            } else if p > q {
                1
            } else {
                0
            },
        }
    }
}

/// The index of the first entry named `name` that is a tree exactly where `is_tree` is `true`.
fn position(entries: &Vec<Entry>, name: &[u8], is_tree: bool) -> (r: Option<usize>)
    ensures
        match r {
            Some(k) => position_from(entries_view(entries@), name@, is_tree, 0) == Some(k as int),
            None => position_from(entries_view(entries@), name@, is_tree, 0) is None,
        },
{
    let ghost view = entries_view(entries@);
    let mut i: usize = 0;
    while i < entries.len()
        invariant
            i <= entries@.len(),
            view == entries_view(entries@),
            position_from(view, name@, is_tree, 0) == position_from(view, name@, is_tree, i as int),
        decreases entries.len() - i,
    {
        assert(view[i as int] == entries@[i as int]@);
        if slice_eq(entries[i].filename.as_slice(), name) && entries[i].mode.is_tree() == is_tree {
            return Some(i);
        }
        i += 1;
    }
    None
}

/// The index of the entry that editing finds for `name`: a non-tree first, else a tree.
fn edit_position(entries: &Vec<Entry>, name: &[u8]) -> (r: Option<usize>)
    ensures
        match r {
            Some(k) => edit_index(entries_view(entries@), name@) == Some(k as int),
            None => edit_index(entries_view(entries@), name@) is None,
        },
{
    match position(entries, name, false) {
        Some(k) => Some(k),
        None => position(entries, name, true),
    }
}

/// The index of the entry that reading finds for `name`: a tree first, else another entry.
fn get_position(entries: &Vec<Entry>, name: &[u8]) -> (r: Option<usize>)
    ensures
        match r {
            Some(k) => get_index(entries_view(entries@), name@) == Some(k as int),
            None => get_index(entries_view(entries@), name@) is None,
        },
{
    match position(entries, name, true) {
        Some(k) => Some(k),
        None => position(entries, name, false),
    }
}

/// Where an entry named `name` goes among `entries`.
fn insert_position(entries: &Vec<Entry>, name: &[u8], is_tree: bool) -> (r: usize)
    ensures
        r == insert_pos(entries_view(entries@), name@, is_tree),
        r <= entries@.len(),
{
    let ghost view = entries_view(entries@);
    proof {
        lemma_insert_pos_from(view, name@, is_tree, 0);
    }
    let mut i: usize = 0;
    while i < entries.len()
        invariant
            i <= entries@.len(),
            view == entries_view(entries@),
            insert_pos(view, name@, is_tree) == insert_pos_from(view, name@, is_tree, i as int),
        decreases entries.len() - i,
    {
        assert(view[i as int] == entries@[i as int]@);
        let e = &entries[i];
        if name_order_of(e.filename.as_slice(), e.mode.is_tree(), name, is_tree) > 0 {
            return i;
        }
        i += 1;
    }
    i
}

/// Replace the entry at `k` by `e`, moving it to where git orders it if it changed between tree
/// and non-tree.
fn replace_entry(entries: &mut Vec<Entry>, k: usize, e: Entry)
    requires
        k < old(entries)@.len(),
    ensures
        entries_view(final(entries)@) == replace_at(entries_view(old(entries)@), k as int, e@),
{
    let ghost view = entries_view(entries@);
    assert(view[k as int] == entries@[k as int]@);
    if entries[k].mode.is_tree() == e.mode.is_tree() {
        entries[k] = e;
        assert(entries_view(entries@) =~= view.update(k as int, e@));
    } else {
        let _ = entries.remove(k);
        assert(entries_view(entries@) =~= view.remove(k as int));
        let at = insert_position(entries, e.filename.as_slice(), e.mode.is_tree());
        let ghost rest = entries_view(entries@);
        entries.insert(at, e);
        assert(entries_view(entries@) =~= rest.insert(at as int, e@));
    }
}

// ---------------------------------------------------------------------------------------------
// Editing one tree on the way along a path.

/// A tree entry of `kind` named `name` with the object id `oid`.
pub open spec fn entry_of(kind: EntryKind, name: Seq<u8>, oid: Seq<u8>) -> EntryView {
    EntryView { mode: EntryMode { value: mode_of(kind) }, filename: name, oid }
}

/// Inserting or replacing in the tree `entries` on the way to placing an entry of `kind` with id
/// `id`, where `name` is the path component at this tree and `is_last` tells whether it is the
/// last one: the edited entries, and the id of the existing tree to descend into, if any.
///
/// The last component replaces what is there, or is inserted. Before it, an existing tree is
/// descended into, a non-tree becomes a tree with the null id `null`, and a missing name is
/// inserted as such a tree.
pub open spec fn upsert_level(
    entries: Seq<EntryView>,
    name: Seq<u8>,
    is_last: bool,
    kind: EntryKind,
    id: Seq<u8>,
    null: Seq<u8>,
) -> (Seq<EntryView>, Option<Seq<u8>>) {
    match edit_index(entries, name) {
        Some(k) => if is_last {
            (replace_at(entries, k, entry_of(kind, entries[k].filename, id)), None)
        } else if is_tree_view(entries[k]) {
            (entries, Some(entries[k].oid))
        } else {
            (replace_at(entries, k, entry_of(EntryKind::Tree, entries[k].filename, null)), None)
        },
        None => if is_last {
            (entries.insert(insert_pos(entries, name, kind == EntryKind::Tree), entry_of(kind, name, id)), None)
        } else {
            (entries.insert(insert_pos(entries, name, true), entry_of(EntryKind::Tree, name, null)), None)
        },
    }
}

/// What removing does at one tree on the way along a path.
pub enum Step {
    /// Go on into the existing tree with this id.
    Descend(Seq<u8>),
    /// Stop: the entry was removed, or the path leads nowhere.
    Stop,
    /// Stop with an error: the last component names a tree where only leaves are to be removed.
    NonLeaf,
}

/// Removing in the tree `entries` on the way along a path, where `name` is the path component at
/// this tree: the last component's entry is removed (unless `leaf_only` and it is a tree), and
/// before it only an existing tree is descended into.
pub open spec fn remove_level(entries: Seq<EntryView>, name: Seq<u8>, is_last: bool, leaf_only: bool) -> (
    Seq<EntryView>,
    Step,
) {
    match edit_index(entries, name) {
        Some(k) => if is_last {
            if leaf_only && is_tree_view(entries[k]) {
                (entries, Step::NonLeaf)
            } else {
                (entries.remove(k), Step::Stop)
            }
        } else if is_tree_view(entries[k]) {
            (entries, Step::Descend(entries[k].oid))
        } else {
            (entries, Step::Stop)
        },
        None => (entries, Step::Stop),
    }
}

/// Perform [`upsert_level`] on `entries`, returning the id of the tree to descend into, if any.
fn upsert_in(entries: &mut Vec<Entry>, name: &[u8], is_last: bool, kind: EntryKind, id: &ObjectId, null: &ObjectId) -> (r:
    Option<ObjectId>)
    ensures
        (entries_view(final(entries)@), match r {
            Some(t) => Some(t@),
            None => None,
        }) == upsert_level(entries_view(old(entries)@), name@, is_last, kind, id@, null@),
{
    let ghost view = entries_view(entries@);
    match edit_position(entries, name) {
        Some(k) => {
            proof {
                lemma_position_from(view, name@, false, 0);
                lemma_position_from(view, name@, true, 0);
            }
            assert(view[k as int] == entries@[k as int]@);
            if is_last {
                let filename = copy_range(entries[k].filename.as_slice(), 0, entries[k].filename.len());
                assert(filename@ =~= view[k as int].filename);
                let e = Entry { mode: EntryMode::from_kind(kind), filename, oid: id.copied() };
                replace_entry(entries, k, e);
                None
            } else if entries[k].mode.is_tree() {
                Some(entries[k].oid.copied())
            } else {
                let filename = copy_range(entries[k].filename.as_slice(), 0, entries[k].filename.len());
                assert(filename@ =~= view[k as int].filename);
                let e = Entry { mode: EntryMode::from_kind(EntryKind::Tree), filename, oid: null.copied() };
                replace_entry(entries, k, e);
                None
            }
        },
        None => {
            let must_be_tree = !is_last || matches!(kind, EntryKind::Tree);
            let at = insert_position(entries, name, must_be_tree);
            let filename = copy_range(name, 0, name.len());
            assert(filename@ =~= name@);
            let e = if is_last {
                Entry { mode: EntryMode::from_kind(kind), filename, oid: id.copied() }
            } else {
                Entry { mode: EntryMode::from_kind(EntryKind::Tree), filename, oid: null.copied() }
            };
            entries.insert(at, e);
            assert(entries_view(entries@) =~= view.insert(at as int, e@));
            None
        },
    }
}

/// What removing did at one tree: go on into the tree with this id, stop, or refuse a tree.
enum RemoveStep {
    Descend(ObjectId),
    Stop,
    NonLeaf,
}

/// Perform [`remove_level`] on `entries`.
fn remove_in(entries: &mut Vec<Entry>, name: &[u8], is_last: bool, leaf_only: bool) -> (r: RemoveStep)
    ensures
        (entries_view(final(entries)@), match r {
            RemoveStep::Descend(t) => Step::Descend(t@),
            RemoveStep::Stop => Step::Stop,
            RemoveStep::NonLeaf => Step::NonLeaf,
        }) == remove_level(entries_view(old(entries)@), name@, is_last, leaf_only),
{
    let ghost view = entries_view(entries@);
    match edit_position(entries, name) {
        Some(k) => {
            proof {
                lemma_position_from(view, name@, false, 0);
                lemma_position_from(view, name@, true, 0);
            }
            assert(view[k as int] == entries@[k as int]@);
            if is_last {
                if leaf_only && entries[k].mode.is_tree() {
                    RemoveStep::NonLeaf
                } else {
                    let _ = entries.remove(k);
                    assert(entries_view(entries@) =~= view.remove(k as int));
                    RemoveStep::Stop
                }
            } else if entries[k].mode.is_tree() {
                RemoveStep::Descend(entries[k].oid.copied())
            } else {
                RemoveStep::Stop
            }
        },
        None => RemoveStep::Stop,
    }
}

// ---------------------------------------------------------------------------------------------
// Paths, ids and whole walks along a path.

/// The path `name` below `base`: `base/name`, or `name` where `base` is the root.
pub open spec fn join(base: Seq<u8>, name: Seq<u8>) -> Seq<u8> {
    if base.len() == 0 {
        name
    } else {
        base + seq![47u8] + name
    }
}

/// The path `k` is `p` or lies below it; every path lies below the empty path.
pub open spec fn within(p: Seq<u8>, k: Seq<u8>) -> bool {
    p.len() == 0 || k == p || (k.len() > p.len() && k.subrange(0, p.len() as int) == p && k[p.len() as int] == 47)
}

/// `after` holds what `before` holds at every path that does not lie within `p`.
pub open spec fn keeps_outside(before: Trees, after: Trees, p: Seq<u8>) -> bool {
    forall|k: Seq<u8>|
        #![trigger after.contains_key(k)]
        #![trigger before.contains_key(k)]
        !within(p, k) ==> after.contains_key(k) == before.contains_key(k) && (before.contains_key(k) ==> after[k] == before[k])
}

proof fn lemma_join_within(p: Seq<u8>, path: Seq<u8>, name: Seq<u8>)
    requires
        within(p, path),
    ensures
        within(p, join(path, name)),
{
    if p.len() > 0 {
        let k = join(path, name);
        assert(path.len() > 0);
        assert(k == path + seq![47u8] + name);
        if path == p {
            assert(k.subrange(0, p.len() as int) =~= p);
            assert(k[p.len() as int] == 47);
        } else {
            assert(k.subrange(0, p.len() as int) =~= path.subrange(0, p.len() as int));
            assert(k[p.len() as int] == path[p.len() as int]);
        }
    }
}

/// The components of a path.
pub open spec fn components(path: Seq<&[u8]>) -> Seq<Seq<u8>> {
    path.map_values(|c: &[u8]| c@)
}

/// `path` is one empty component, which names the root tree.
pub open spec fn is_root_path(path: Seq<Seq<u8>>) -> bool {
    path.len() == 1 && path[0].len() == 0
}

/// The id of the empty tree, for SHA1 and SHA256.
pub open spec fn is_empty_tree(id: Seq<u8>) -> bool {
    id == seq![
        0x4bu8, 0x82, 0x5d, 0xc6, 0x42, 0xcb, 0x6e, 0xb9, 0xa0, 0x60, 0xe5, 0x4b, 0xf8, 0xd6, 0x92, 0x88,
        0xfb, 0xee, 0x49, 0x04,
    ] || id == seq![
        0x6eu8, 0xf1, 0x9b, 0x41, 0x22, 0x5c, 0x53, 0x69, 0xf1, 0xc1, 0x04, 0xd4, 0x5d, 0x8d, 0x85, 0xef,
        0xa9, 0xb0, 0x57, 0xb5, 0x3b, 0x14, 0xb4, 0xb9, 0xb9, 0x39, 0xdd, 0x74, 0xde, 0xcc, 0x53, 0x21,
    ]
}

/// The null id of the kind of `id`: all zeros, 32 bytes for SHA256 ids and 20 otherwise.
pub open spec fn null_for(id: Seq<u8>) -> Seq<u8> {
    Seq::new(if id.len() == 32 { 32 } else { 20 }, |i: int| 0u8)
}

/// The trees of an editor: by their path, their entries.
pub type Trees = Map<Seq<u8>, Seq<EntryView>>;

/// The tree that a walk meets where the editor does not hold one yet: the one the object
/// database stores under `id` where an existing tree other than the empty tree is descended into
/// (as it is loaded then), otherwise an empty tree.
pub open spec fn source_tree<F: FindTree>(objects: &F, id: Option<Seq<u8>>) -> Seq<EntryView> {
    match id {
        Some(t) => if is_empty_tree(t) {
            seq![]
        } else {
            match objects.stored(t) {
                Some(entries) => entries,
                None => seq![],
            }
        },
        None => seq![],
    }
}

/// How a walk along a path ended.
pub enum WalkEnd {
    Done,
    /// A path component was empty.
    EmptyComponent,
    /// The entry at this path is a tree, where only a leaf was to be removed.
    NonLeaf(Seq<u8>),
}

/// Placing an entry of `kind` with id `id` at `path` below the tree at `key`: the trees after
/// the walk, the path of the tree it ended in, and how it ended; `objects` is the object database
/// that existing trees are loaded from on the way. With `assure_tree`, the walk goes on into the
/// tree at the last component, as it does for the components before.
pub open spec fn upsert_walk<F: FindTree>(
    trees: Trees,
    objects: &F,
    key: Seq<u8>,
    path: Seq<Seq<u8>>,
    kind: EntryKind,
    id: Seq<u8>,
    assure_tree: bool,
) -> (Trees, Seq<u8>, WalkEnd)
    decreases path.len(),
{
    if path.len() == 0 {
        (trees, key, WalkEnd::Done)
    } else if path[0].len() == 0 {
        (trees, key, WalkEnd::EmptyComponent)
    } else {
        let is_last = path.len() == 1;
        let level = upsert_level(trees[key], path[0], is_last, kind, id, null_for(id));
        let edited = trees.insert(key, level.0);
        if is_last && !assure_tree {
            (edited, key, WalkEnd::Done)
        } else {
            let next = join(key, path[0]);
            let entered = if edited.contains_key(next) {
                edited
            } else {
                edited.insert(next, source_tree(objects, level.1))
            };
            upsert_walk(entered, objects, next, path.drop_first(), kind, id, assure_tree)
        }
    }
}

/// The walk of [`upsert_walk`] meets an existing tree that the editor does not hold yet, other
/// than the empty tree, and so loads it from the object database.
pub open spec fn upsert_loads<F: FindTree>(
    trees: Trees,
    objects: &F,
    key: Seq<u8>,
    path: Seq<Seq<u8>>,
    kind: EntryKind,
    id: Seq<u8>,
    assure_tree: bool,
) -> bool
    decreases path.len(),
{
    if path.len() == 0 || path[0].len() == 0 {
        false
    } else {
        let is_last = path.len() == 1;
        let level = upsert_level(trees[key], path[0], is_last, kind, id, null_for(id));
        let edited = trees.insert(key, level.0);
        if is_last && !assure_tree {
            false
        } else {
            let next = join(key, path[0]);
            if edited.contains_key(next) {
                upsert_loads(edited, objects, next, path.drop_first(), kind, id, assure_tree)
            } else if level.1 matches Some(t) && !is_empty_tree(t) {
                true
            } else {
                upsert_loads(edited.insert(next, source_tree(objects, level.1)), objects, next, path.drop_first(), kind, id, assure_tree)
            }
        }
    }
}

/// Removing the entry at `path` below the tree at `key`, only where it is no tree if `leaf_only`:
/// the trees after the walk and how it ended; `objects` is the object database that existing
/// trees are loaded from on the way. With `leaf_only`, an empty tree that is not held yet is not
/// entered.
pub open spec fn remove_walk<F: FindTree>(trees: Trees, objects: &F, key: Seq<u8>, path: Seq<Seq<u8>>, leaf_only: bool) -> (
    Trees,
    WalkEnd,
)
    decreases path.len(),
{
    if path.len() == 0 {
        (trees, WalkEnd::Done)
    } else if path[0].len() == 0 {
        (trees, WalkEnd::EmptyComponent)
    } else {
        let level = remove_level(trees[key], path[0], path.len() == 1, leaf_only);
        match level.1 {
            Step::NonLeaf => (trees, WalkEnd::NonLeaf(join(key, path[0]))),
            Step::Stop => (trees.insert(key, level.0), WalkEnd::Done),
            Step::Descend(id) => {
                let next = join(key, path[0]);
                if trees.contains_key(next) {
                    remove_walk(trees, objects, next, path.drop_first(), leaf_only)
                } else if leaf_only && is_empty_tree(id) {
                    (trees, WalkEnd::Done)
                } else {
                    remove_walk(trees.insert(next, source_tree(objects, Some(id))), objects, next, path.drop_first(), leaf_only)
                }
            },
        }
    }
}

/// The walk of [`remove_walk`] descends into an existing tree that the editor does not hold yet,
/// other than the empty tree, and so loads it from the object database.
pub open spec fn remove_loads<F: FindTree>(trees: Trees, objects: &F, key: Seq<u8>, path: Seq<Seq<u8>>, leaf_only: bool) -> bool
    decreases path.len(),
{
    if path.len() == 0 || path[0].len() == 0 {
        false
    } else {
        match remove_level(trees[key], path[0], path.len() == 1, leaf_only).1 {
            Step::Descend(id) => {
                let next = join(key, path[0]);
                if trees.contains_key(next) {
                    remove_loads(trees, objects, next, path.drop_first(), leaf_only)
                } else if !is_empty_tree(id) {
                    true
                } else if leaf_only {
                    false
                } else {
                    remove_loads(trees.insert(next, source_tree(objects, Some(id))), objects, next, path.drop_first(), leaf_only)
                }
            },
            _ => false,
        }
    }
}

/// The entry that reading `path` below the tree at `key` finds: at each component a tree of that
/// name, else another entry of it, going on only into trees that the editor holds.
pub open spec fn lookup(trees: Trees, key: Seq<u8>, path: Seq<Seq<u8>>) -> Option<EntryView>
    decreases path.len(),
{
    if path.len() == 0 || !trees.contains_key(key) {
        None
    } else {
        match get_index(trees[key], path[0]) {
            None => None,
            Some(k) => if path.len() == 1 {
                Some(trees[key][k])
            } else if is_tree_view(trees[key][k]) {
                lookup(trees, join(key, path[0]), path.drop_first())
            } else {
                None
            },
        }
    }
}

/// Append the component `name` to the path `buf`.
fn push_component(buf: &mut Vec<u8>, name: &[u8])
    ensures
        final(buf)@ == join(old(buf)@, name@),
{
    let ghost start = buf@;
    if buf.len() > 0 {
        buf.push(47);
    }
    let ghost mid = buf@;
    let mut i: usize = 0;
    while i < name.len()
        invariant
            i <= name.len(),
            buf@ == mid + name@.subrange(0, i as int),
        decreases name.len() - i,
    {
        buf.push(name[i]);
        i += 1;
        assert(buf@ =~= mid + name@.subrange(0, i as int));
    }
    assert(name@.subrange(0, name.len() as int) =~= name@);
    assert(buf@ =~= join(start, name@));
}

/// The path `name` below `base`.
fn path_with_component(base: &[u8], name: &[u8]) -> (r: Vec<u8>)
    ensures
        r@ == join(base@, name@),
{
    let mut out = copy_range(base, 0, base.len());
    assert(out@ =~= base@);
    push_component(&mut out, name);
    out
}

/// Calls `gix_hash::ObjectId::is_empty_tree()` on `id`, which compares it to the id of the empty
/// tree of its kind; ids of other lengths, which `gix_hash` does not take, are no empty tree. The
/// contract states the two ids, as `gix_hash` defines them.
#[verifier::external_body]
fn id_is_empty_tree(id: &ObjectId) -> (r: bool)
    ensures
        r == is_empty_tree(id@),
{
    match gix_hash::ObjectId::try_from(id.bytes.as_slice()) {
        Ok(id) => id.is_empty_tree(),
        Err(_) => false,
    }
}

// ---------------------------------------------------------------------------------------------
// What reading gives back after editing.

/// At most one entry of `entries` is named `name`.
pub open spec fn at_most_one_named(entries: Seq<EntryView>, name: Seq<u8>) -> bool {
    forall|i: int, j: int|
        0 <= i < entries.len() && 0 <= j < entries.len() && entries[i].filename == name && entries[j].filename == name
            ==> i == j
}

/// No two entries of `entries` share a name, as in the trees git writes.
pub open spec fn names_unique(entries: Seq<EntryView>) -> bool {
    forall|name: Seq<u8>| #[trigger] at_most_one_named(entries, name)
}

/// The path that the first `m` components of `path` lead to from `base`.
pub open spec fn prefix_path(base: Seq<u8>, path: Seq<Seq<u8>>, m: int) -> Seq<u8>
    decreases m,
{
    if m <= 0 {
        base
    } else {
        join(prefix_path(base, path, m - 1), path[m - 1])
    }
}

proof fn lemma_join_longer(base: Seq<u8>, name: Seq<u8>)
    requires
        name.len() > 0,
    ensures
        join(base, name).len() > base.len(),
{
}

proof fn lemma_position_exists(entries: Seq<EntryView>, name: Seq<u8>, is_tree: bool, p: int)
    requires
        0 <= p < entries.len(),
        entries[p].filename == name,
        is_tree_view(entries[p]) == is_tree,
    ensures
        position_from(entries, name, is_tree, 0) matches Some(j) && 0 <= j < entries.len() && entries[j].filename
            == name && is_tree_view(entries[j]) == is_tree,
{
    lemma_position_from(entries, name, is_tree, 0);
}

/// Where the entries of `entries` named `name` are at most one, reading finds the one at `p`.
proof fn lemma_get_index_unique(entries: Seq<EntryView>, name: Seq<u8>, p: int)
    requires
        0 <= p < entries.len(),
        entries[p].filename == name,
        at_most_one_named(entries, name),
    ensures
        get_index(entries, name) == Some(p),
        edit_index(entries, name) == Some(p),
{
    lemma_position_from(entries, name, true, 0);
    lemma_position_from(entries, name, false, 0);
    lemma_position_exists(entries, name, is_tree_view(entries[p]), p);
}

/// Where no entry of `entries` is named `name`, reading finds none.
proof fn lemma_get_index_none(entries: Seq<EntryView>, name: Seq<u8>)
    requires
        forall|i: int| 0 <= i < entries.len() ==> entries[i].filename != name,
    ensures
        get_index(entries, name) is None,
        edit_index(entries, name) is None,
{
    lemma_position_from(entries, name, true, 0);
    lemma_position_from(entries, name, false, 0);
}

/// The entry an edit at the last component writes, and where it lands.
proof fn lemma_upsert_level_places(entries: Seq<EntryView>, name: Seq<u8>, is_last: bool, kind: EntryKind, id: Seq<u8>, null: Seq<u8>)
    ensures
        ({
            let level = upsert_level(entries, name, is_last, kind, id, null);
            is_last ==> exists|p: int| 0 <= p < level.0.len() && level.0[p] == entry_of(kind, name, id)
        }),
        ({
            let level = upsert_level(entries, name, is_last, kind, id, null);
            !is_last ==> exists|p: int|
                0 <= p < level.0.len() && level.0[p].filename == name && is_tree_view(level.0[p])
        }),
{
    let level = upsert_level(entries, name, is_last, kind, id, null);
    lemma_position_from(entries, name, false, 0);
    lemma_position_from(entries, name, true, 0);
    lemma_mode_of_kind(kind);
    lemma_mode_of_kind(EntryKind::Tree);
    lemma_insert_pos_from(entries, name, kind == EntryKind::Tree, 0);
    lemma_insert_pos_from(entries, name, true, 0);
    match edit_index(entries, name) {
        Some(k) => {
            let e = if is_last {
                entry_of(kind, entries[k].filename, id)
            } else {
                entry_of(EntryKind::Tree, entries[k].filename, null)
            };
            if is_last || !is_tree_view(entries[k]) {
                if is_tree_view(entries[k]) == is_tree_view(e) {
                    assert(level.0[k] == e);
                } else {
                    let rest = entries.remove(k);
                    lemma_insert_pos_from(rest, e.filename, is_tree_view(e), 0);
                    let at = insert_pos(rest, e.filename, is_tree_view(e));
                    assert(level.0[at] == e);
                }
            } else {
                assert(level.0[k] == entries[k]);
            }
        },
        None => {
            if is_last {
                let at = insert_pos(entries, name, kind == EntryKind::Tree);
                assert(level.0[at] == entry_of(kind, name, id));
            } else {
                let at = insert_pos(entries, name, true);
                assert(level.0[at] == entry_of(EntryKind::Tree, name, null));
            }
        },
    }
}

/// A walk that places an entry leaves the trees at shorter paths as they were.
proof fn lemma_upsert_walk_frame<F: FindTree>(
    trees: Trees,
    objects: &F,
    key: Seq<u8>,
    path: Seq<Seq<u8>>,
    kind: EntryKind,
    id: Seq<u8>,
    assure_tree: bool,
    other: Seq<u8>,
)
    requires
        other.len() < key.len(),
    ensures
        upsert_walk(trees, objects, key, path, kind, id, assure_tree).0.contains_key(other) == trees.contains_key(other),
        trees.contains_key(other) ==> upsert_walk(trees, objects, key, path, kind, id, assure_tree).0[other] == trees[other],
    decreases path.len(),
{
    if path.len() > 0 && path[0].len() > 0 && !(path.len() == 1 && !assure_tree) {
        let level = upsert_level(trees[key], path[0], path.len() == 1, kind, id, null_for(id));
        let edited = trees.insert(key, level.0);
        let next = join(key, path[0]);
        lemma_join_longer(key, path[0]);
        let entered = if edited.contains_key(next) {
            edited
        } else {
            edited.insert(next, source_tree(objects, level.1))
        };
        lemma_upsert_walk_frame(entered, objects, next, path.drop_first(), kind, id, assure_tree, other);
    }
}

/// A walk that removes an entry leaves the trees at shorter paths as they were.
proof fn lemma_remove_walk_frame<F: FindTree>(trees: Trees, objects: &F, key: Seq<u8>, path: Seq<Seq<u8>>, leaf_only: bool, other: Seq<u8>)
    requires
        other.len() < key.len(),
    ensures
        remove_walk(trees, objects, key, path, leaf_only).0.contains_key(other) == trees.contains_key(other),
        trees.contains_key(other) ==> remove_walk(trees, objects, key, path, leaf_only).0[other] == trees[other],
    decreases path.len(),
{
    if path.len() > 0 && path[0].len() > 0 {
        let level = remove_level(trees[key], path[0], path.len() == 1, leaf_only);
        let next = join(key, path[0]);
        lemma_join_longer(key, path[0]);
        if let Step::Descend(t) = level.1 {
            if trees.contains_key(next) {
                lemma_remove_walk_frame(trees, objects, next, path.drop_first(), leaf_only, other);
            } else if !(leaf_only && is_empty_tree(t)) {
                lemma_remove_walk_frame(
                    trees.insert(next, source_tree(objects, Some(t))),
                    objects,
                    next,
                    path.drop_first(),
                    leaf_only,
                    other,
                );
            }
        }
    }
}

/// Reading a path after placing an entry there gives that entry back, where the tree it was
/// placed in holds no other entry of its name.
pub proof fn lemma_get_after_upsert<F: FindTree>(trees: Trees, objects: &F, key: Seq<u8>, path: Seq<Seq<u8>>, kind: EntryKind, id: Seq<u8>)
    requires
        trees.contains_key(key),
        path.len() > 0,
        upsert_walk(trees, objects, key, path, kind, id, false).2 == WalkEnd::Done,
        at_most_one_named(
            upsert_walk(trees, objects, key, path, kind, id, false).0[prefix_path(key, path, path.len() - 1)],
            path.last(),
        ),
    ensures
        upsert_walk(trees, objects, key, path, kind, id, false).1 == prefix_path(key, path, path.len() - 1),
        lookup(upsert_walk(trees, objects, key, path, kind, id, false).0, key, path) == Some(entry_of(kind, path.last(), id)),
    decreases path.len(),
{
    let result = upsert_walk(trees, objects, key, path, kind, id, false);
    let is_last = path.len() == 1;
    let level = upsert_level(trees[key], path[0], is_last, kind, id, null_for(id));
    lemma_upsert_level_places(trees[key], path[0], is_last, kind, id, null_for(id));
    if is_last {
        assert(prefix_path(key, path, 0) == key);
        let p = choose|p: int| 0 <= p < level.0.len() && level.0[p] == entry_of(kind, path[0], id);
        lemma_get_index_unique(level.0, path[0], p);
    } else {
        let edited = trees.insert(key, level.0);
        let next = join(key, path[0]);
        lemma_join_longer(key, path[0]);
        let entered = if edited.contains_key(next) {
            edited
        } else {
            edited.insert(next, source_tree(objects, level.1))
        };
        let rest = path.drop_first();
        assert(result == upsert_walk(entered, objects, next, rest, kind, id, false));
        assert forall|m: int| 0 <= m <= rest.len() implies #[trigger] prefix_path(next, rest, m) == prefix_path(key, path, m + 1) by {
            lemma_prefix_path_shift(key, path, m);
        }
        lemma_get_after_upsert(entered, objects, next, rest, kind, id);
        lemma_upsert_walk_frame(entered, objects, next, rest, kind, id, false, key);
        let p = choose|p: int| 0 <= p < level.0.len() && level.0[p].filename == path[0] && is_tree_view(level.0[p]);
        lemma_position_exists(level.0, path[0], true, p);
        assert(result.0[key] == level.0);
        assert(rest.last() == path.last());
    }
}

proof fn lemma_prefix_path_shift(key: Seq<u8>, path: Seq<Seq<u8>>, m: int)
    requires
        path.len() > 0,
        0 <= m <= path.len() - 1,
    ensures
        prefix_path(join(key, path[0]), path.drop_first(), m) == prefix_path(key, path, m + 1),
    decreases m,
{
    let next = join(key, path[0]);
    let rest = path.drop_first();
    if m > 0 {
        lemma_prefix_path_shift(key, path, m - 1);
        assert(rest[m - 1] == path[m]);
        assert(prefix_path(next, rest, m) == join(prefix_path(next, rest, m - 1), rest[m - 1]));
        assert(prefix_path(key, path, m + 1) == join(prefix_path(key, path, m), path[m]));
    } else {
        assert(prefix_path(key, path, 0) == key);
        assert(prefix_path(key, path, 1) == join(prefix_path(key, path, 0), path[0]));
    }
}

/// No tree held in `trees`, and none that `objects` stores, has two entries of one name.
pub open spec fn holds_unique_names<F: FindTree>(trees: Trees, objects: &F) -> bool {
    &&& forall|k: Seq<u8>| #[trigger] trees.contains_key(k) ==> names_unique(trees[k])
    &&& forall|t: Seq<u8>| #[trigger] objects.stored(t) matches Some(e) ==> names_unique(e)
}

/// Reading a path after removing the entry there finds nothing, where the trees held and stored
/// hold no two entries of one name.
pub proof fn lemma_get_after_remove<F: FindTree>(trees: Trees, objects: &F, key: Seq<u8>, path: Seq<Seq<u8>>, leaf_only: bool)
    requires
        trees.contains_key(key),
        forall|k: Seq<u8>| #[trigger] trees.contains_key(k) ==> names_unique(trees[k]),
        forall|t: Seq<u8>| #[trigger] objects.stored(t) matches Some(e) ==> names_unique(e),
        remove_walk(trees, objects, key, path, leaf_only).1 == WalkEnd::Done,
    ensures
        lookup(remove_walk(trees, objects, key, path, leaf_only).0, key, path) is None,
    decreases path.len(),
{
    if path.len() == 0 {
        return;
    }
    let result = remove_walk(trees, objects, key, path, leaf_only);
    let entries = trees[key];
    let name = path[0];
    let is_last = path.len() == 1;
    let level = remove_level(entries, name, is_last, leaf_only);
    assert(at_most_one_named(entries, name));
    lemma_position_from(entries, name, false, 0);
    lemma_position_from(entries, name, true, 0);
    match edit_index(entries, name) {
        None => {
            lemma_get_index_none(entries, name);
            assert(result.0 == trees.insert(key, entries));
            assert(result.0[key] == entries);
            assert(lookup(result.0, key, path) is None);
        },
        Some(k) => {
            lemma_get_index_unique(entries, name, k);
            if is_last {
                let left = entries.remove(k);
                assert forall|i: int| 0 <= i < left.len() implies left[i].filename != name by {
                    if i < k {
                        assert(left[i] == entries[i]);
                    } else {
                        assert(left[i] == entries[i + 1]);
                    }
                }
                lemma_get_index_none(left, name);
                assert(result.0 == trees.insert(key, left));
                assert(result.0[key] == left);
                assert(lookup(result.0, key, path) is None);
            } else if !is_tree_view(entries[k]) {
                assert(result.0 == trees.insert(key, entries));
                assert(result.0[key] == entries);
                assert(lookup(result.0, key, path) is None);
            } else {
                let next = join(key, name);
                lemma_join_longer(key, name);
                let rest = path.drop_first();
                if trees.contains_key(next) {
                    lemma_get_after_remove(trees, objects, next, rest, leaf_only);
                    lemma_remove_walk_frame(trees, objects, next, rest, leaf_only, key);
                    assert(result == remove_walk(trees, objects, next, rest, leaf_only));
                    assert(lookup(result.0, key, path) == lookup(result.0, next, rest));
                } else if leaf_only && is_empty_tree(entries[k].oid) {
                    assert(result.0 == trees);
                    assert(lookup(result.0, key, path) == lookup(result.0, next, rest));
                } else {
                    let entered = trees.insert(next, source_tree(objects, Some(entries[k].oid)));
                    assert(names_unique(Seq::<EntryView>::empty()));
                    assert forall|k2: Seq<u8>| #[trigger] entered.contains_key(k2) implies names_unique(entered[k2]) by {
                        if k2 != next {
                            assert(trees.contains_key(k2));
                        }
                    }
                    lemma_get_after_remove(entered, objects, next, rest, leaf_only);
                    lemma_remove_walk_frame(entered, objects, next, rest, leaf_only, key);
                    assert(result == remove_walk(entered, objects, next, rest, leaf_only));
                    assert(lookup(result.0, key, path) == lookup(result.0, next, rest));
                }
            }
        },
    }
}

/// Removing any entry, trees included, never refuses a tree.
proof fn lemma_remove_walk_never_refuses<F: FindTree>(trees: Trees, objects: &F, key: Seq<u8>, path: Seq<Seq<u8>>)
    ensures
        !(remove_walk(trees, objects, key, path, false).1 is NonLeaf),
    decreases path.len(),
{
    if path.len() > 0 && path[0].len() > 0 {
        let level = remove_level(trees[key], path[0], path.len() == 1, false);
        let next = join(key, path[0]);
        if let Step::Descend(t) = level.1 {
            if trees.contains_key(next) {
                lemma_remove_walk_never_refuses(trees, objects, next, path.drop_first());
            } else {
                lemma_remove_walk_never_refuses(trees.insert(next, source_tree(objects, Some(t))), objects, next, path.drop_first());
            }
        }
    }
}

/// A walk that places an entry ends in a tree that the trees after it hold.
proof fn lemma_upsert_walk_holds_end<F: FindTree>(trees: Trees, objects: &F, key: Seq<u8>, path: Seq<Seq<u8>>, kind: EntryKind, id: Seq<u8>)
    requires
        trees.contains_key(key),
    ensures
        upsert_walk(trees, objects, key, path, kind, id, true).0.contains_key(upsert_walk(trees, objects, key, path, kind, id, true).1),
    decreases path.len(),
{
    if path.len() > 0 && path[0].len() > 0 {
        let level = upsert_level(trees[key], path[0], path.len() == 1, kind, id, null_for(id));
        let edited = trees.insert(key, level.0);
        let next = join(key, path[0]);
        let entered = if edited.contains_key(next) {
            edited
        } else {
            edited.insert(next, source_tree(objects, level.1))
        };
        lemma_upsert_walk_holds_end(entered, objects, next, path.drop_first(), kind, id);
    }
}

// ---------------------------------------------------------------------------------------------
// The editor.

/// The error returned by edits of an [`Editor`].
#[derive(Debug)]
pub enum Error {
    EmptyPathComponent,
    FindExistingObject(ExistingObjectError),
    CannotRemoveNonLeaf { rela_path: Vec<u8> },
}

/// A tree the editor holds, and its path.
struct Slot {
    path: Vec<u8>,
    tree: Tree,
}

/// The first slot from `i` on that holds the tree at `key`.
spec fn slot_from(slots: Seq<Slot>, key: Seq<u8>, i: int) -> Option<int>
    decreases slots.len() - i,
{
    if i < 0 || i >= slots.len() {
        None
    } else if slots[i].path@ == key {
        Some(i)
    } else {
        slot_from(slots, key, i + 1)
    }
}

proof fn lemma_slot_from(slots: Seq<Slot>, key: Seq<u8>, i: int)
    requires
        0 <= i,
    ensures
        slot_from(slots, key, i) matches Some(k) ==> i <= k < slots.len() && slots[k].path@ == key,
        slot_from(slots, key, i) is None ==> forall|j: int| i <= j < slots.len() ==> slots[j].path@ != key,
    decreases slots.len() - i,
{
    if i < slots.len() && slots[i].path@ != key {
        lemma_slot_from(slots, key, i + 1);
    }
}

proof fn lemma_trees_finite(slots: Seq<Slot>)
    ensures
        trees_of(slots).dom().finite(),
{
    let paths = slots.map_values(|s: Slot| s.path@);
    assert forall|k: Seq<u8>| trees_of(slots).dom().contains(k) implies paths.to_set().contains(k) by {
        lemma_slot_from(slots, k, 0);
        let i = slot_from(slots, k, 0)->0;
        assert(paths[i] == k);
    }
    vstd::seq_lib::seq_to_set_is_finite(paths);
    vstd::set_lib::lemma_set_subset_finite(paths.to_set(), trees_of(slots).dom());
}

/// Where the first slot at `key` is found from `i` on after removing the slot at `k`, which is
/// at another path.
proof fn lemma_slot_removed_from(slots: Seq<Slot>, k: int, key: Seq<u8>, i: int)
    requires
        0 <= k < slots.len(),
        slots[k].path@ != key,
        0 <= i,
    ensures
        slot_from(slots.remove(k), key, i) == (match (if i < k {
            slot_from(slots, key, i)
        } else {
            slot_from(slots, key, i + 1)
        }) {
            Some(j) => Some(if j < k {
                j
            } else {
                j - 1
            }),
            None => None,
        }),
    decreases slots.len() - i,
{
    let r = slots.remove(k);
    if i < r.len() {
        lemma_slot_removed_from(slots, k, key, i + 1);
        if i < k {
            assert(r[i] == slots[i]);
        } else {
            assert(r[i] == slots[i + 1]);
        }
    }
}

/// Removing the slot at `k` keeps the trees at every other path.
proof fn lemma_slot_removed(slots: Seq<Slot>, k: int, key: Seq<u8>)
    requires
        0 <= k < slots.len(),
        slots[k].path@ != key,
    ensures
        trees_of(slots.remove(k)).contains_key(key) == trees_of(slots).contains_key(key),
        trees_of(slots).contains_key(key) ==> trees_of(slots.remove(k))[key] == trees_of(slots)[key],
{
    lemma_slot_removed_from(slots, k, key, 0);
    if k == 0 {
        assert(slot_from(slots, key, 0) == slot_from(slots, key, 1));
    }
    lemma_slot_from(slots, key, 0);
    match slot_from(slots, key, 0) {
        Some(j) => {
            if j < k {
                assert(slots.remove(k)[j] == slots[j]);
            } else {
                assert(j != k);
                assert(slots.remove(k)[j - 1] == slots[j]);
            }
        },
        None => {},
    }
}

proof fn lemma_slot_update(slots: Seq<Slot>, idx: int, s: Slot, key: Seq<u8>, i: int)
    requires
        0 <= i,
        0 <= idx < slots.len(),
        s.path@ == slots[idx].path@,
    ensures
        slot_from(slots.update(idx, s), key, i) == slot_from(slots, key, i),
    decreases slots.len() - i,
{
    if i < slots.len() {
        lemma_slot_update(slots, idx, s, key, i + 1);
    }
}

proof fn lemma_slot_push(slots: Seq<Slot>, s: Slot, key: Seq<u8>, i: int)
    requires
        0 <= i <= slots.len(),
    ensures
        slot_from(slots.push(s), key, i) == (match slot_from(slots, key, i) {
            Some(k) => Some(k),
            None => if s.path@ == key {
                Some(slots.len() as int)
            } else {
                None
            },
        }),
    decreases slots.len() - i,
{
    let pushed = slots.push(s);
    if i < slots.len() {
        lemma_slot_push(slots, s, key, i + 1);
        assert(pushed[i] == slots[i]);
    } else {
        assert(pushed[i] == s);
        assert(slot_from(pushed, key, i + 1) is None);
    }
}

/// The trees that `slots` hold, by path.
spec fn trees_of(slots: Seq<Slot>) -> Trees {
    Map::new(
        |k: Seq<u8>| slot_from(slots, k, 0) is Some,
        |k: Seq<u8>| entries_view(slots[slot_from(slots, k, 0)->0].tree.entries@),
    )
}

proof fn lemma_trees_update(slots: Seq<Slot>, idx: int, s: Slot)
    requires
        0 <= idx < slots.len(),
        s.path@ == slots[idx].path@,
        slot_from(slots, s.path@, 0) == Some(idx),
    ensures
        trees_of(slots.update(idx, s)) == trees_of(slots).insert(s.path@, entries_view(s.tree.entries@)),
{
    let updated = slots.update(idx, s);
    let a = trees_of(updated);
    let b = trees_of(slots).insert(s.path@, entries_view(s.tree.entries@));
    assert forall|k: Seq<u8>| #[trigger] a.contains_key(k) == b.contains_key(k) && (a.contains_key(k) ==> a[k] == b[k]) by {
        lemma_slot_update(slots, idx, s, k, 0);
        lemma_slot_from(slots, k, 0);
        if k == s.path@ {
            assert(updated[idx] == s);
        } else if a.contains_key(k) {
            let j = slot_from(slots, k, 0)->0;
            assert(j != idx);
            assert(updated[j] == slots[j]);
        }
    }
    assert(a =~= b);
}

proof fn lemma_trees_push(slots: Seq<Slot>, s: Slot)
    requires
        slot_from(slots, s.path@, 0) is None,
    ensures
        trees_of(slots.push(s)) == trees_of(slots).insert(s.path@, entries_view(s.tree.entries@)),
{
    let pushed = slots.push(s);
    let a = trees_of(pushed);
    let b = trees_of(slots).insert(s.path@, entries_view(s.tree.entries@));
    assert forall|k: Seq<u8>| #[trigger] a.contains_key(k) == b.contains_key(k) && (a.contains_key(k) ==> a[k] == b[k]) by {
        lemma_slot_push(slots, s, k, 0);
        lemma_slot_from(slots, k, 0);
        if k == s.path@ {
            assert(pushed[slots.len() as int] == s);
        } else if a.contains_key(k) {
            let j = slot_from(slots, k, 0)->0;
            assert(pushed[j] == slots[j]);
        }
    }
    assert(a =~= b);
}

/// `id` is the id that `said` says a tree is written under, where it says one.
pub open spec fn written_as(said: Option<Seq<u8>>, id: Seq<u8>) -> bool {
    match said {
        Some(x) => id == x,
        None => true,
    }
}

/// The entries have plain names: no name is empty or holds a slash, and no two entries share a
/// name, as in the trees git writes.
pub open spec fn plain_names(entries: Seq<EntryView>) -> bool {
    &&& forall|i: int| 0 <= i < entries.len() ==> (#[trigger] entries[i].filename).len() > 0 && !entries[i].filename.contains(47u8)
    &&& forall|i: int, j: int| 0 <= i < j < entries.len() ==> #[trigger] entries[i].filename != #[trigger] entries[j].filename
}

/// Every tree of `trees` has [`plain_names`].
pub open spec fn plain_trees(trees: Trees) -> bool {
    forall|k: Seq<u8>| #[trigger] trees.contains_key(k) ==> plain_names(trees[k])
}

/// The entries `entries` of the tree at `path`, from the one at `i` on, once the trees `trees`
/// holds below them are written through `out`: a tree entry whose tree is held gets the id that
/// `out` gives the written tree, or is dropped where that tree came out empty. `None` where `out`
/// does not say which id it gives.
pub open spec fn written_entries<W: WriteTree>(trees: Trees, out: &W, path: Seq<u8>, entries: Seq<EntryView>, i: int) -> Option<
    Seq<EntryView>,
>
    decreases trees.dom().len() + 1, 0int, entries.len() - i,
    when trees.dom().finite() && 0 <= i
{
    if i >= entries.len() {
        Some(entries)
    } else {
        let child = join(path, entries[i].filename);
        if is_tree_view(entries[i]) && trees.contains_key(child) {
            match written_tree(trees, out, child) {
                None => None,
                Some(sub) => if sub.len() == 0 {
                    written_entries(trees, out, path, entries.remove(i), i)
                } else {
                    match out.id_of(sub) {
                        None => None,
                        Some(id) => written_entries(
                            trees,
                            out,
                            path,
                            entries.update(i, EntryView { oid: id, ..entries[i] }),
                            i + 1,
                        ),
                    }
                },
            }
        } else {
            written_entries(trees, out, path, entries, i + 1)
        }
    }
}

/// The entries of the tree at `path` of `trees` once the trees below it are written through `out`,
/// as [`written_entries`] says, without the entries with the null id; this is what `out` is
/// given for the tree at `path`.
pub open spec fn written_tree<W: WriteTree>(trees: Trees, out: &W, path: Seq<u8>) -> Option<Seq<EntryView>>
    decreases trees.dom().len(), 1int, 0int,
    when trees.dom().finite()
{
    if !trees.contains_key(path) {
        None
    } else {
        match written_entries(trees.remove(path), out, path, trees[path], 0) {
            Some(es) => Some(es.filter(has_real_id())),
            None => None,
        }
    }
}

/// `t1` and `t2` hold the same trees at every path within `p`.
pub open spec fn agree_within(t1: Trees, t2: Trees, p: Seq<u8>) -> bool {
    forall|k: Seq<u8>|
        #![trigger t1.contains_key(k)]
        #![trigger t2.contains_key(k)]
        within(p, k) ==> t1.contains_key(k) == t2.contains_key(k) && (t1.contains_key(k) ==> t1[k] == t2[k])
}

proof fn lemma_within_trans(p: Seq<u8>, q: Seq<u8>, k: Seq<u8>)
    requires
        within(p, q),
        within(q, k),
    ensures
        within(p, k),
{
    if p.len() > 0 && q != p && k != q && q.len() > 0 {
        assert(k.subrange(0, p.len() as int) =~= k.subrange(0, q.len() as int).subrange(0, p.len() as int));
        assert(k[p.len() as int] == k.subrange(0, q.len() as int)[p.len() as int]);
    }
}

/// `k` at `i`, as `k[..n] == c` gives it, for paths within `c`.
proof fn lemma_within_at(c: Seq<u8>, k: Seq<u8>, i: int)
    requires
        c.len() > 0,
        within(c, k),
        0 <= i < c.len(),
    ensures
        i < k.len(),
        k[i] == c[i],
{
    if k != c {
        assert(k.subrange(0, c.len() as int)[i] == k[i]);
    }
}

/// No path lies within two entries of one tree with different plain names.
proof fn lemma_siblings_apart(p: Seq<u8>, a: Seq<u8>, b: Seq<u8>, k: Seq<u8>)
    requires
        a != b,
        a.len() > 0,
        b.len() > 0,
        !a.contains(47u8),
        !b.contains(47u8),
        within(join(p, a), k),
    ensures
        !within(join(p, b), k),
{
    let ca = join(p, a);
    let cb = join(p, b);
    let base: int = if p.len() == 0 { 0 } else { p.len() + 1int };
    assert(ca.len() == base + a.len());
    assert(cb.len() == base + b.len());
    assert forall|j: int| 0 <= j < a.len() implies ca[base + j] == a[j] by {
        if p.len() > 0 {
            assert(ca == p + seq![47u8] + a);
        }
    }
    assert forall|j: int| 0 <= j < b.len() implies cb[base + j] == b[j] by {
        if p.len() > 0 {
            assert(cb == p + seq![47u8] + b);
        }
    }
    if within(cb, k) {
        if a.len() == b.len() {
            assert forall|j: int| 0 <= j < a.len() implies a[j] == b[j] by {
                lemma_within_at(ca, k, base + j);
                lemma_within_at(cb, k, base + j);
            }
            assert(a =~= b);
        } else if a.len() < b.len() {
            let j = a.len() as int;
            lemma_within_at(cb, k, base + j);
            assert(k != ca);
            assert(k[ca.len() as int] == 47u8);
            assert(b[j] == 47u8);
            assert(b.contains(47u8));
        } else {
            let j = b.len() as int;
            lemma_within_at(ca, k, base + j);
            assert(k != cb);
            assert(k[cb.len() as int] == 47u8);
            assert(a[j] == 47u8);
            assert(a.contains(47u8));
        }
    }
}

/// Writing the tree at `p` reads only the trees within `p`.
proof fn lemma_written_tree_frame<W: WriteTree>(t1: Trees, t2: Trees, out: &W, p: Seq<u8>)
    requires
        t1.dom().finite(),
        t2.dom().finite(),
        agree_within(t1, t2, p),
    ensures
        written_tree(t1, out, p) == written_tree(t2, out, p),
    decreases t1.dom().len(), 1int, 0int,
{
    assert(within(p, p));
    if t1.contains_key(p) {
        let r1 = t1.remove(p);
        let r2 = t2.remove(p);
        assert(agree_within(r1, r2, p));
        lemma_written_entries_frame(r1, r2, out, p, t1[p], 0);
    }
}

/// Writing the trees below entries of the tree at `p` reads only the trees within `p`.
proof fn lemma_written_entries_frame<W: WriteTree>(t1: Trees, t2: Trees, out: &W, p: Seq<u8>, es: Seq<EntryView>, i: int)
    requires
        t1.dom().finite(),
        t2.dom().finite(),
        agree_within(t1, t2, p),
        0 <= i,
    ensures
        written_entries(t1, out, p, es, i) == written_entries(t2, out, p, es, i),
    decreases t1.dom().len() + 1, 0int, es.len() - i,
{
    if i < es.len() {
        let child = join(p, es[i].filename);
        assert(within(p, p));
        lemma_join_within(p, p, es[i].filename);
        if is_tree_view(es[i]) && t1.contains_key(child) {
            assert forall|k: Seq<u8>| within(child, k) implies t1.contains_key(k) == t2.contains_key(k) && (t1.contains_key(k)
                ==> t1[k] == t2[k]) by {
                lemma_within_trans(p, child, k);
            }
            lemma_written_tree_frame(t1, t2, out, child);
            match written_tree(t1, out, child) {
                None => {},
                Some(sub) => if sub.len() == 0 {
                    lemma_written_entries_frame(t1, t2, out, p, es.remove(i), i);
                } else {
                    match out.id_of(sub) {
                        None => {},
                        Some(id) => {
                            lemma_written_entries_frame(t1, t2, out, p, es.update(i, EntryView { oid: id, ..es[i] }), i + 1);
                        },
                    }
                },
            }
        } else {
            lemma_written_entries_frame(t1, t2, out, p, es, i + 1);
        }
    }
}

/// Where changed trees go when an [`Editor`] writes them, such as an object database, which
/// gives a tree the id that hashing its entries yields.
pub trait WriteTree {
    /// Why writing failed.
    type Error;

    /// The id under which a tree with `entries` is written, where the writer says which; one that
    /// does not say gives `None`.
    open spec fn id_of(&self, entries: Seq<EntryView>) -> Option<Seq<u8>> {
        None
    }

    /// Write `tree`, returning its id.
    fn write_tree(&self, tree: &Tree) -> (r: Result<ObjectId, Self::Error>)
        ensures
            r matches Ok(id) ==> written_as(self.id_of(entries_view(tree.entries@)), id@),
    ;
}

/// A copy of `e`.
fn copy_entry(e: &Entry) -> (r: Entry)
    ensures
        r@ == e@,
{
    let filename = copy_range(e.filename.as_slice(), 0, e.filename.len());
    assert(filename@ =~= e.filename@);
    Entry { mode: e.mode, filename, oid: e.oid.copied() }
}

/// The entry has an id other than the null id.
pub open spec fn has_real_id() -> spec_fn(EntryView) -> bool {
    |e: EntryView| !is_null(e.oid)
}

/// No entry of `entries` has the null id.
pub open spec fn no_null_ids(entries: Seq<EntryView>) -> bool {
    forall|i: int| 0 <= i < entries.len() ==> !is_null(#[trigger] entries[i].oid)
}

/// The entries of `entries` whose id is not null, in their order.
fn without_null_ids(entries: &Vec<Entry>) -> (r: Vec<Entry>)
    ensures
        entries_view(r@) == entries_view(entries@).filter(has_real_id()),
{
    let ghost all = entries_view(entries@);
    let mut kept: Vec<Entry> = Vec::new();
    let mut i: usize = 0;
    while i < entries.len()
        invariant
            i <= entries@.len(),
            all == entries_view(entries@),
            entries_view(kept@) == all.subrange(0, i as int).filter(has_real_id()),
        decreases entries.len() - i,
    {
        let ghost before = entries_view(kept@);
        assert(all.subrange(0, i + 1) =~= all.subrange(0, i as int).push(all[i as int]));
        assert(all[i as int] == entries@[i as int]@);
        if !id_is_null(&entries[i].oid) {
            let e = copy_entry(&entries[i]);
            kept.push(e);
            assert(entries_view(kept@) =~= before.push(e@));
        } else {
            assert(entries_view(kept@) =~= before);
        }
        proof {
            all.subrange(0, i as int).lemma_filter_push(all[i as int], has_real_id());
        }
        i += 1;
    }
    assert(all.subrange(0, entries@.len() as int) =~= all);
    kept
}

/// Edits trees in memory, starting from a root tree and loading the trees on the way from an
/// object database, each once, to edit it in place from then on.
pub struct Editor<'a, F: FindTree> {
    find: &'a F,
    object_hash: HashKind,
    slots: Vec<Slot>,
}

impl<'a, F: FindTree> Editor<'a, F> {
    /// The trees the editor holds, by path; the root tree is at the empty path.
    pub closed spec fn trees(&self) -> Trees {
        trees_of(self.slots@)
    }

    /// The kind of hash of the ids the editor creates.
    pub closed spec fn hash_kind(&self) -> HashKind {
        self.object_hash
    }

    /// The object database the editor loads trees from.
    pub closed spec fn objects(&self) -> &'a F {
        self.find
    }

    /// The editor holds a root tree.
    pub open spec fn wf(&self) -> bool {
        self.trees().contains_key(seq![])
    }

    /// The slot holding the tree at `path`.
    fn slot_index(&self, path: &[u8]) -> (r: Option<usize>)
        ensures
            match r {
                Some(k) => slot_from(self.slots@, path@, 0) == Some(k as int) && k < self.slots@.len(),
                None => slot_from(self.slots@, path@, 0) is None,
            },
    {
        proof {
            lemma_slot_from(self.slots@, path@, 0);
        }
        let mut i: usize = 0;
        while i < self.slots.len()
            invariant
                i <= self.slots@.len(),
                slot_from(self.slots@, path@, 0) == slot_from(self.slots@, path@, i as int),
            decreases self.slots.len() - i,
        {
            if slice_eq(self.slots[i].path.as_slice(), path) {
                return Some(i);
            }
            i += 1;
        }
        None
    }

    /// The entry at `rela_path` below the tree at `base`, as [`lookup`] finds it.
    fn get_at(&self, base: &[u8], rela_path: &[&[u8]]) -> (r: Option<&Entry>)
        ensures
            match r {
                Some(e) => lookup(self.trees(), base@, components(rela_path@)) == Some(e@),
                None => lookup(self.trees(), base@, components(rela_path@)) is None,
            },
    {
        let ghost comps = components(rela_path@);
        let ghost trees = self.trees();
        let n = rela_path.len();
        if n == 0 {
            return None;
        }
        let mut path_buf = copy_range(base, 0, base.len());
        assert(path_buf@ =~= base@);
        assert(comps.subrange(0, n as int) =~= comps);
        let mut i: usize = 0;
        loop
            invariant
                i < n,
                n == rela_path@.len(),
                comps == components(rela_path@),
                trees == self.trees(),
                lookup(trees, base@, comps) == lookup(trees, path_buf@, comps.subrange(i as int, n as int)),
            decreases n - i,
        {
            let ghost rest = comps.subrange(i as int, n as int);
            assert(rest[0] == rela_path@[i as int]@);
            let idx = match self.slot_index(path_buf.as_slice()) {
                Some(k) => k,
                None => {
                    return None;
                },
            };
            assert(trees[path_buf@] == entries_view(self.slots@[idx as int].tree.entries@));
            let name = rela_path[i];
            match get_position(&self.slots[idx].tree.entries, name) {
                None => {
                    return None;
                },
                Some(k) => {
                    proof {
                        lemma_position_from(trees[path_buf@], name@, true, 0);
                        lemma_position_from(trees[path_buf@], name@, false, 0);
                    }
                    assert(trees[path_buf@][k as int] == self.slots@[idx as int].tree.entries@[k as int]@);
                    if i + 1 == n {
                        return Some(&self.slots[idx].tree.entries[k]);
                    }
                    if !self.slots[idx].tree.entries[k].mode.is_tree() {
                        return None;
                    }
                    assert(rest.drop_first() =~= comps.subrange(i + 1, n as int));
                    push_component(&mut path_buf, name);
                    i += 1;
                },
            }
        }
    }

    /// Place an entry of `kind` with `id` at `rela_path` below the tree at `base`, as
    /// [`upsert_walk`] describes it, returning the path of the tree the walk ended in.
    fn upsert_at(&mut self, base: &[u8], rela_path: &[&[u8]], kind: EntryKind, id: &ObjectId, assure_tree: bool) -> (r:
        Result<Vec<u8>, Error>)
        requires
            old(self).wf(),
            old(self).trees().contains_key(base@),
        ensures
            final(self).wf(),
            forall|k: Seq<u8>| #[trigger] old(self).trees().contains_key(k) ==> final(self).trees().contains_key(k),
            final(self).hash_kind() == old(self).hash_kind(),
            final(self).objects() == old(self).objects(),
            match r {
                Ok(p) => upsert_walk(old(self).trees(), old(self).objects(), base@, components(rela_path@), kind, id@, assure_tree)
                    == (final(self).trees(), p@, WalkEnd::Done),
                Err(Error::EmptyPathComponent) => {
                    &&& upsert_walk(old(self).trees(), old(self).objects(), base@, components(rela_path@), kind, id@, assure_tree).2
                        == WalkEnd::EmptyComponent
                    &&& upsert_walk(old(self).trees(), old(self).objects(), base@, components(rela_path@), kind, id@, assure_tree).0
                        == final(self).trees()
                },
                Err(Error::FindExistingObject(_)) => upsert_loads(
                    old(self).trees(),
                    old(self).objects(),
                    base@,
                    components(rela_path@),
                    kind,
                    id@,
                    assure_tree,
                ),
                Err(Error::CannotRemoveNonLeaf { .. }) => false,
            },
    {
        let ghost comps = components(rela_path@);
        let ghost old_trees = self.trees();
        let ghost mut loaded = false;
        let null = null_id(id.kind());
        assert(null@ =~= null_for(id@));
        let n = rela_path.len();
        let mut path_buf = copy_range(base, 0, base.len());
        assert(path_buf@ =~= base@);
        assert(comps.subrange(0, n as int) =~= comps);
        let mut i: usize = 0;
        while i < n
            invariant
                i <= n,
                n == rela_path@.len(),
                comps == components(rela_path@),
                self.wf(),
                self.hash_kind() == old(self).hash_kind(),
                self.objects() == old(self).objects(),
                forall|k: Seq<u8>| #[trigger] old_trees.contains_key(k) ==> self.trees().contains_key(k),
                old_trees == old(self).trees(),
                self.trees().contains_key(path_buf@),
                null@ == null_for(id@),
                upsert_walk(old_trees, self.objects(), base@, comps, kind, id@, assure_tree)
                    == upsert_walk(self.trees(), self.objects(), path_buf@, comps.subrange(i as int, n as int), kind, id@, assure_tree),
                upsert_loads(old_trees, self.objects(), base@, comps, kind, id@, assure_tree) == (loaded || upsert_loads(
                    self.trees(),
                    self.objects(),
                    path_buf@,
                    comps.subrange(i as int, n as int),
                    kind,
                    id@,
                    assure_tree,
                )),
            decreases n - i,
        {
            let ghost rest = comps.subrange(i as int, n as int);
            let ghost before = self.trees();
            let ghost key = path_buf@;
            assert(rest[0] == rela_path@[i as int]@);
            let name = rela_path[i];
            if name.len() == 0 {
                assert(upsert_walk(before, self.objects(), key, rest, kind, id@, assure_tree) == (before, key, WalkEnd::EmptyComponent));
                return Err(Error::EmptyPathComponent);
            }
            let is_last = i + 1 == n;
            let idx = match self.slot_index(path_buf.as_slice()) {
                Some(k) => k,
                None => {
                    proof {
                        assert(self.trees().contains_key(path_buf@));
                        assert(false);
                    }
                    return Err(Error::EmptyPathComponent);
                },
            };
            proof {
                lemma_slot_from(self.slots@, path_buf@, 0);
            }
            let ghost slots_before = self.slots@;
            let ghost entries_before = entries_view(self.slots@[idx as int].tree.entries@);
            assert(before[key] == entries_before);
            let lookup_id = upsert_in(&mut self.slots[idx].tree.entries, name, is_last, kind, id, &null);
            let ghost level = upsert_level(entries_before, name@, is_last, kind, id@, null_for(id@));
            proof {
                assert(self.slots@[idx as int].path == slots_before[idx as int].path);
                lemma_trees_update(slots_before, idx as int, self.slots@[idx as int]);
                assert(self.slots@ == slots_before.update(idx as int, self.slots@[idx as int]));
            }
            let ghost edited = self.trees();
            assert(edited == before.insert(key, level.0));
            if is_last && !assure_tree {
                return Ok(path_buf);
            }
            push_component(&mut path_buf, name);
            let ghost next = path_buf@;
            match self.slot_index(path_buf.as_slice()) {
                Some(_) => {},
                None => {
                    let tree = match lookup_id {
                        Some(tree_id) => {
                            if id_is_empty_tree(&tree_id) {
                                Tree { entries: Vec::new() }
                            } else {
                                match self.find.find_tree(&tree_id) {
                                    Ok(t) => {
                                        proof {
                                            loaded = true;
                                        }
                                        t
                                    },
                                    Err(e) => {
                                        return Err(Error::FindExistingObject(e));
                                    },
                                }
                            }
                        },
                        None => Tree { entries: Vec::new() },
                    };
                    let path = copy_range(path_buf.as_slice(), 0, path_buf.len());
                    assert(path@ =~= next);
                    let ghost slots_mid = self.slots@;
                    let slot = Slot { path, tree };
                    assert(entries_view(slot.tree.entries@) =~= source_tree(self.objects(), level.1));
                    self.slots.push(slot);
                    proof {
                        lemma_trees_push(slots_mid, slot);
                        assert(self.trees() == edited.insert(next, source_tree(self.objects(), level.1)));
                    }
                },
            }
            proof {
                assert(rest.drop_first() =~= comps.subrange(i + 1, n as int));
            }
            i += 1;
        }
        Ok(path_buf)
    }

    /// Remove the entry at `rela_path` below the tree at `base`, as [`remove_walk`] describes it.
    fn remove_at(&mut self, base: &[u8], rela_path: &[&[u8]], leaf_only: bool) -> (r: Result<(), Error>)
        requires
            old(self).wf(),
            old(self).trees().contains_key(base@),
        ensures
            final(self).wf(),
            forall|k: Seq<u8>| #[trigger] old(self).trees().contains_key(k) ==> final(self).trees().contains_key(k),
            final(self).hash_kind() == old(self).hash_kind(),
            final(self).objects() == old(self).objects(),
            match r {
                Ok(()) => remove_walk(old(self).trees(), old(self).objects(), base@, components(rela_path@), leaf_only)
                    == (final(self).trees(), WalkEnd::Done),
                Err(Error::EmptyPathComponent) => remove_walk(old(self).trees(), old(self).objects(), base@, components(rela_path@), leaf_only)
                    == (final(self).trees(), WalkEnd::EmptyComponent),
                Err(Error::CannotRemoveNonLeaf { rela_path: p }) => remove_walk(old(self).trees(), old(self).objects(), base@, components(rela_path@), leaf_only)
                    == (final(self).trees(), WalkEnd::NonLeaf(p@)),
                Err(Error::FindExistingObject(_)) => remove_loads(
                    old(self).trees(),
                    old(self).objects(),
                    base@,
                    components(rela_path@),
                    leaf_only,
                ),
            },
    {
        let ghost comps = components(rela_path@);
        let ghost old_trees = self.trees();
        let ghost mut loaded = false;
        let n = rela_path.len();
        let mut path_buf = copy_range(base, 0, base.len());
        assert(path_buf@ =~= base@);
        assert(comps.subrange(0, n as int) =~= comps);
        let mut i: usize = 0;
        while i < n
            invariant
                i <= n,
                n == rela_path@.len(),
                comps == components(rela_path@),
                self.wf(),
                self.hash_kind() == old(self).hash_kind(),
                self.objects() == old(self).objects(),
                forall|k: Seq<u8>| #[trigger] old_trees.contains_key(k) ==> self.trees().contains_key(k),
                old_trees == old(self).trees(),
                self.trees().contains_key(path_buf@),
                remove_walk(old_trees, self.objects(), base@, comps, leaf_only)
                    == remove_walk(self.trees(), self.objects(), path_buf@, comps.subrange(i as int, n as int), leaf_only),
                remove_loads(old_trees, self.objects(), base@, comps, leaf_only) == (loaded || remove_loads(
                    self.trees(),
                    self.objects(),
                    path_buf@,
                    comps.subrange(i as int, n as int),
                    leaf_only,
                )),
            decreases n - i,
        {
            let ghost rest = comps.subrange(i as int, n as int);
            let ghost before = self.trees();
            let ghost key = path_buf@;
            assert(rest[0] == rela_path@[i as int]@);
            let name = rela_path[i];
            if name.len() == 0 {
                assert(remove_walk(before, self.objects(), key, rest, leaf_only) == (before, WalkEnd::EmptyComponent));
                return Err(Error::EmptyPathComponent);
            }
            let is_last = i + 1 == n;
            let idx = match self.slot_index(path_buf.as_slice()) {
                Some(k) => k,
                None => {
                    proof {
                        assert(self.trees().contains_key(path_buf@));
                        assert(false);
                    }
                    return Err(Error::EmptyPathComponent);
                },
            };
            proof {
                lemma_slot_from(self.slots@, path_buf@, 0);
            }
            let ghost slots_before = self.slots@;
            let ghost entries_before = entries_view(self.slots@[idx as int].tree.entries@);
            assert(before[key] == entries_before);
            let step = remove_in(&mut self.slots[idx].tree.entries, name, is_last, leaf_only);
            let ghost level = remove_level(entries_before, name@, is_last, leaf_only);
            proof {
                assert(self.slots@[idx as int].path == slots_before[idx as int].path);
                lemma_trees_update(slots_before, idx as int, self.slots@[idx as int]);
                assert(self.slots@ == slots_before.update(idx as int, self.slots@[idx as int]));
            }
            let ghost edited = self.trees();
            assert(edited == before.insert(key, level.0));
            let tree_id = match step {
                RemoveStep::NonLeaf => {
                    assert(level.0 == entries_before);
                    assert(edited =~= before);
                    return Err(Error::CannotRemoveNonLeaf { rela_path: path_with_component(path_buf.as_slice(), name) });
                },
                RemoveStep::Stop => {
                    return Ok(());
                },
                RemoveStep::Descend(t) => t,
            };
            assert(level.0 == entries_before);
            assert(edited =~= before);
            push_component(&mut path_buf, name);
            let ghost next = path_buf@;
            match self.slot_index(path_buf.as_slice()) {
                Some(_) => {},
                None => {
                    let empty = id_is_empty_tree(&tree_id);
                    if leaf_only && empty {
                        return Ok(());
                    }
                    let tree = if empty {
                        Tree { entries: Vec::new() }
                    } else {
                        match self.find.find_tree(&tree_id) {
                            Ok(t) => {
                                proof {
                                    loaded = true;
                                }
                                t
                            },
                            Err(e) => {
                                return Err(Error::FindExistingObject(e));
                            },
                        }
                    };
                    let path = copy_range(path_buf.as_slice(), 0, path_buf.len());
                    assert(path@ =~= next);
                    let ghost slots_mid = self.slots@;
                    let slot = Slot { path, tree };
                    assert(entries_view(slot.tree.entries@) =~= source_tree(self.objects(), Some(tree_id@)));
                    self.slots.push(slot);
                    proof {
                        lemma_trees_push(slots_mid, slot);
                        assert(self.trees() == edited.insert(next, source_tree(self.objects(), Some(tree_id@))));
                    }
                },
            }
            proof {
                assert(rest.drop_first() =~= comps.subrange(i + 1, n as int));
            }
            i += 1;
        }
        Ok(())
    }

    /// Take the tree at `path` out of the editor, which then holds no tree there.
    fn take_all(&mut self, path: &[u8]) -> (r: Option<Tree>)
        ensures
            final(self).trees() == old(self).trees().remove(path@),
            final(self).hash_kind() == old(self).hash_kind(),
            final(self).objects() == old(self).objects(),
            final(self).slots@.len() <= old(self).slots@.len(),
            match r {
                Some(t) => old(self).trees().contains_key(path@) && entries_view(t.entries@) == old(self).trees()[path@]
                    && final(self).slots@.len() < old(self).slots@.len(),
                None => !old(self).trees().contains_key(path@),
            },
    {
        let ghost before = self.trees();
        let first = match self.slot_index(path) {
            Some(k) => {
                proof {
                    lemma_slot_from(self.slots@, path@, 0);
                }
                Some(self.take(k).tree)
            },
            None => None,
        };
        loop
            invariant
                self.hash_kind() == old(self).hash_kind(),
                self.objects() == old(self).objects(),
                self.slots@.len() <= old(self).slots@.len(),
                first is Some ==> self.slots@.len() < old(self).slots@.len(),
                before == old(self).trees(),
                match first {
                    Some(t) => before.contains_key(path@) && entries_view(t.entries@) == before[path@],
                    None => !before.contains_key(path@),
                },
                forall|key: Seq<u8>|
                    #![trigger self.trees().contains_key(key)]
                    #![trigger before.contains_key(key)]
                    key != path@ ==> self.trees().contains_key(key) == before.contains_key(key) && (before.contains_key(key)
                        ==> self.trees()[key] == before[key]),
            ensures
                !self.trees().contains_key(path@),
            decreases self.slots@.len(),
        {
            match self.slot_index(path) {
                Some(k) => {
                    proof {
                        lemma_slot_from(self.slots@, path@, 0);
                    }
                    let _ = self.take(k);
                },
                None => {
                    break;
                },
            }
        }
        assert(self.trees() =~= before.remove(path@));
        first
    }

    /// Write the trees held below `entries`, the entries of the tree at `path`, through `out`,
    /// children before parents, taking them out of the editor, and set the ids `out` gave them in
    /// `entries`, as [`written_entries`] says; trees that came out empty leave `entries`.
    fn write_below<W: WriteTree>(&mut self, path: &[u8], entries: &mut Vec<Entry>, out: &W) -> (r: Result<(), W::Error>)
        ensures
            final(self).hash_kind() == old(self).hash_kind(),
            final(self).objects() == old(self).objects(),
            keeps_outside(old(self).trees(), final(self).trees(), path@),
            final(self).slots@.len() <= old(self).slots@.len(),
            forall|k: Seq<u8>|
                #[trigger] final(self).trees().contains_key(k) ==> old(self).trees().contains_key(k)
                    && final(self).trees()[k] == old(self).trees()[k],
            r is Ok && plain_names(entries_view(old(entries)@)) && plain_trees(old(self).trees()) ==> match written_entries(
                old(self).trees(),
                out,
                path@,
                entries_view(old(entries)@),
                0,
            ) {
                Some(w) => entries_view(final(entries)@) == w,
                None => true,
            },
        decreases old(self).slots@.len(),
    {
        let ghost t0 = self.trees();
        let ghost e0 = entries_view(entries@);
        let ghost hyp = plain_names(e0) && plain_trees(t0);
        proof {
            lemma_trees_finite(self.slots@);
        }
        let mut i: usize = 0;
        while i < entries.len()
            invariant
                i <= entries@.len(),
                self.hash_kind() == old(self).hash_kind(),
                self.objects() == old(self).objects(),
                self.slots@.len() <= old(self).slots@.len(),
                t0 == old(self).trees(),
                t0.dom().finite(),
                e0 == entries_view(old(entries)@),
                hyp == (plain_names(e0) && plain_trees(t0)),
                keeps_outside(t0, self.trees(), path@),
                forall|k: Seq<u8>| #[trigger] self.trees().contains_key(k) ==> t0.contains_key(k) && self.trees()[k] == t0[k],
                hyp ==> plain_names(entries_view(entries@)),
                hyp ==> forall|j: int|
                    i <= j < entries@.len() ==> agree_within(self.trees(), t0, #[trigger] join(path@, entries@[j].filename@)),
                hyp ==> match written_entries(t0, out, path@, e0, 0) {
                    Some(w) => written_entries(t0, out, path@, entries_view(entries@), i as int) == Some(w),
                    None => true,
                },
            decreases entries@.len() - i, 1int,
        {
            let ghost cur = entries_view(entries@);
            let ghost at_start = entries@;
            let ghost t_cur = self.trees();
            assert(cur[i as int] == entries@[i as int]@);
            if !entries[i].mode.is_tree() {
                i += 1;
                continue;
            }
            let child = path_with_component(path, entries[i].filename.as_slice());
            let ghost c = child@;
            proof {
                assert(within(path@, path@));
                lemma_join_within(path@, path@, cur[i as int].filename);
                if hyp {
                    assert(agree_within(t_cur, t0, c));
                    assert(within(c, c));
                }
            }
            let taken = self.take_all(child.as_slice());
            let mut sub = match taken {
                None => {
                    i += 1;
                    continue;
                },
                Some(t) => t,
            };
            let ghost t1 = self.trees();
            proof {
                lemma_trees_finite(self.slots@);
                if hyp {
                    assert(t0.contains_key(c));
                    assert(entries_view(sub.entries@) == t0[c]);
                    assert(agree_within(t1, t0.remove(c), c));
                    lemma_written_entries_frame(t1, t0.remove(c), out, c, t0[c], 0);
                    assert(plain_trees(t1));
                }
            }
            let res = self.write_below(child.as_slice(), &mut sub.entries, out);
            let ghost t2 = self.trees();
            proof {
                assert forall|k: Seq<u8>| !within(path@, k) implies t2.contains_key(k) == t0.contains_key(k) && (t0.contains_key(k)
                    ==> t2[k] == t0[k]) by {
                    if within(c, k) {
                        lemma_within_trans(path@, c, k);
                    }
                    assert(t1.contains_key(k) == t_cur.contains_key(k));
                    assert(t2.contains_key(k) == t1.contains_key(k));
                    assert(t_cur.contains_key(k) == t0.contains_key(k));
                }
                assert(keeps_outside(t0, t2, path@));
                assert forall|k: Seq<u8>| #[trigger] t2.contains_key(k) implies t0.contains_key(k) && t2[k] == t0[k] by {
                    assert(t1.contains_key(k));
                    assert(t_cur.contains_key(k));
                }
            }
            match res {
                Ok(()) => {},
                Err(e) => {
                    return Err(e);
                },
            }
            let ghost unfiltered = entries_view(sub.entries@);
            let kept = without_null_ids(&sub.entries);
            let ghost sub_view = entries_view(kept@);
            proof {
                if hyp {
                    assert(plain_names(t0[c]));
                    match written_tree(t0, out, c) {
                        Some(x) => {
                            assert(sub_view == x);
                        },
                        None => {},
                    }
                    assert(written_entries(t0, out, path@, cur, i as int) == match written_tree(t0, out, c) {
                        None => None,
                        Some(x) => if x.len() == 0 {
                            written_entries(t0, out, path@, cur.remove(i as int), i as int)
                        } else {
                            match out.id_of(x) {
                                None => None,
                                Some(id) => written_entries(
                                    t0,
                                    out,
                                    path@,
                                    cur.update(i as int, EntryView { oid: id, ..cur[i as int] }),
                                    i + 1,
                                ),
                            }
                        },
                    });
                }
            }
            let ghost i0 = i as int;
            if kept.len() == 0 {
                let _ = entries.remove(i);
                proof {
                    assert(entries_view(entries@) =~= cur.remove(i as int));
                }
            } else {
                let written = Tree { entries: kept };
                match out.write_tree(&written) {
                    Ok(id) => {
                        entries[i].oid = id;
                        proof {
                            assert(entries_view(entries@) =~= cur.update(i as int, EntryView { oid: id@, ..cur[i as int] }));
                        }
                        i += 1;
                    },
                    Err(e) => {
                        return Err(e);
                    },
                }
            }
            proof {
                if hyp {
                    let now = entries_view(entries@);
                    assert forall|j: int| i <= j < entries@.len() implies agree_within(
                        self.trees(),
                        t0,
                        #[trigger] join(path@, entries@[j].filename@),
                    ) by {
                        let j0 = if kept@.len() == 0 { j + 1 } else { j };
                        assert(now[j] == entries@[j]@);
                        assert(now[j].filename == cur[j0].filename);
                        assert(cur[j0] == at_start[j0]@);
                        assert(agree_within(t_cur, t0, join(path@, at_start[j0].filename@)));
                        let cj = join(path@, cur[j0].filename);
                        assert forall|k: Seq<u8>| within(cj, k) implies self.trees().contains_key(k) == t0.contains_key(k) && (
                        self.trees().contains_key(k) ==> self.trees()[k] == t0[k]) by {
                            lemma_siblings_apart(path@, cur[j0].filename, cur[i0].filename, k);
                            assert(t2.contains_key(k) == t1.contains_key(k));
                            assert(t1.contains_key(k) == t_cur.contains_key(k));
                            assert(t_cur.contains_key(k) == t0.contains_key(k));
                        }
                    }
                }
            }
        }
        Ok(())
    }

    /// Put `tree` back at `path`, replacing what is held there.
    fn restore(&mut self, path: Vec<u8>, tree: Tree)
        ensures
            final(self).trees() == old(self).trees().insert(path@, entries_view(tree.entries@)),
            final(self).hash_kind() == old(self).hash_kind(),
            final(self).objects() == old(self).objects(),
    {
        match self.slot_index(path.as_slice()) {
            Some(k) => {
                proof {
                    lemma_slot_from(self.slots@, path@, 0);
                }
                let ghost slots_before = self.slots@;
                let slot = Slot { path, tree };
                self.slots.set(k, slot);
                proof {
                    lemma_trees_update(slots_before, k as int, slot);
                }
            },
            None => {
                let ghost slots_before = self.slots@;
                let slot = Slot { path, tree };
                self.slots.push(slot);
                proof {
                    lemma_trees_push(slots_before, slot);
                }
            },
        }
    }

    /// Take the tree at `path` out of the editor.
    fn take(&mut self, k: usize) -> (r: Slot)
        requires
            k < old(self).slots@.len(),
        ensures
            final(self).hash_kind() == old(self).hash_kind(),
            final(self).objects() == old(self).objects(),
            final(self).slots@.len() == old(self).slots@.len() - 1,
            r == old(self).slots@[k as int],
            forall|key: Seq<u8>| key != r.path@ && #[trigger] old(self).trees().contains_key(key) ==> final(self).trees().contains_key(key),
            forall|key: Seq<u8>|
                #![trigger final(self).trees().contains_key(key)]
                #![trigger old(self).trees().contains_key(key)]
                key != r.path@ ==> final(self).trees().contains_key(key) == old(self).trees().contains_key(key) && (old(
                    self,
                ).trees().contains_key(key) ==> final(self).trees()[key] == old(self).trees()[key]),
    {
        let ghost slots_before = self.slots@;
        let r = self.slots.remove(k);
        proof {
            assert forall|key: Seq<u8>| key != r.path@ && #[trigger] trees_of(slots_before).contains_key(key) implies trees_of(self.slots@).contains_key(key) by {
                lemma_slot_from(slots_before, key, 0);
                lemma_slot_from(self.slots@, key, 0);
                let j = slot_from(slots_before, key, 0)->0;
                if j < k {
                    assert(self.slots@[j] == slots_before[j]);
                } else {
                    assert(self.slots@[j - 1] == slots_before[j]);
                }
            }
            assert forall|key: Seq<u8>| key != r.path@ implies #[trigger] trees_of(self.slots@).contains_key(key) == trees_of(
                slots_before,
            ).contains_key(key) && (trees_of(slots_before).contains_key(key) ==> trees_of(self.slots@)[key] == trees_of(
                slots_before,
            )[key]) by {
                lemma_slot_from(slots_before, key, 0);
                lemma_slot_from(self.slots@, key, 0);
                lemma_slot_removed(slots_before, k as int, key);
            }
        }
        r
    }

    /// Write the tree at `prefix` and every tree held below it through `out`, children before
    /// parents and the tree at `prefix` last, as [`written_tree`] says, returning the id `out` gave
    /// that tree; it is held afterwards as written. Without `keep_others`, only it is held then.
    fn write_at<W: WriteTree>(&mut self, prefix: &[u8], out: &W, keep_others: bool) -> (r: Result<ObjectId, W::Error>)
        requires
            old(self).wf(),
            old(self).trees().contains_key(prefix@),
            prefix@.len() == 0 || keep_others,
        ensures
            final(self).wf(),
            final(self).hash_kind() == old(self).hash_kind(),
            final(self).objects() == old(self).objects(),
            final(self).trees().contains_key(prefix@),
            r is Ok && !keep_others ==> final(self).trees().dom() == set![prefix@],
            r is Ok ==> no_null_ids(final(self).trees()[prefix@]),
            r matches Ok(id) ==> written_as(out.id_of(final(self).trees()[prefix@]), id@),
            r is Ok && plain_trees(old(self).trees()) ==> match written_tree(old(self).trees(), out, prefix@) {
                Some(w) => final(self).trees()[prefix@] == w,
                None => true,
            },
            keeps_outside(old(self).trees(), final(self).trees(), prefix@),
    {
        let ghost t0 = self.trees();
        proof {
            lemma_trees_finite(self.slots@);
        }
        let root = match self.take_all(prefix) {
            Some(t) => t,
            None => {
                proof {
                    assert(false);
                }
                Tree { entries: Vec::new() }
            },
        };
        let path = copy_range(prefix, 0, prefix.len());
        assert(path@ =~= prefix@);
        let mut entries = root.entries;
        let ghost t1 = self.trees();
        proof {
            lemma_trees_finite(self.slots@);
            if plain_trees(t0) {
                assert(plain_names(t0[prefix@]));
                assert(plain_trees(t1));
            }
        }
        let res = self.write_below(prefix, &mut entries, out);
        let ghost t2 = self.trees();
        proof {
            assert(within(prefix@, prefix@));
            if prefix@.len() > 0 {
                assert(!within(prefix@, Seq::<u8>::empty()));
                assert(t0.contains_key(seq![]));
            }
        }
        match res {
            Ok(()) => {},
            Err(e) => {
                self.restore(path, Tree { entries });
                proof {
                    if prefix@.len() == 0 {
                        assert(prefix@ =~= Seq::<u8>::empty());
                    }
                }
                return Err(e);
            },
        }
        let ghost unfiltered = entries_view(entries@);
        let kept = without_null_ids(&entries);
        let tree = Tree { entries: kept };
        match out.write_tree(&tree) {
            Ok(id) => {
                if !keep_others {
                    self.slots = Vec::new();
                }
                let ghost written = entries_view(tree.entries@);
                self.restore(path, tree);
                proof {
                    unfiltered.filter_lemma(has_real_id());
                    assert(no_null_ids(written));
                    if prefix@.len() == 0 {
                        assert(prefix@ =~= Seq::<u8>::empty());
                    }
                    if !keep_others {
                        assert(self.trees().dom() =~= set![prefix@]) by {
                            assert forall|k: Seq<u8>| #[trigger] self.trees().contains_key(k) implies k == prefix@ by {
                                lemma_slot_from(self.slots@, k, 0);
                            }
                        }
                    }
                }
                Ok(id)
            },
            Err(e) => {
                self.restore(path, tree);
                proof {
                    if prefix@.len() == 0 {
                        assert(prefix@ =~= Seq::<u8>::empty());
                    }
                }
                Err(e)
            },
        }
    }

    /// The entry at `rela_path`, a path given by its components, or `None` if there is none or the
    /// editor does not hold the trees on the way (as after writing, which keeps only the root).
    pub fn get(&self, rela_path: &[&[u8]]) -> (r: Option<&Entry>)
        ensures
            match r {
                Some(e) => lookup(self.trees(), seq![], components(rela_path@)) == Some(e@),
                None => lookup(self.trees(), seq![], components(rela_path@)) is None,
            },
    {
        let root: [u8; 0] = [];
        assert(root@ =~= Seq::<u8>::empty());
        self.get_at(&root, rela_path)
    }

    /// What [`Editor::upsert`] promises of `after`, the editor after the call on `before` that
    /// gave `r`.
    pub open spec fn upserted(before: Self, after: Self, rela_path: Seq<&[u8]>, kind: EntryKind, id: Seq<u8>, r: Result<(), Error>) -> bool {
        &&& after.wf()
        &&& after.hash_kind() == before.hash_kind()
        &&& after.objects() == before.objects()
        &&& match r {
            Ok(()) => {
                &&& upsert_walk(before.trees(), before.objects(), seq![], components(rela_path), kind, id, false).0
                    == after.trees()
                &&& upsert_walk(before.trees(), before.objects(), seq![], components(rela_path), kind, id, false).2 == WalkEnd::Done
            },
            Err(Error::EmptyPathComponent) => {
                &&& upsert_walk(before.trees(), before.objects(), seq![], components(rela_path), kind, id, false).2
                    == WalkEnd::EmptyComponent
                &&& upsert_walk(before.trees(), before.objects(), seq![], components(rela_path), kind, id, false).0
                    == after.trees()
            },
            Err(Error::FindExistingObject(_)) => upsert_loads(
                before.trees(),
                before.objects(),
                seq![],
                components(rela_path),
                kind,
                id,
                false,
            ),
            Err(Error::CannotRemoveNonLeaf { .. }) => false,
        }
        &&& r is Ok && rela_path.len() > 0 && at_most_one_named(
            after.trees()[prefix_path(seq![], components(rela_path), rela_path.len() - 1)],
            components(rela_path).last(),
        ) ==> lookup(after.trees(), seq![], components(rela_path)) == Some(
            entry_of(kind, components(rela_path).last(), id),
        )
    }

    /// Like [`Editor::upsert`], returning nothing.
    pub(crate) fn upsert_in_place(&mut self, rela_path: &[&[u8]], kind: EntryKind, id: ObjectId) -> (r: Result<(), Error>)
        requires
            old(self).wf(),
        ensures
            Self::upserted(*old(self), *final(self), rela_path@, kind, id@, r),
    {
        let root: [u8; 0] = [];
        assert(root@ =~= Seq::<u8>::empty());
        let r = self.upsert_at(&root, rela_path, kind, &id, false);
        match r {
            Ok(p) => {
                proof {
                    let comps = components(rela_path@);
                    if rela_path@.len() > 0 && at_most_one_named(self.trees()[prefix_path(seq![], comps, rela_path@.len() - 1)], comps.last()) {
                        lemma_get_after_upsert(old(self).trees(), old(self).objects(), root@, comps, kind, id@);
                    }
                }
                Ok(())
            },
            Err(e) => Err(e),
        }
    }

    /// Place an entry of `kind` with `id` at `rela_path`, replacing what is there, loading the
    /// trees on the way that exist and creating those that do not; non-trees on the way become
    /// trees with the null id, as does every created tree. Empty path components are an error.
    /// The editor is returned for more calls.
    pub fn upsert(&mut self, rela_path: &[&[u8]], kind: EntryKind, id: ObjectId) -> (r: Result<&mut Self, Error>)
        requires
            old(self).wf(),
        ensures
            match r {
                Ok(e) => *final(self) == *final(e) && Self::upserted(*old(self), *e, rela_path@, kind, id@, Ok(())),
                Err(err) => Self::upserted(*old(self), *final(self), rela_path@, kind, id@, Err(err)),
            },
    {
        match self.upsert_in_place(rela_path, kind, id) {
            Ok(()) => Ok(self),
            Err(err) => Err(err),
        }
    }

    /// What [`Editor::remove`] promises of `after`, the editor after the call on `before` that
    /// gave `r`.
    pub open spec fn removed(before: Self, after: Self, rela_path: Seq<&[u8]>, r: Result<(), Error>) -> bool {
        &&& after.wf()
        &&& after.hash_kind() == before.hash_kind()
        &&& after.objects() == before.objects()
        &&& match r {
            Ok(()) => remove_walk(before.trees(), before.objects(), seq![], components(rela_path), false)
                == (after.trees(), WalkEnd::Done),
            Err(Error::EmptyPathComponent) => remove_walk(before.trees(), before.objects(), seq![], components(rela_path), false)
                == (after.trees(), WalkEnd::EmptyComponent),
            Err(Error::FindExistingObject(_)) => remove_loads(before.trees(), before.objects(), seq![], components(rela_path), false),
            Err(Error::CannotRemoveNonLeaf { .. }) => false,
        }
        &&& r is Ok && holds_unique_names(before.trees(), before.objects())
            ==> lookup(after.trees(), seq![], components(rela_path)) is None
    }

    /// Like [`Editor::remove`], returning nothing.
    pub(crate) fn remove_in_place(&mut self, rela_path: &[&[u8]]) -> (r: Result<(), Error>)
        requires
            old(self).wf(),
        ensures
            Self::removed(*old(self), *final(self), rela_path@, r),
    {
        let root: [u8; 0] = [];
        assert(root@ =~= Seq::<u8>::empty());
        let r = self.remove_at(&root, rela_path, false);
        match r {
            Err(Error::CannotRemoveNonLeaf { rela_path: p }) => {
                proof {
                    lemma_remove_walk_never_refuses(old(self).trees(), old(self).objects(), root@, components(rela_path@));
                }
                Err(Error::CannotRemoveNonLeaf { rela_path: p })
            },
            Ok(()) => {
                proof {
                    if holds_unique_names(old(self).trees(), old(self).objects()) {
                        lemma_get_after_remove(old(self).trees(), old(self).objects(), root@, components(rela_path@), false);
                    }
                }
                Ok(())
            },
            other => other,
        }
    }

    /// Remove the entry at `rela_path`, trees included, loading the trees on the way. That no
    /// entry is there, or that the path leads nowhere, is no error. The editor is returned for
    /// more calls.
    pub fn remove(&mut self, rela_path: &[&[u8]]) -> (r: Result<&mut Self, Error>)
        requires
            old(self).wf(),
        ensures
            match r {
                Ok(e) => *final(self) == *final(e) && Self::removed(*old(self), *e, rela_path@, Ok(())),
                Err(err) => Self::removed(*old(self), *final(self), rela_path@, Err(err)),
            },
    {
        match self.remove_in_place(rela_path) {
            Ok(()) => Ok(self),
            Err(err) => Err(err),
        }
    }

    /// What [`Editor::remove_leaf`] promises of `after`, the editor after the call on `before`
    /// that gave `r`.
    pub open spec fn leaf_removed(before: Self, after: Self, rela_path: Seq<&[u8]>, r: Result<(), Error>) -> bool {
        &&& after.wf()
        &&& after.hash_kind() == before.hash_kind()
        &&& after.objects() == before.objects()
        &&& match r {
            Ok(()) => remove_walk(before.trees(), before.objects(), seq![], components(rela_path), true)
                == (after.trees(), WalkEnd::Done),
            Err(Error::EmptyPathComponent) => remove_walk(before.trees(), before.objects(), seq![], components(rela_path), true)
                == (after.trees(), WalkEnd::EmptyComponent),
            Err(Error::CannotRemoveNonLeaf { rela_path: p }) => remove_walk(before.trees(), before.objects(), seq![], components(rela_path), true)
                == (after.trees(), WalkEnd::NonLeaf(p@)),
            Err(Error::FindExistingObject(_)) => remove_loads(before.trees(), before.objects(), seq![], components(rela_path), true),
        }
        &&& r is Ok && holds_unique_names(before.trees(), before.objects())
            ==> lookup(after.trees(), seq![], components(rela_path)) is None
    }

    /// Like [`Editor::remove_leaf`], returning nothing.
    pub(crate) fn remove_leaf_in_place(&mut self, rela_path: &[&[u8]]) -> (r: Result<(), Error>)
        requires
            old(self).wf(),
        ensures
            Self::leaf_removed(*old(self), *final(self), rela_path@, r),
    {
        let root: [u8; 0] = [];
        assert(root@ =~= Seq::<u8>::empty());
        let r = self.remove_at(&root, rela_path, true);
        proof {
            if r is Ok && holds_unique_names(old(self).trees(), old(self).objects()) {
                lemma_get_after_remove(old(self).trees(), old(self).objects(), root@, components(rela_path@), true);
            }
        }
        r
    }

    /// Remove the entry at `rela_path` if it is no tree, loading the trees on the way; a tree
    /// there is an error. That no entry is there, or that the path leads nowhere, is no error.
    /// The editor is returned for more calls.
    pub fn remove_leaf(&mut self, rela_path: &[&[u8]]) -> (r: Result<&mut Self, Error>)
        requires
            old(self).wf(),
        ensures
            match r {
                Ok(e) => *final(self) == *final(e) && Self::leaf_removed(*old(self), *e, rela_path@, Ok(())),
                Err(err) => Self::leaf_removed(*old(self), *final(self), rela_path@, Err(err)),
            },
    {
        match self.remove_leaf_in_place(rela_path) {
            Ok(()) => Ok(self),
            Err(err) => Err(err),
        }
    }

    /// Write every changed tree through `out`, children before parents and the root last, and
    /// return the id that `out` gave the root. Trees that came out empty are not written, and
    /// their entries are dropped from their parents; entries with the null id are dropped too.
    /// Afterwards the editor holds only the root tree, as written.
    pub fn write<W: WriteTree>(&mut self, out: &W) -> (r: Result<ObjectId, W::Error>)
        requires
            old(self).wf(),
        ensures
            final(self).wf(),
            final(self).hash_kind() == old(self).hash_kind(),
            final(self).objects() == old(self).objects(),
            r is Ok ==> final(self).trees().dom() == set![Seq::<u8>::empty()],
            r is Ok ==> no_null_ids(final(self).trees()[seq![]]),
            r matches Ok(id) ==> written_as(out.id_of(final(self).trees()[seq![]]), id@),
            r is Ok && plain_trees(old(self).trees()) ==> match written_tree(old(self).trees(), out, seq![]) {
                Some(w) => final(self).trees()[seq![]] == w,
                None => true,
            },
    {
        let root: [u8; 0] = [];
        assert(root@ =~= Seq::<u8>::empty());
        self.write_at(&root, out, false)
    }

    /// A cursor at the root tree, editing this editor.
    pub fn to_cursor(&mut self) -> (r: Cursor<'_, 'a, F>)
        requires
            old(self).wf(),
        ensures
            r.wf(),
            r.prefix() == Seq::<u8>::empty(),
            r.editor_trees() == old(self).trees(),
            r.objects() == old(self).objects(),
            *final(self) == *final(r.parent),
    {
        let prefix: Vec<u8> = Vec::new();
        assert(prefix@ =~= Seq::<u8>::empty());
        Cursor { parent: self, prefix }
    }

    /// A cursor at the tree at `rela_path`, which is made a tree as an edit of its own if it is
    /// none, so that the cursor edits below it as its root. A path of one empty component is the
    /// root itself: the cursor is then the one [`Editor::to_cursor`] gives.
    pub fn cursor_at(&mut self, rela_path: &[&[u8]]) -> (r: Result<Cursor<'_, 'a, F>, Error>)
        requires
            old(self).wf(),
        ensures
            is_root_path(components(rela_path@)) ==> (r matches Ok(c) && c.wf() && c.prefix() == Seq::<
                u8,
            >::empty() && c.editor_trees() == old(self).trees() && c.objects() == old(self).objects()
                && *final(self) == *final(c.parent)),
            !is_root_path(components(rela_path@)) ==> match r {
                Ok(c) => {
                    &&& c.wf()
                    &&& *final(self) == *final(c.parent)
                    &&& c.objects() == old(self).objects()
                    &&& upsert_walk(
                        old(self).trees(),
                        old(self).objects(),
                        seq![],
                        components(rela_path@),
                        EntryKind::Tree,
                        null_of(old(self).hash_kind()),
                        true,
                    ) == (c.editor_trees(), c.prefix(), WalkEnd::Done)
                },
                Err(Error::EmptyPathComponent) => {
                    &&& upsert_walk(
                            old(self).trees(),
                            old(self).objects(),
                            seq![],
                            components(rela_path@),
                            EntryKind::Tree,
                            null_of(old(self).hash_kind()),
                            true,
                        ).2 == WalkEnd::EmptyComponent
                    &&& upsert_walk(
                            old(self).trees(),
                            old(self).objects(),
                            seq![],
                            components(rela_path@),
                            EntryKind::Tree,
                            null_of(old(self).hash_kind()),
                            true,
                        ).0 == final(self).trees()
                },
                Err(Error::FindExistingObject(_)) => upsert_loads(
                    old(self).trees(),
                    old(self).objects(),
                    seq![],
                    components(rela_path@),
                    EntryKind::Tree,
                    null_of(old(self).hash_kind()),
                    true,
                ),
                Err(Error::CannotRemoveNonLeaf { .. }) => false,
            },
    {
        if rela_path.len() == 1 && rela_path[0].len() == 0 {
            return Ok(self.to_cursor());
        }
        let root: [u8; 0] = [];
        assert(root@ =~= Seq::<u8>::empty());
        let null = null_id(self.object_hash);
        let ghost old_trees = self.trees();
        match self.upsert_at(&root, rela_path, EntryKind::Tree, &null, true) {
            Ok(prefix) => {
                proof {
                    lemma_upsert_walk_holds_end(old_trees, self.objects(), root@, components(rela_path@), EntryKind::Tree, null@);
                }
                Ok(Cursor { parent: self, prefix })
            },
            Err(e) => Err(e),
        }
    }

    /// Create an editor that uses `root` as the base of all edits, looks up existing trees with
    /// `find` when edits reach them, and creates ids of `object_hash`.
    pub fn new(root: Tree, find: &'a F, object_hash: HashKind) -> (r: Self)
        ensures
            r.wf(),
            r.trees() == Map::<Seq<u8>, Seq<EntryView>>::empty().insert(seq![], entries_view(root.entries@)),
            r.hash_kind() == object_hash,
            r.objects() == find,
    {
        let mut slots: Vec<Slot> = Vec::new();
        let ghost view = entries_view(root.entries@);
        slots.push(Slot { path: Vec::new(), tree: root });
        let r = Editor { find, object_hash, slots };
        proof {
            assert(slot_from(r.slots@, seq![], 0) == Some(0int));
            assert(r.trees() =~= Map::<Seq<u8>, Seq<EntryView>>::empty().insert(seq![], view)) by {
                assert forall|k: Seq<u8>| #[trigger] r.trees().contains_key(k) implies k == Seq::<u8>::empty() by {
                    lemma_slot_from(r.slots@, k, 0);
                }
            }
        }
        r
    }

    /// Make `root` the tree that edits start from, dropping all edits, and return this editor for
    /// more calls.
    pub fn set_root(&mut self, root: Tree) -> (r: &mut Self)
        ensures
            r.wf(),
            r.trees() == Map::<Seq<u8>, Seq<EntryView>>::empty().insert(seq![], entries_view(root.entries@)),
            r.hash_kind() == old(self).hash_kind(),
            r.objects() == old(self).objects(),
            *final(self) == *final(r),
    {
        let mut slots: Vec<Slot> = Vec::new();
        let ghost view = entries_view(root.entries@);
        slots.push(Slot { path: Vec::new(), tree: root });
        self.slots = slots;
        proof {
            assert(slot_from(self.slots@, seq![], 0) == Some(0int));
            assert(self.trees() =~= Map::<Seq<u8>, Seq<EntryView>>::empty().insert(seq![], view)) by {
                assert forall|k: Seq<u8>| #[trigger] self.trees().contains_key(k) implies k == Seq::<u8>::empty() by {
                    lemma_slot_from(self.slots@, k, 0);
                }
            }
        }
        self
    }
}

/// Edits below one tree of an [`Editor`], as if it was the root.
pub struct Cursor<'e, 'a, F: FindTree> {
    /// The editor that the cursor edits, which sees its edits once the cursor is done.
    pub parent: &'e mut Editor<'a, F>,
    /// The path of the cursor's tree.
    pub prefix: Vec<u8>,
}

impl<'e, 'a, F: FindTree> Cursor<'e, 'a, F> {
    /// The path of the tree the cursor edits below.
    pub closed spec fn prefix(&self) -> Seq<u8> {
        self.prefix@
    }

    /// The trees of the editor, by path.
    pub closed spec fn editor_trees(&self) -> Trees {
        self.parent.trees()
    }

    /// The object database of the editor.
    pub closed spec fn objects(&self) -> &'a F {
        self.parent.objects()
    }

    /// The editor holds its root and the cursor's tree.
    pub closed spec fn wf(&self) -> bool {
        self.parent.wf() && self.parent.trees().contains_key(self.prefix@)
    }

    /// The entry at `rela_path` below the cursor's tree, as [`Editor::get`] finds it.
    pub fn get(&self, rela_path: &[&[u8]]) -> (r: Option<&Entry>)
        ensures
            match r {
                Some(e) => lookup(self.editor_trees(), self.prefix(), components(rela_path@)) == Some(e@),
                None => lookup(self.editor_trees(), self.prefix(), components(rela_path@)) is None,
            },
    {
        self.parent.get_at(self.prefix.as_slice(), rela_path)
    }

    /// What [`Cursor::upsert`] promises of `after`, the cursor after the call on `before` that
    /// gave `r`.
    pub open spec fn upserted(before: Self, after: Self, rela_path: Seq<&[u8]>, kind: EntryKind, id: Seq<u8>, r: Result<(), Error>) -> bool {
        &&& after.wf()
        &&& after.prefix() == before.prefix()
        &&& after.objects() == before.objects()
        &&& match r {
            Ok(()) => {
                &&& upsert_walk(
                    before.editor_trees(),
                    before.objects(),
                    before.prefix(),
                    components(rela_path),
                    kind,
                    id,
                    false,
                ).0 == after.editor_trees()
                &&& upsert_walk(
                    before.editor_trees(),
                    before.objects(),
                    before.prefix(),
                    components(rela_path),
                    kind,
                    id,
                    false,
                ).2 == WalkEnd::Done
            },
            Err(Error::EmptyPathComponent) => {
                &&& upsert_walk(
                    before.editor_trees(),
                    before.objects(),
                    before.prefix(),
                    components(rela_path),
                    kind,
                    id,
                    false,
                ).2 == WalkEnd::EmptyComponent
                &&& upsert_walk(
                    before.editor_trees(),
                    before.objects(),
                    before.prefix(),
                    components(rela_path),
                    kind,
                    id,
                    false,
                ).0 == after.editor_trees()
            },
            Err(Error::FindExistingObject(_)) => upsert_loads(
                before.editor_trees(),
                before.objects(),
                before.prefix(),
                components(rela_path),
                kind,
                id,
                false,
            ),
            Err(Error::CannotRemoveNonLeaf { .. }) => false,
        }
    }

    /// Like [`Cursor::upsert`], returning nothing.
    pub(crate) fn upsert_in_place(&mut self, rela_path: &[&[u8]], kind: EntryKind, id: ObjectId) -> (r: Result<(), Error>)
        requires
            old(self).wf(),
        ensures
            Self::upserted(*old(self), *final(self), rela_path@, kind, id@, r),
    {
        let ghost prefix = self.prefix@;
        let prefix_slice = self.prefix.as_slice();
        assert(prefix_slice@ == prefix);
        let r = self.parent.upsert_at(prefix_slice, rela_path, kind, &id, false);
        assert(self.prefix@ == prefix);
        match r {
            Ok(_) => Ok(()),
            Err(e) => Err(e),
        }
    }

    /// Like [`Editor::upsert`], below the cursor's tree. The cursor is returned for more calls.
    pub fn upsert(&mut self, rela_path: &[&[u8]], kind: EntryKind, id: ObjectId) -> (r: Result<&mut Self, Error>)
        requires
            old(self).wf(),
        ensures
            match r {
                Ok(e) => *final(self) == *final(e) && Self::upserted(*old(self), *e, rela_path@, kind, id@, Ok(())),
                Err(err) => Self::upserted(*old(self), *final(self), rela_path@, kind, id@, Err(err)),
            },
    {
        match self.upsert_in_place(rela_path, kind, id) {
            Ok(()) => Ok(self),
            Err(err) => Err(err),
        }
    }

    /// What [`Cursor::remove`] promises of `after`, the cursor after the call on `before` that
    /// gave `r`.
    pub open spec fn removed(before: Self, after: Self, rela_path: Seq<&[u8]>, r: Result<(), Error>) -> bool {
        &&& after.wf()
        &&& after.prefix() == before.prefix()
        &&& after.objects() == before.objects()
        &&& match r {
            Ok(()) => remove_walk(before.editor_trees(), before.objects(), before.prefix(), components(rela_path), false)
                == (after.editor_trees(), WalkEnd::Done),
            Err(Error::EmptyPathComponent) =>
                remove_walk(before.editor_trees(), before.objects(), before.prefix(), components(rela_path), false)
                    == (after.editor_trees(), WalkEnd::EmptyComponent),
            Err(Error::FindExistingObject(_)) => remove_loads(before.editor_trees(), before.objects(), before.prefix(), components(rela_path), false),
            Err(Error::CannotRemoveNonLeaf { .. }) => false,
        }
    }

    /// Like [`Cursor::remove`], returning nothing.
    pub(crate) fn remove_in_place(&mut self, rela_path: &[&[u8]]) -> (r: Result<(), Error>)
        requires
            old(self).wf(),
        ensures
            Self::removed(*old(self), *final(self), rela_path@, r),
    {
        let r = self.remove_below(rela_path, false);
        match r {
            Err(Error::CannotRemoveNonLeaf { rela_path: p }) => {
                proof {
                    lemma_remove_walk_never_refuses(old(self).editor_trees(), old(self).objects(), old(self).prefix(), components(rela_path@));
                }
                Err(Error::CannotRemoveNonLeaf { rela_path: p })
            },
            other => other,
        }
    }

    /// Like [`Editor::remove`], below the cursor's tree. The cursor is returned for more calls.
    pub fn remove(&mut self, rela_path: &[&[u8]]) -> (r: Result<&mut Self, Error>)
        requires
            old(self).wf(),
        ensures
            match r {
                Ok(e) => *final(self) == *final(e) && Self::removed(*old(self), *e, rela_path@, Ok(())),
                Err(err) => Self::removed(*old(self), *final(self), rela_path@, Err(err)),
            },
    {
        match self.remove_in_place(rela_path) {
            Ok(()) => Ok(self),
            Err(err) => Err(err),
        }
    }

    /// What [`Cursor::remove_leaf`] promises of `after`, the cursor after the call on `before` that
    /// gave `r`.
    pub open spec fn leaf_removed(before: Self, after: Self, rela_path: Seq<&[u8]>, r: Result<(), Error>) -> bool {
        &&& after.wf()
        &&& after.prefix() == before.prefix()
        &&& after.objects() == before.objects()
        &&& match r {
            Ok(()) => remove_walk(before.editor_trees(), before.objects(), before.prefix(), components(rela_path), true)
                == (after.editor_trees(), WalkEnd::Done),
            Err(Error::EmptyPathComponent) =>
                remove_walk(before.editor_trees(), before.objects(), before.prefix(), components(rela_path), true)
                    == (after.editor_trees(), WalkEnd::EmptyComponent),
            Err(Error::CannotRemoveNonLeaf { rela_path: p }) =>
                remove_walk(before.editor_trees(), before.objects(), before.prefix(), components(rela_path), true)
                    == (after.editor_trees(), WalkEnd::NonLeaf(p@)),
            Err(Error::FindExistingObject(_)) => remove_loads(before.editor_trees(), before.objects(), before.prefix(), components(rela_path), true),
        }
    }

    /// Like [`Cursor::remove_leaf`], returning nothing.
    pub(crate) fn remove_leaf_in_place(&mut self, rela_path: &[&[u8]]) -> (r: Result<(), Error>)
        requires
            old(self).wf(),
        ensures
            Self::leaf_removed(*old(self), *final(self), rela_path@, r),
    {
        self.remove_below(rela_path, true)
    }

    /// Like [`Editor::remove_leaf`], below the cursor's tree. The cursor is returned for more calls.
    pub fn remove_leaf(&mut self, rela_path: &[&[u8]]) -> (r: Result<&mut Self, Error>)
        requires
            old(self).wf(),
        ensures
            match r {
                Ok(e) => *final(self) == *final(e) && Self::leaf_removed(*old(self), *e, rela_path@, Ok(())),
                Err(err) => Self::leaf_removed(*old(self), *final(self), rela_path@, Err(err)),
            },
    {
        match self.remove_leaf_in_place(rela_path) {
            Ok(()) => Ok(self),
            Err(err) => Err(err),
        }
    }

    fn remove_below(&mut self, rela_path: &[&[u8]], leaf_only: bool) -> (r: Result<(), Error>)
        requires
            old(self).wf(),
        ensures
            final(self).wf(),
            final(self).prefix() == old(self).prefix(),
            final(self).objects() == old(self).objects(),
            match r {
                Ok(()) => remove_walk(old(self).editor_trees(), old(self).objects(), old(self).prefix(), components(rela_path@), leaf_only)
                    == (final(self).editor_trees(), WalkEnd::Done),
                Err(Error::EmptyPathComponent) =>
                    remove_walk(old(self).editor_trees(), old(self).objects(), old(self).prefix(), components(rela_path@), leaf_only)
                        == (final(self).editor_trees(), WalkEnd::EmptyComponent),
                Err(Error::CannotRemoveNonLeaf { rela_path: p }) =>
                    remove_walk(old(self).editor_trees(), old(self).objects(), old(self).prefix(), components(rela_path@), leaf_only)
                        == (final(self).editor_trees(), WalkEnd::NonLeaf(p@)),
                Err(Error::FindExistingObject(_)) => remove_loads(old(self).editor_trees(), old(self).objects(), old(self).prefix(), components(rela_path@), leaf_only),
            },
    {
        let ghost prefix = self.prefix@;
        let prefix_slice = self.prefix.as_slice();
        assert(prefix_slice@ == prefix);
        let r = self.parent.remove_at(prefix_slice, rela_path, leaf_only);
        assert(self.prefix@ == prefix);
        r
    }

    /// Like [`Editor::write`], writing only the trees below the cursor's tree, which it keeps
    /// afterwards, as the editor keeps its other trees.
    pub fn write<W: WriteTree>(&mut self, out: &W) -> (r: Result<ObjectId, W::Error>)
        requires
            old(self).wf(),
        ensures
            final(self).wf(),
            final(self).prefix() == old(self).prefix(),
            final(self).objects() == old(self).objects(),
            r is Ok ==> no_null_ids(final(self).editor_trees()[final(self).prefix()]),
            r matches Ok(id) ==> written_as(out.id_of(final(self).editor_trees()[final(self).prefix()]), id@),
            r is Ok && plain_trees(old(self).editor_trees()) ==> match written_tree(old(self).editor_trees(), out, old(self).prefix()) {
                Some(w) => final(self).editor_trees()[final(self).prefix()] == w,
                None => true,
            },
            keeps_outside(old(self).editor_trees(), final(self).editor_trees(), old(self).prefix()),
    {
        let ghost prefix = self.prefix@;
        let prefix_slice = self.prefix.as_slice();
        assert(prefix_slice@ == prefix);
        let r = self.parent.write_at(prefix_slice, out, true);
        assert(self.prefix@ == prefix);
        r
    }
}

} // verus!
