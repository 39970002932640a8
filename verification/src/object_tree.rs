//! Trees as stored in git: entries with a mode, a file name and an object id.
use vstd::prelude::*;

pub mod editor;

use crate::bytes::slice_eq;
use crate::hash::ObjectId;
use crate::merge::tree::{kind_of, EntryKind, EntryMode};

verus! {

/// An entry of a tree.
#[derive(Debug, Clone, PartialEq, Eq)]
pub struct Entry {
    /// The mode of the entry, telling trees, blobs, links and submodules apart.
    pub mode: EntryMode,
    /// The name of the entry within its tree.
    pub filename: Vec<u8>,
    /// The id of the object the entry refers to.
    pub oid: ObjectId,
}

/// What an entry is: its mode, file name and object id.
pub struct EntryView {
    pub mode: EntryMode,
    pub filename: Seq<u8>,
    pub oid: Seq<u8>,
}

impl View for Entry {
    type V = EntryView;

    open spec fn view(&self) -> EntryView {
        EntryView { mode: self.mode, filename: self.filename@, oid: self.oid@ }
    }
}

/// The entries of a tree, as values.
pub open spec fn entries_view(entries: Seq<Entry>) -> Seq<EntryView> {
    entries.map_values(|e: Entry| e@)
}

/// A tree: its entries, sorted as git sorts them.
#[derive(Debug, Clone, PartialEq, Eq)]
pub struct Tree {
    pub entries: Vec<Entry>,
}

/// `true` if entries of `mode` are trees.
pub open spec fn is_tree_mode(mode: EntryMode) -> bool {
    kind_of(mode.value) == EntryKind::Tree
}

/// `true` if entries of `mode` are blobs, executable or not.
pub open spec fn is_blob_mode(mode: EntryMode) -> bool {
    kind_of(mode.value) == EntryKind::Blob || kind_of(mode.value) == EntryKind::BlobExecutable
}

/// The index of the first entry of `entries` named `name` that is a tree exactly where `is_dir` is
/// `true`, searching from `i` on.
pub open spec fn find_entry_from(entries: Seq<Entry>, name: Seq<u8>, is_dir: bool, i: int) -> Option<int>
    decreases entries.len() - i,
{
    if i < 0 || i >= entries.len() {
        None
    } else if entries[i].filename@ == name && is_tree_mode(entries[i].mode) == is_dir {
        Some(i)
    } else {
        find_entry_from(entries, name, is_dir, i + 1)
    }
}

/// A found entry is where it is said to be.
pub proof fn lemma_find_entry_from(entries: Seq<Entry>, name: Seq<u8>, is_dir: bool, i: int)
    requires
        0 <= i,
    ensures
        find_entry_from(entries, name, is_dir, i) matches Some(k) ==> i <= k < entries.len()
            && entries[k].filename@ == name && is_tree_mode(entries[k].mode) == is_dir,
    decreases entries.len() - i,
{
    if i < entries.len() && !(entries[i].filename@ == name && is_tree_mode(entries[i].mode) == is_dir) {
        lemma_find_entry_from(entries, name, is_dir, i + 1);
    }
}

impl EntryMode {
    /// `true` if entries of this mode are trees.
    pub fn is_tree(&self) -> (r: bool)
        ensures
            r == is_tree_mode(*self),
    {
        matches!(self.kind(), EntryKind::Tree)
    }

    /// `true` if entries of this mode are blobs, executable or not.
    pub fn is_blob(&self) -> (r: bool)
        ensures
            r == is_blob_mode(*self),
    {
        let k = self.kind();
        matches!(k, EntryKind::Blob) || matches!(k, EntryKind::BlobExecutable)
    }
}

impl Tree {
    /// The entry named `name` that is a tree exactly where `is_dir` is `true`: the one a binary
    /// search finds in a tree sorted as git sorts trees, where trees sort as if their name ended
    /// in a slash.
    pub fn bisect_entry(&self, name: &[u8], is_dir: bool) -> (r: Option<&Entry>)
        ensures
            match find_entry_from(self.entries@, name@, is_dir, 0) {
                Some(k) => r == Some(&self.entries@[k]),
                None => r is None,
            },
    {
        let mut i: usize = 0;
        while i < self.entries.len()
            invariant
                i <= self.entries@.len(),
                find_entry_from(self.entries@, name@, is_dir, 0) == find_entry_from(self.entries@, name@, is_dir, i as int),
            decreases self.entries.len() - i,
        {
            let e = &self.entries[i];
            if slice_eq(e.filename.as_slice(), name) && e.mode.is_tree() == is_dir {
                return Some(e);
            }
            i += 1;
        }
        None
    }
}

} // verus!
