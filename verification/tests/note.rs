use std::cell::RefCell;

use gix_plumbing::find::{ExistingObjectError, FindTree};
use gix_plumbing::hash::ObjectId;
use gix_plumbing::merge::tree::{EntryKind, EntryMode};
use gix_plumbing::note::{fanout, fanout_masks, get, get_step, note_path, remove, replace, to_hex, Error, Lookup};
use gix_plumbing::object_tree::editor::WriteTree;
use gix_plumbing::object_tree::{Entry, Tree};

/// An in-memory object database: trees by id, ids handed out in order.
#[derive(Default)]
struct ObjectDb {
    trees: RefCell<Vec<(ObjectId, Tree)>>,
}

impl ObjectDb {
    fn write(&self, tree: Tree) -> ObjectId {
        let mut trees = self.trees.borrow_mut();
        let mut bytes = vec![0xee; 20];
        bytes[19] = trees.len() as u8;
        let id = ObjectId { bytes };
        trees.push((id.copied(), tree));
        id
    }
}

impl FindTree for ObjectDb {
    fn find_tree(&self, id: &ObjectId) -> Result<Tree, ExistingObjectError> {
        self.trees
            .borrow()
            .iter()
            .find(|(k, _)| k == id)
            .map(|(_, t)| t.clone())
            .ok_or(ExistingObjectError::NotFound { oid: id.copied() })
    }
}

fn blob_id(content: &[u8]) -> ObjectId {
    let mut hasher = gix_hash::hasher(gix_hash::Kind::Sha1);
    hasher.update(format!("blob {}\0", content.len()).as_bytes());
    hasher.update(content);
    ObjectId { bytes: hasher.try_finalize().unwrap().as_slice().to_vec() }
}

fn entry(kind: EntryKind, name: &[u8], oid: ObjectId) -> Entry {
    Entry { mode: EntryMode::from_kind(kind), filename: name.to_vec(), oid }
}

fn notes_tree(objects: &ObjectDb, annotated: &ObjectId, note: ObjectId, fanout: usize) -> ObjectId {
    let hex = to_hex(annotated);
    let mut tree = objects.write(Tree { entries: vec![entry(EntryKind::Blob, &hex[fanout * 2..], note)] });
    for level in (0..fanout).rev() {
        tree = objects.write(Tree { entries: vec![entry(EntryKind::Tree, &hex[level * 2..][..2], tree)] });
    }
    tree
}

fn assert_note_at_fanout(fanout: usize, layout: &str) {
    let objects = ObjectDb::default();
    let annotated = blob_id(b"annotated");
    let note = blob_id(b"note");
    let root = notes_tree(&objects, &annotated, note.copied(), fanout);

    assert_eq!(
        get(root, &annotated, &objects).unwrap(),
        Some(note),
        "the note is found in the {layout} layout"
    );
}

#[test]
fn reads_notes_without_fanout() {
    assert_note_at_fanout(0, "40")
}

#[test]
fn reads_notes_with_one_fanout_level() {
    assert_note_at_fanout(1, "2/38")
}

#[test]
fn reads_notes_with_two_fanout_levels() {
    assert_note_at_fanout(2, "2/2/36")
}

#[test]
fn reads_notes_with_three_fanout_levels() {
    assert_note_at_fanout(3, "2/2/2/34")
}

#[test]
fn ignores_entries_that_are_not_notes() {
    let objects = ObjectDb::default();
    let annotated = blob_id(b"annotated");
    let hex = to_hex(&annotated);
    let empty_tree = ObjectId { bytes: to_bytes("4b825dc642cb6eb9a060e54bf8d69288fbee4904") };
    let root = objects.write(Tree { entries: vec![entry(EntryKind::Tree, &hex, empty_tree)] });

    assert_eq!(
        get(root, &annotated, &objects).unwrap(),
        None,
        "the canonical empty-tree ID in a tree-mode entry at the full object-ID path is not a blob note"
    );
}

fn to_bytes(hex: &str) -> Vec<u8> {
    (0..hex.len()).step_by(2).map(|i| u8::from_str_radix(&hex[i..i + 2], 16).unwrap()).collect()
}

#[test]
fn hex_is_lowercase() {
    let id = ObjectId { bytes: vec![0x00, 0x0f, 0xa0, 0xff] };
    assert_eq!(to_hex(&id), b"000fa0ff");
}

#[test]
fn the_blob_id_is_that_of_git() {
    assert_eq!(to_hex(&blob_id(b"")), b"e69de29bb2d1d6434b8b29ae775ad8c2e48c5391");
}

#[test]
fn missing_trees_are_errors() {
    let objects = ObjectDb::default();
    let root = ObjectId { bytes: vec![1; 20] };
    assert!(matches!(get(root, &blob_id(b"x"), &objects), Err(ExistingObjectError::NotFound { .. })));
}

#[test]
fn lookup_steps_descend_by_two_digits() {
    let subtree = ObjectId { bytes: vec![2; 20] };
    let tree = Tree { entries: vec![entry(EntryKind::Tree, b"ab", subtree.copied())] };
    assert_eq!(get_step(&tree, b"abcd"), Lookup::Descend(subtree));
    assert_eq!(get_step(&tree, b"ab"), Lookup::Missing, "two digits name a note, not a tree");
    let notes = Tree { entries: vec![entry(EntryKind::Blob, b"cd", ObjectId { bytes: vec![3; 20] })] };
    assert_eq!(get_step(&notes, b"cd"), Lookup::Found(ObjectId { bytes: vec![3; 20] }));
}

#[test]
fn crowded_prefixes_fan_out() {
    let mut hexes: Vec<Vec<u8>> = Vec::new();
    for digit in b"0123456789abcdef" {
        let mut hex = vec![*digit];
        hex.extend_from_slice(&[b'0'; 39]);
        hexes.push(hex);
    }
    let masks = fanout_masks(&hexes);
    let sample = &hexes[3];
    assert_eq!(fanout(sample, &masks), 1, "all sixteen first digits are taken");
    assert_eq!(note_path(sample, 1), [b"30/".as_slice(), &[b'0'; 38]].concat());
    assert_eq!(note_path(b"abcdef", 2), b"ab/cd/ef");
}

impl WriteTree for ObjectDb {
    type Error = ();
    fn write_tree(&self, tree: &Tree) -> Result<ObjectId, ()> {
        Ok(self.write(tree.clone()))
    }
}

#[test]
fn replaced_notes_are_found_and_removed_notes_are_gone() {
    let objects = ObjectDb::default();
    let root = objects.write(Tree { entries: vec![] });
    let annotated = blob_id(b"annotated");
    let first = blob_id(b"first note");
    let second = blob_id(b"second note");

    let edit = replace(root.copied(), annotated.copied(), first.copied(), &objects, &objects).unwrap();
    assert_eq!(edit.previous, None);
    assert_eq!(get(edit.tree.copied(), &annotated, &objects).unwrap(), Some(first.copied()));

    let edit = replace(edit.tree, annotated.copied(), second.copied(), &objects, &objects).unwrap();
    assert_eq!(edit.previous, Some(first));
    assert_eq!(get(edit.tree.copied(), &annotated, &objects).unwrap(), Some(second.copied()));

    let edit = remove(edit.tree, annotated.copied(), &objects, &objects).unwrap();
    assert_eq!(edit.previous, Some(second));
    assert_eq!(get(edit.tree.copied(), &annotated, &objects).unwrap(), None);

    let unchanged = remove(edit.tree.copied(), annotated.copied(), &objects, &objects).unwrap();
    assert_eq!(unchanged.previous, None);
    assert_eq!(unchanged.tree, edit.tree, "removing nothing keeps the root");
}

#[test]
fn entries_that_are_no_notes_are_kept() {
    let objects = ObjectDb::default();
    let readme = blob_id(b"readme");
    let root = objects.write(Tree { entries: vec![entry(EntryKind::Blob, b"README", readme.copied())] });
    let annotated = blob_id(b"annotated");
    let edit = replace(root, annotated.copied(), blob_id(b"note"), &objects, &objects).unwrap();
    let tree = objects.find_tree(&edit.tree).unwrap();
    assert!(tree.entries.iter().any(|e| e.filename == b"README" && e.oid == readme));
    assert_eq!(get(edit.tree, &annotated, &objects).unwrap(), Some(blob_id(b"note")));
}

#[test]
fn crowded_notes_trees_fan_out_when_rewritten() {
    let objects = ObjectDb::default();
    let mut root = objects.write(Tree { entries: vec![] });
    let mut annotated = Vec::new();
    for first_digit in 0..16u8 {
        let mut bytes = vec![first_digit << 4; 20];
        bytes[19] = 1;
        annotated.push(ObjectId { bytes });
    }
    for object in &annotated {
        root = replace(root, object.copied(), blob_id(b"note"), &objects, &objects).unwrap().tree;
    }
    let tree = objects.find_tree(&root).unwrap();
    assert_eq!(tree.entries.len(), 16);
    assert!(tree.entries.iter().all(|e| e.mode.is_tree() && e.filename.len() == 2), "one level of fanout");
    for object in &annotated {
        assert_eq!(get(root.copied(), object, &objects).unwrap(), Some(blob_id(b"note")));
    }
}

#[test]
fn mixed_hash_kinds_are_rejected() {
    let objects = ObjectDb::default();
    let root = objects.write(Tree { entries: vec![] });
    let sha256 = ObjectId { bytes: vec![1; 32] };
    assert!(matches!(replace(root.copied(), sha256.copied(), blob_id(b"n"), &objects, &objects), Err(Error::HashKindMismatch)));
    assert!(matches!(replace(root.copied(), blob_id(b"o"), sha256.copied(), &objects, &objects), Err(Error::HashKindMismatch)));
    assert!(matches!(remove(root, sha256, &objects, &objects), Err(Error::HashKindMismatch)));
}
