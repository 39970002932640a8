use std::cell::RefCell;

use gix_plumbing::find::{ExistingObjectError, FindTree, Never};
use gix_plumbing::hash::{HashKind, ObjectId};
use gix_plumbing::merge::tree::{EntryKind, EntryMode};
use gix_plumbing::object_tree::editor::{Editor, Error, WriteTree};
use gix_plumbing::object_tree::{Entry, Tree};

fn path(p: &str) -> Vec<&[u8]> {
    p.split('/').map(|c| c.as_bytes()).collect()
}

fn id(byte: u8) -> ObjectId {
    ObjectId { bytes: vec![byte; 20] }
}

fn entry(name: &str, kind: EntryKind, oid: ObjectId) -> Entry {
    Entry { mode: EntryMode::from_kind(kind), filename: name.as_bytes().to_vec(), oid }
}

fn names(tree: &Tree) -> Vec<String> {
    tree.entries.iter().map(|e| String::from_utf8(e.filename.clone()).unwrap()).collect()
}

/// Trees by id.
#[derive(Default)]
struct Odb {
    trees: Vec<(ObjectId, Tree)>,
}

impl FindTree for Odb {
    fn find_tree(&self, oid: &ObjectId) -> Result<Tree, ExistingObjectError> {
        self.trees
            .iter()
            .find(|(k, _)| k == oid)
            .map(|(_, t)| t.clone())
            .ok_or(ExistingObjectError::NotFound { oid: oid.copied() })
    }
}

#[derive(Default)]
struct Sink {
    written: RefCell<Vec<Tree>>,
}

impl WriteTree for Sink {
    type Error = ();
    fn write_tree(&self, tree: &Tree) -> Result<ObjectId, ()> {
        let mut written = self.written.borrow_mut();
        written.push(tree.clone());
        Ok(id(written.len() as u8))
    }
}

struct Failing;

impl WriteTree for Failing {
    type Error = &'static str;
    fn write_tree(&self, _tree: &Tree) -> Result<ObjectId, &'static str> {
        Err("full")
    }
}

#[test]
fn upsert_then_get_gives_the_entry_back() {
    let mut editor = Editor::new(Tree { entries: vec![] }, &Never, HashKind::Sha1);
    editor.upsert(&path("a/b/c"), EntryKind::Blob, id(7)).unwrap();
    let e = editor.get(&path("a/b/c")).expect("just placed");
    assert_eq!(e.oid, id(7));
    assert_eq!(e.mode, EntryMode::from_kind(EntryKind::Blob));
    let a = editor.get(&path("a")).expect("created on the way");
    assert!(a.mode.is_tree());
    assert_eq!(a.oid, ObjectId { bytes: vec![0; 20] }, "new trees have the null id");
    assert!(editor.get(&path("a/x")).is_none());
    assert!(editor.get(&[]).is_none());
}

#[test]
fn upsert_replaces_and_keeps_git_order() {
    let root = Tree {
        entries: vec![entry("a", EntryKind::Blob, id(1)), entry("c", EntryKind::Blob, id(3))],
    };
    let mut editor = Editor::new(root, &Never, HashKind::Sha1);
    editor.upsert(&path("b"), EntryKind::BlobExecutable, id(2)).unwrap();
    editor.upsert(&path("a"), EntryKind::Link, id(9)).unwrap();
    let sink = Sink::default();
    let root_id = editor.write(&sink).unwrap();
    let written = sink.written.into_inner();
    assert_eq!(root_id, id(1));
    assert_eq!(names(&written[0]), ["a", "b", "c"]);
    assert_eq!(written[0].entries[0].oid, id(9));
    assert_eq!(written[0].entries[0].mode, EntryMode::from_kind(EntryKind::Link));
}

#[test]
fn a_blob_on_the_way_becomes_a_tree_and_moves_to_its_place() {
    // "a" as blob sorts before "a-b", as tree ("a/") after it.
    let root = Tree {
        entries: vec![entry("a", EntryKind::Blob, id(1)), entry("a-b", EntryKind::Blob, id(2))],
    };
    let mut editor = Editor::new(root, &Never, HashKind::Sha1);
    editor.upsert(&path("a/x"), EntryKind::Blob, id(3)).unwrap();
    let sink = Sink::default();
    editor.write(&sink).unwrap();
    let written = sink.written.into_inner();
    assert_eq!(written.len(), 2, "the new tree, then the root");
    assert_eq!(names(&written[0]), ["x"]);
    assert_eq!(names(&written[1]), ["a-b", "a"]);
    assert!(written[1].entries[1].mode.is_tree());
    assert_eq!(written[1].entries[1].oid, id(1), "the parent points to the written child");
}

#[test]
fn existing_trees_are_loaded_once_and_edited() {
    let sub = Tree { entries: vec![entry("keep", EntryKind::Blob, id(4))] };
    let odb = Odb { trees: vec![(id(50), sub)] };
    let root = Tree { entries: vec![entry("dir", EntryKind::Tree, id(50))] };
    let mut editor = Editor::new(root, &odb, HashKind::Sha1);
    editor.upsert(&path("dir/new"), EntryKind::Blob, id(5)).unwrap();
    assert_eq!(editor.get(&path("dir/keep")).unwrap().oid, id(4));
    assert_eq!(editor.get(&path("dir/new")).unwrap().oid, id(5));
}

#[test]
fn missing_trees_in_the_database_are_an_error() {
    let root = Tree { entries: vec![entry("dir", EntryKind::Tree, id(50))] };
    let mut editor = Editor::new(root, &Never, HashKind::Sha1);
    assert!(matches!(
        editor.upsert(&path("dir/new"), EntryKind::Blob, id(5)),
        Err(Error::FindExistingObject(ExistingObjectError::NotFound { .. }))
    ));
}

#[test]
fn empty_components_are_rejected() {
    let mut editor = Editor::new(Tree { entries: vec![] }, &Never, HashKind::Sha1);
    assert!(matches!(editor.upsert(&path("a/"), EntryKind::Blob, id(1)), Err(Error::EmptyPathComponent)));
    assert!(matches!(editor.remove(&path("")), Err(Error::EmptyPathComponent)));
}

#[test]
fn remove_then_get_finds_nothing() {
    let mut editor = Editor::new(Tree { entries: vec![] }, &Never, HashKind::Sha1);
    editor.upsert(&path("a/b"), EntryKind::Blob, id(1)).unwrap();
    editor.upsert(&path("a/c"), EntryKind::Blob, id(2)).unwrap();
    editor.remove(&path("a/b")).unwrap();
    assert!(editor.get(&path("a/b")).is_none());
    assert!(editor.get(&path("a/c")).is_some());
    editor.remove(&path("missing/b")).unwrap();
}

#[test]
fn remove_leaf_refuses_trees() {
    let mut editor = Editor::new(Tree { entries: vec![] }, &Never, HashKind::Sha1);
    editor.upsert(&path("a/b"), EntryKind::Blob, id(1)).unwrap();
    match editor.remove_leaf(&path("a")) {
        Err(Error::CannotRemoveNonLeaf { rela_path }) => assert_eq!(rela_path, b"a"),
        _ => panic!("a tree is no leaf"),
    }
    editor.remove_leaf(&path("a/b")).unwrap();
    editor.remove(&path("a")).unwrap();
    assert!(editor.get(&path("a")).is_none());
}

#[test]
fn empty_trees_are_dropped_when_writing() {
    let mut editor = Editor::new(Tree { entries: vec![] }, &Never, HashKind::Sha1);
    editor.upsert(&path("a/b"), EntryKind::Blob, id(1)).unwrap();
    editor.remove(&path("a/b")).unwrap();
    editor.upsert(&path("placeholder"), EntryKind::Blob, ObjectId { bytes: vec![0; 20] }).unwrap();
    let sink = Sink::default();
    editor.write(&sink).unwrap();
    let written = sink.written.into_inner();
    assert_eq!(written.len(), 1, "only the root is written");
    assert!(written[0].entries.is_empty(), "null ids and empty trees are dropped");
    assert!(editor.get(&path("a")).is_none());
}

#[test]
fn writing_keeps_only_the_root() {
    let mut editor = Editor::new(Tree { entries: vec![] }, &Never, HashKind::Sha1);
    editor.upsert(&path("a/b"), EntryKind::Blob, id(1)).unwrap();
    let sink = Sink::default();
    editor.write(&sink).unwrap();
    let written = sink.written.into_inner();
    assert!(editor.get(&path("a/b")).is_none(), "intermediate trees are gone after writing");
    assert_eq!(editor.get(&path("a")).unwrap().oid, id(1));
}

#[test]
fn failed_writes_keep_the_root() {
    let mut editor = Editor::new(Tree { entries: vec![] }, &Never, HashKind::Sha1);
    editor.upsert(&path("a/b"), EntryKind::Blob, id(1)).unwrap();
    assert_eq!(editor.write(&Failing), Err("full"));
    assert!(editor.get(&path("a")).is_some());
}

#[test]
fn set_root_drops_edits() {
    let mut editor = Editor::new(Tree { entries: vec![] }, &Never, HashKind::Sha1);
    editor.upsert(&path("a"), EntryKind::Blob, id(1)).unwrap();
    let same = editor.set_root(Tree { entries: vec![entry("z", EntryKind::Blob, id(2))] });
    assert!(same.get(&path("a")).is_none());
    assert_eq!(editor.get(&path("z")).unwrap().oid, id(2));
}

#[test]
fn cursors_edit_below_their_tree() {
    let mut editor = Editor::new(Tree { entries: vec![] }, &Never, HashKind::Sha1);
    {
        let mut cursor = editor.cursor_at(&path("sub/dir")).unwrap();
        cursor.upsert(&path("file"), EntryKind::Blob, id(3)).unwrap();
        assert_eq!(cursor.get(&path("file")).unwrap().oid, id(3));
        let sink = Sink::default();
        cursor.write(&sink).unwrap();
        let written = sink.written.into_inner();
        assert_eq!(written.len(), 1);
        assert_eq!(names(&written[0]), ["file"]);
    }
    assert!(editor.get(&path("sub/dir")).unwrap().mode.is_tree());
    let mut root_cursor = editor.to_cursor();
    root_cursor.remove(&path("sub")).unwrap();
    assert!(root_cursor.get(&path("sub")).is_none());
}

#[test]
fn never_finds_nothing() {
    assert!(matches!(Never.find_tree(&id(1)), Err(ExistingObjectError::NotFound { .. })));
}

#[test]
fn cursor_writes_keep_the_trees_outside_the_cursor() {
    let mut editor = Editor::new(Tree { entries: vec![] }, &Never, HashKind::Sha1);
    editor.upsert(&path("a/x"), EntryKind::Blob, id(1)).unwrap();
    editor.upsert(&path("b/y"), EntryKind::Blob, id(2)).unwrap();
    {
        let mut cursor = editor.cursor_at(&path("a")).unwrap();
        let sink = Sink::default();
        cursor.write(&sink).unwrap();
        assert_eq!(cursor.get(&path("x")).unwrap().oid, id(1), "the cursor keeps its own tree");
    }
    assert_eq!(editor.get(&path("b/y")).unwrap().oid, id(2), "trees outside the cursor stay as they were");
}

#[test]
fn a_cursor_at_one_empty_component_is_the_root() {
    let mut editor = Editor::new(Tree { entries: vec![] }, &Never, HashKind::Sha1);
    {
        let mut cursor = editor.cursor_at(&[b"".as_slice()]).unwrap();
        cursor.upsert(&path("x"), EntryKind::Blob, id(1)).unwrap();
    }
    assert_eq!(editor.get(&path("x")).unwrap().oid, id(1));
}

#[test]
fn removing_a_leaf_refuses_trees_and_ignores_absent_entries() {
    let mut editor = Editor::new(Tree { entries: vec![] }, &Never, HashKind::Sha1);
    editor.upsert(&path("a/b"), EntryKind::Blob, id(1)).unwrap();
    match editor.remove_leaf(&path("a")) {
        Err(Error::CannotRemoveNonLeaf { rela_path }) => assert_eq!(rela_path, b"a".to_vec()),
        other => panic!("a tree is no leaf: {:?}", other.err()),
    }
    assert_eq!(editor.get(&path("a/b")).unwrap().oid, id(1));
    editor.remove_leaf(&path("x")).unwrap();
    assert_eq!(editor.get(&path("a/b")).unwrap().oid, id(1));
}

#[test]
fn removing_loads_only_trees_that_are_not_held() {
    let stored = ObjectId { bytes: vec![7; 20] };
    let root = Tree { entries: vec![entry("d", EntryKind::Tree, stored.copied())] };
    let mut editor = Editor::new(root.clone(), &Never, HashKind::Sha1);
    assert!(matches!(editor.remove(&path("d/f")), Err(Error::FindExistingObject(_))), "d is not stored anywhere");
    let mut editor = Editor::new(root, &Never, HashKind::Sha1);
    editor.remove(&path("e/f")).unwrap();
    editor.remove(&path("d")).unwrap();
    assert!(editor.get(&path("d")).is_none());
}

#[test]
fn writing_hands_children_before_parents_and_returns_the_roots_id() {
    let mut editor = Editor::new(Tree { entries: vec![] }, &Never, HashKind::Sha1);
    editor.upsert(&path("a/b"), EntryKind::Blob, id(100)).unwrap();
    let sink = Sink::default();
    assert_eq!(editor.write(&sink).unwrap(), id(2));
    let written = sink.written.into_inner();
    assert_eq!(written.len(), 2);
    assert_eq!(written[0].entries, vec![entry("b", EntryKind::Blob, id(100))]);
    assert_eq!(written[1].entries, vec![entry("a", EntryKind::Tree, id(1))]);
    assert_eq!(editor.get(&path("a")).unwrap().oid, id(1));
}

#[test]
fn writing_drops_trees_that_came_out_empty() {
    let mut editor = Editor::new(Tree { entries: vec![] }, &Never, HashKind::Sha1);
    editor.upsert(&path("a/b"), EntryKind::Blob, id(100)).unwrap();
    editor.upsert(&path("c"), EntryKind::Blob, id(101)).unwrap();
    editor.remove(&path("a/b")).unwrap();
    let sink = Sink::default();
    assert_eq!(editor.write(&sink).unwrap(), id(1));
    let written = sink.written.into_inner();
    assert_eq!(written.len(), 1, "the empty tree at a is not written");
    assert_eq!(written[0].entries, vec![entry("c", EntryKind::Blob, id(101))]);
}

#[test]
fn edits_return_the_editor_for_more_calls() {
    let mut editor = Editor::new(Tree { entries: vec![] }, &Never, HashKind::Sha1);
    editor
        .upsert(&path("a"), EntryKind::Blob, id(1))
        .unwrap()
        .upsert(&path("b/c"), EntryKind::Blob, id(2))
        .unwrap()
        .remove(&path("a"))
        .unwrap();
    assert!(editor.get(&path("a")).is_none());
    assert_eq!(editor.get(&path("b/c")).unwrap().oid, id(2));
    let mut cursor = editor.cursor_at(&path("b")).unwrap();
    cursor.upsert(&path("d"), EntryKind::Blob, id(3)).unwrap().remove_leaf(&path("c")).unwrap();
    assert!(cursor.get(&path("c")).is_none());
    assert_eq!(cursor.get(&path("d")).unwrap().oid, id(3));
}

#[test]
fn a_root_cursor_edits_the_editor() {
    let mut editor = Editor::new(Tree { entries: vec![] }, &Never, HashKind::Sha1);
    {
        let mut cursor = editor.cursor_at(&path("")).unwrap();
        cursor.upsert(&path("x"), EntryKind::Blob, id(5)).unwrap();
    }
    assert_eq!(editor.get(&path("x")).unwrap().oid, id(5));
}
