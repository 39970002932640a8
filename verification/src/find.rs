//! Looking up trees in an object database.
use vstd::prelude::*;

use crate::hash::ObjectId;
use crate::object_tree::{entries_view, EntryView, Tree};
use crate::tag::Kind;

verus! {

/// The error returned when an existing object is looked up.
#[derive(Debug)]
pub enum ExistingObjectError {
    /// The database failed, with this message.
    Find(String),
    /// The object could not be decoded.
    Decode { oid: ObjectId },
    /// There is no object with this id.
    NotFound { oid: ObjectId },
    /// The object is of another kind than expected.
    ObjectKind { oid: ObjectId, actual: Kind, expected: Kind },
}

/// Access to the trees of an object database, by id.
pub trait FindTree {
    /// The entries of the tree that the database stores under `id`, if it stores one; a database
    /// that finds trees says which.
    open spec fn stored(&self, id: Seq<u8>) -> Option<Seq<EntryView>> {
        None
    }

    /// The tree with `id`, or why it could not be had; a tree that is found is the one stored.
    fn find_tree(&self, id: &ObjectId) -> (r: Result<Tree, ExistingObjectError>)
        ensures
            r matches Ok(t) ==> self.stored(id@) == Some(entries_view(t.entries@)),
    ;
}

/// An object database that stores nothing and finds nothing.
#[derive(Debug, Clone, Copy)]
pub struct Never;

impl FindTree for Never {
    fn find_tree(&self, id: &ObjectId) -> (r: Result<Tree, ExistingObjectError>)
        ensures
            r matches Err(ExistingObjectError::NotFound { oid }) && oid@ == id@,
    {
        Err(ExistingObjectError::NotFound { oid: id.copied() })
    }
}

} // verus!
