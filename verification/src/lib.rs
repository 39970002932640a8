//! Verified plumbing for git object, pack and protocol formats.
use vstd::prelude::*;

pub mod alternate;
pub mod bytes;
pub mod delta;
pub mod dynamic;
pub mod find;
pub mod handshake;
pub mod hash;
pub mod loose;
pub mod merge;
pub mod note;
pub mod object_tree;
pub mod pack_index;
pub mod pack_options;
pub mod pack_entry;
pub mod packetline;
pub mod pathspec;
pub mod protocol;
pub mod signature;
pub mod tag;

verus! {

} // verus!
