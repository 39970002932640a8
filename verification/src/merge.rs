//! The decisions of tree, blob and commit merges.
pub mod blob;
pub mod commit;
pub mod index;
pub mod tree;
