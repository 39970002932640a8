//! Options and statistics of pack streaming and pack generation.
use vstd::prelude::*;

verus! {

/// How the trailer of a streamed pack is treated.
#[derive(PartialEq, Eq, Debug, Clone, Copy, Structural)]
pub enum Mode {
    /// Provide the trailer as read from the pack.
    AsIs,
    /// Generate an own hash and trigger an error on the last iterated object if it does not match
    /// the hash provided with the pack.
    Verify,
    /// Generate an own hash and if there was an error or the objects are depleted early due to
    /// partial packs, return the last valid entry and with our own hash thus far.
    Restore,
}

/// Define what to do with the compressed bytes portion of a pack entry.
#[derive(PartialEq, Eq, Debug, Clone, Copy, Structural)]
pub enum EntryDataMode {
    /// Do nothing with the compressed bytes we read.
    Ignore,
    /// Only create a CRC32 of the entry, otherwise similar to `Ignore`.
    Crc32,
    /// Keep them and pass them along in a newly allocated buffer.
    Keep,
    /// As above, but also compute a CRC32.
    KeepAndCrc32,
}

impl EntryDataMode {
    /// Returns true if a crc32 should be computed.
    pub fn crc32(&self) -> (r: bool)
        ensures
            r == (*self == EntryDataMode::Crc32 || *self == EntryDataMode::KeepAndCrc32),
    {
        match self {
            EntryDataMode::KeepAndCrc32 | EntryDataMode::Crc32 => true,
            EntryDataMode::Keep | EntryDataMode::Ignore => false,
        }
    }

    /// Returns true if compressed bytes should be kept.
    pub fn keep(&self) -> (r: bool)
        ensures
            r == (*self == EntryDataMode::Keep || *self == EntryDataMode::KeepAndCrc32),
    {
        match self {
            EntryDataMode::Keep | EntryDataMode::KeepAndCrc32 => true,
            EntryDataMode::Ignore | EntryDataMode::Crc32 => false,
        }
    }
}

/// The way input objects are handled when counting the objects of a pack to generate.
#[derive(PartialEq, Eq, Debug, Clone, Copy, Structural)]
pub enum ObjectExpansion {
    /// Don't do anything with the input objects except for transforming them into pack entries.
    AsIs,
    /// If the input object is a commit then turn it into a pack entry, along with its tree and
    /// all objects reachable from it.
    TreeContents,
    /// If the input is a commit, obtain its ancestors and the objects that changed compared to
    /// their trees, and turn them into pack entries.
    TreeAdditionsComparedToAncestor,
}

impl Default for ObjectExpansion {
    fn default() -> (r: ObjectExpansion)
        ensures
            r == ObjectExpansion::AsIs,
    {
        ObjectExpansion::AsIs
    }
}

/// Configuration of the counting of objects for pack generation.
#[derive(PartialEq, Eq, Debug, Clone, Copy)]
pub struct Options {
    /// The amount of threads to use at most. If `None`, all logical cores are used.
    pub thread_limit: Option<usize>,
    /// The amount of objects per chunk or unit of work to be sent to threads for processing.
    pub chunk_size: usize,
    /// The way input objects are handled.
    pub input_object_expansion: ObjectExpansion,
}

impl Default for Options {
    fn default() -> (r: Options)
        ensures
            r.thread_limit is None,
            r.chunk_size == 10,
            r.input_object_expansion == ObjectExpansion::AsIs,
    {
        Options { thread_limit: None, chunk_size: 10, input_object_expansion: ObjectExpansion::default() }
    }
}

/// Information gathered while counting objects.
#[derive(PartialEq, Eq, Debug, Clone, Copy, Structural)]
pub struct Outcome {
    /// The amount of objects provided to start the iteration.
    pub input_objects: usize,
    /// The amount of objects that have been expanded from the input source.
    pub expanded_objects: usize,
    /// The amount of fully decoded objects.
    pub decoded_objects: usize,
    /// The total amount of encountered objects.
    pub total_objects: usize,
}

impl Default for Outcome {
    fn default() -> (r: Outcome)
        ensures
            r == (Outcome { input_objects: 0, expanded_objects: 0, decoded_objects: 0, total_objects: 0 }),
    {
        Outcome { input_objects: 0, expanded_objects: 0, decoded_objects: 0, total_objects: 0 }
    }
}

impl Outcome {
    /// Add the counts of `other` to these.
    pub fn aggregate(&mut self, other: Outcome)
        requires
            old(self).input_objects + other.input_objects <= usize::MAX,
            old(self).decoded_objects + other.decoded_objects <= usize::MAX,
            old(self).expanded_objects + other.expanded_objects <= usize::MAX,
            old(self).total_objects + other.total_objects <= usize::MAX,
        ensures
            final(self).input_objects == old(self).input_objects + other.input_objects,
            final(self).decoded_objects == old(self).decoded_objects + other.decoded_objects,
            final(self).expanded_objects == old(self).expanded_objects + other.expanded_objects,
            final(self).total_objects == old(self).total_objects + other.total_objects,
    {
        self.input_objects = self.input_objects + other.input_objects;
        self.decoded_objects = self.decoded_objects + other.decoded_objects;
        self.expanded_objects = self.expanded_objects + other.expanded_objects;
        self.total_objects = self.total_objects + other.total_objects;
    }
}

} // verus!
