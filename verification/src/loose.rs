//! The loose object database: where its objects lie, how much of them may be held in memory,
//! whether what inflates from their files fits their headers, and which of them an abbreviated id
//! names.
use vstd::prelude::*;

use crate::bytes::{copy_range, slice_eq};
use crate::hash::ObjectId;
use crate::note::{hex_of, to_hex};

verus! {

/// The error returned when reading loose objects.
#[derive(Debug)]
pub enum Error {
    /// The object file at `path` could not be decompressed.
    DecompressFile { path: Vec<u8> },
    /// The object at `path` inflated to `actual` bytes where its header said `expected`.
    SizeMismatch { actual: u64, expected: u64, path: Vec<u8> },
    /// The header of an object could not be decoded, for this reason.
    Decode(String),
    /// An object of `size` bytes cannot be held in memory.
    OutOfMemory { size: u64 },
    /// The `action` on the data at `path` failed.
    Io { action: &'static str, path: Vec<u8> },
}

/// A loose object database: a directory with one file per object.
#[derive(Debug)]
pub struct Store {
    /// The directory holding the objects.
    pub path: Vec<u8>,
    /// The kind of hash of the objects.
    pub object_hash: crate::hash::HashKind,
    /// The largest object, in bytes, that may be read into memory, if there is a limit.
    pub alloc_limit_bytes: Option<usize>,
}

/// `component` pushed onto the path `base`, with a slash between them unless `base` is empty or
/// ends in one.
pub open spec fn push_path(base: Seq<u8>, component: Seq<u8>) -> Seq<u8> {
    if base.len() == 0 || base.last() == 47 {
        base + component
    } else {
        base + seq![47u8] + component
    }
}

/// The path of the object with the hexadecimal id `hex` below `root`: the first two digits name
/// a directory, the others the file in it.
pub open spec fn hash_path_spec(root: Seq<u8>, hex: Seq<u8>) -> Seq<u8> {
    push_path(push_path(root, hex.subrange(0, 2)), hex.subrange(2, hex.len() as int))
}

/// Push `component` onto the path `base`.
fn push_component(base: &mut Vec<u8>, component: &[u8])
    ensures
        final(base)@ == push_path(old(base)@, component@),
{
    let ghost start = base@;
    if base.len() > 0 && base[base.len() - 1] != 47 {
        base.push(47);
    }
    let ghost mid = base@;
    let mut i: usize = 0;
    while i < component.len()
        invariant
            i <= component@.len(),
            base@ == mid + component@.subrange(0, i as int),
        decreases component.len() - i,
    {
        base.push(component[i]);
        i += 1;
        assert(base@ =~= mid + component@.subrange(0, i as int));
    }
    assert(component@.subrange(0, component@.len() as int) =~= component@);
    assert(base@ =~= push_path(start, component@));
}

/// The path of the object with `id` below `root`.
pub fn hash_path(id: &ObjectId, root: Vec<u8>) -> (r: Vec<u8>)
    requires
        id@.len() >= 1,
    ensures
        r@ == hash_path_spec(root@, hex_of(id@)),
{
    let hex = to_hex(id);
    let mut out = root;
    let dir = copy_range(hex.as_slice(), 0, 2);
    push_component(&mut out, dir.as_slice());
    let file = copy_range(hex.as_slice(), 2, hex.len());
    push_component(&mut out, file.as_slice());
    out
}

/// The first `hex_len` hexadecimal digits of an object id, held in `bytes` with all other bits
/// zero.
#[derive(Debug, Clone, PartialEq, Eq)]
pub struct Prefix {
    /// The digits of the prefix, padded with zero bits to the length of an id.
    pub bytes: ObjectId,
    /// How many hexadecimal digits the prefix has.
    pub hex_len: usize,
}

/// `candidate` begins with the first `hex_len` hexadecimal digits of `prefix`: the whole bytes
/// agree, and where `hex_len` is odd, the upper half of the next byte of `candidate` equals that
/// byte of `prefix`.
pub open spec fn prefix_matches(prefix: Seq<u8>, hex_len: nat, candidate: Seq<u8>) -> bool {
    let common = (hex_len / 2) as int;
    &&& prefix.subrange(0, common) == candidate.subrange(0, common)
    &&& hex_len % 2 == 1 ==> prefix[common] == candidate[common] & 0xf0u8
}

/// [`prefix_matches`] as a predicate on candidates.
pub open spec fn matcher(prefix: Seq<u8>, hex_len: nat) -> spec_fn(Seq<u8>) -> bool {
    |c: Seq<u8>| prefix_matches(prefix, hex_len, c)
}

/// The ids among `listed` that begin with the prefix, in their order.
pub open spec fn matching(prefix: Seq<u8>, hex_len: nat, listed: Seq<ObjectId>) -> Seq<Seq<u8>> {
    id_views(listed).filter(matcher(prefix, hex_len))
}

/// One more id listed adds it to the matching ones if it begins with the prefix.
proof fn lemma_matching_push(prefix: Seq<u8>, hex_len: nat, listed: Seq<ObjectId>, n: int)
    requires
        0 <= n < listed.len(),
    ensures
        matching(prefix, hex_len, listed.subrange(0, n + 1)) == if prefix_matches(prefix, hex_len, listed[n]@) {
            matching(prefix, hex_len, listed.subrange(0, n)).push(listed[n]@)
        } else {
            matching(prefix, hex_len, listed.subrange(0, n))
        },
{
    assert(id_views(listed.subrange(0, n + 1)) =~= id_views(listed.subrange(0, n)).push(listed[n]@));
    id_views(listed.subrange(0, n)).lemma_filter_push(listed[n]@, matcher(prefix, hex_len));
}

/// The ids of `ids`.
pub open spec fn id_views(ids: Seq<ObjectId>) -> Seq<Seq<u8>> {
    ids.map_values(|o: ObjectId| o@)
}

/// The prefix fits into an id of `len` bytes.
pub open spec fn fits(prefix: Prefix, len: nat) -> bool {
    prefix.hex_len <= 2 * len
}

impl Prefix {
    /// `true` if `candidate` begins with this prefix.
    pub fn matches(&self, candidate: &ObjectId) -> (r: bool)
        requires
            fits(*self, self.bytes@.len()),
            fits(*self, candidate@.len()),
        ensures
            r == prefix_matches(self.bytes@, self.hex_len as nat, candidate@),
    {
        let common = self.hex_len / 2;
        let mut i: usize = 0;
        while i < common
            invariant
                common == self.hex_len / 2,
                common <= self.bytes@.len(),
                common <= candidate@.len(),
                i <= common,
                self.bytes@.subrange(0, i as int) == candidate@.subrange(0, i as int),
            decreases common - i,
        {
            if self.bytes.bytes[i] != candidate.bytes[i] {
                assert(self.bytes@.subrange(0, common as int)[i as int] != candidate@.subrange(0, common as int)[i as int]);
                return false;
            }
            i += 1;
            assert(self.bytes@.subrange(0, i as int) =~= candidate@.subrange(0, i as int));
        }
        if self.hex_len % 2 == 1 {
            self.bytes.bytes[common] == candidate.bytes[common] & 0xf0
        } else {
            true
        }
    }
}

/// `true` if `set` holds an id equal to `id`.
fn holds_id(set: &Vec<ObjectId>, id: &ObjectId) -> (r: bool)
    ensures
        r == id_views(set@).contains(id@),
{
    let mut i: usize = 0;
    while i < set.len()
        invariant
            i <= set@.len(),
            forall|j: int| 0 <= j < i ==> set@[j]@ != id@,
        decreases set.len() - i,
    {
        if slice_eq(set[i].bytes.as_slice(), id.bytes.as_slice()) {
            assert(id_views(set@)[i as int] == id@);
            return true;
        }
        i += 1;
    }
    false
}

/// Add each id of `listed` that begins with `prefix` to `set`, unless it holds it already.
fn collect_matches(prefix: &Prefix, listed: &[ObjectId], set: &mut Vec<ObjectId>)
    requires
        fits(*prefix, prefix.bytes@.len()),
        forall|i: int| 0 <= i < listed@.len() ==> fits(*prefix, #[trigger] listed@[i]@.len()),
        id_views(old(set)@).no_duplicates(),
    ensures
        id_views(final(set)@).no_duplicates(),
        forall|c: Seq<u8>| #[trigger] id_views(final(set)@).contains(c)
            <==> id_views(old(set)@).contains(c) || matching(prefix.bytes@, prefix.hex_len as nat, listed@).contains(c),
{
    let mut i: usize = 0;
    while i < listed.len()
        invariant
            i <= listed@.len(),
            fits(*prefix, prefix.bytes@.len()),
            forall|k: int| 0 <= k < listed@.len() ==> fits(*prefix, #[trigger] listed@[k]@.len()),
            id_views(set@).no_duplicates(),
            forall|c: Seq<u8>| #[trigger] id_views(set@).contains(c)
                <==> id_views(old(set)@).contains(c) || matching(prefix.bytes@, prefix.hex_len as nat, listed@.subrange(0, i as int)).contains(c),
        decreases listed.len() - i,
    {
        let ghost before = id_views(set@);
        proof {
            lemma_matching_push(prefix.bytes@, prefix.hex_len as nat, listed@, i as int);
        }
        let ghost found_before = matching(prefix.bytes@, prefix.hex_len as nat, listed@.subrange(0, i as int));
        let ghost x = listed@[i as int]@;
        if prefix.matches(&listed[i]) {
            if !holds_id(set, &listed[i]) {
                set.push(listed[i].copied());
                assert(id_views(set@) =~= before.push(x));
                assert(id_views(set@).no_duplicates()) by {
                    assert forall|a: int, b: int| 0 <= a < b < id_views(set@).len() implies id_views(set@)[a] != id_views(set@)[b] by {
                        if b == before.len() {
                            assert(before[a] == id_views(set@)[a]);
                        }
                    }
                }
            }
            assert forall|c: Seq<u8>| #[trigger] id_views(set@).contains(c) <==> before.contains(c) || c == x by {
                if c == x && before.contains(c) {
                } else if id_views(set@).contains(c) && c != x {
                    let k = choose|k: int| 0 <= k < id_views(set@).len() && id_views(set@)[k] == c;
                    assert(before[k] == c);
                } else if c == x {
                    assert(id_views(set@)[id_views(set@).len() - 1] == x);
                } else if before.contains(c) {
                    let k = choose|k: int| 0 <= k < before.len() && before[k] == c;
                    assert(id_views(set@)[k] == c);
                }
            }
            assert forall|c: Seq<u8>| #[trigger] found_before.push(x).contains(c) <==> found_before.contains(c) || c == x by {
                if found_before.contains(c) {
                    let k = choose|k: int| 0 <= k < found_before.len() && found_before[k] == c;
                    assert(found_before.push(x)[k] == c);
                }
                if found_before.push(x).contains(c) && c != x {
                    let k = choose|k: int| 0 <= k < found_before.push(x).len() && found_before.push(x)[k] == c;
                    assert(found_before[k] == c);
                }
                if c == x {
                    assert(found_before.push(x)[found_before.len() as int] == x);
                }
            }
        }
        i += 1;
    }
    assert(listed@.subrange(0, listed@.len() as int) =~= listed@);
}

/// The id among `listed` that begins with `prefix`: `None` if there is none, an error if there are
/// several.
fn unique_match(prefix: &Prefix, listed: &[ObjectId]) -> (r: Option<Result<ObjectId, ()>>)
    requires
        fits(*prefix, prefix.bytes@.len()),
        forall|i: int| 0 <= i < listed@.len() ==> fits(*prefix, #[trigger] listed@[i]@.len()),
    ensures
        lookup_outcome(matching(prefix.bytes@, prefix.hex_len as nat, listed@), r),
{
    let mut candidate: Option<ObjectId> = None;
    let mut i: usize = 0;
    while i < listed.len()
        invariant
            i <= listed@.len(),
            fits(*prefix, prefix.bytes@.len()),
            forall|k: int| 0 <= k < listed@.len() ==> fits(*prefix, #[trigger] listed@[k]@.len()),
            matching(prefix.bytes@, prefix.hex_len as nat, listed@.subrange(0, i as int)).len() <= 1,
            match candidate {
                Some(c) => matching(prefix.bytes@, prefix.hex_len as nat, listed@.subrange(0, i as int)) == seq![c@],
                None => matching(prefix.bytes@, prefix.hex_len as nat, listed@.subrange(0, i as int)).len() == 0,
            },
        decreases listed.len() - i,
    {
        proof {
            lemma_matching_push(prefix.bytes@, prefix.hex_len as nat, listed@, i as int);
        }
        if prefix.matches(&listed[i]) {
            if candidate.is_some() {
                proof {
                    lemma_matching_grows(prefix.bytes@, prefix.hex_len as nat, listed@, i as int + 1);
                }
                return Some(Err(()));
            }
            candidate = Some(listed[i].copied());
        }
        i += 1;
    }
    assert(listed@.subrange(0, listed@.len() as int) =~= listed@);
    match candidate {
        Some(c) => Some(Ok(c)),
        None => None,
    }
}

/// The ids that begin with a prefix among the first `n` of `listed` are no more than among all.
proof fn lemma_matching_grows(prefix: Seq<u8>, hex_len: nat, listed: Seq<ObjectId>, n: int)
    requires
        0 <= n <= listed.len(),
    ensures
        matching(prefix, hex_len, listed.subrange(0, n)).len() <= matching(prefix, hex_len, listed).len(),
    decreases listed.len() - n,
{
    if n < listed.len() {
        lemma_matching_push(prefix, hex_len, listed, n);
        lemma_matching_grows(prefix, hex_len, listed, n + 1);
    } else {
        assert(listed.subrange(0, n) =~= listed);
    }
}

/// What a lookup gives back for the ids `found` that begin with a prefix: nothing if there is
/// none, the one id if there is one, and an error if there are several.
pub open spec fn lookup_outcome(found: Seq<Seq<u8>>, r: Option<Result<ObjectId, ()>>) -> bool {
    if found.len() == 0 {
        r is None
    } else if found.len() == 1 {
        r matches Some(Ok(id)) && id@ == found[0]
    } else {
        r == Some(Err::<ObjectId, ()>(()))
    }
}

/// How reading a loose object goes on once the first inflation filled the header buffer.
#[derive(Debug, Clone, Copy, PartialEq, Eq, Structural)]
pub enum BodyRead {
    /// The whole object was inflated at once: its body is what follows the header in the buffer.
    Complete,
    /// `prefix_len` bytes of the body were inflated; the rest follows them in a buffer of `size`
    /// bytes.
    Continue { prefix_len: usize, size: usize },
}

impl Store {
    /// The path of the object with `id`, which need not exist yet.
    pub fn object_path(&self, id: &ObjectId) -> (r: Vec<u8>)
        requires
            id@.len() >= 1,
        ensures
            r@ == hash_path_spec(self.path@, hex_of(id@)),
    {
        let root = copy_range(self.path.as_slice(), 0, self.path.len());
        assert(root@ =~= self.path@);
        hash_path(id, root)
    }

    /// Fail if an object of `size` bytes exceeds the limit of what may be held in memory.
    pub fn ensure_in_alloc_limit(&self, size: u64) -> (r: Result<(), Error>)
        ensures
            match self.alloc_limit_bytes {
                Some(limit) => if size > limit {
                    r matches Err(Error::OutOfMemory { size: s }) && s == size
                } else {
                    r is Ok
                },
                None => r is Ok,
            },
    {
        match self.alloc_limit_bytes {
            Some(limit) => {
                if size > limit as u64 {
                    return Err(Error::OutOfMemory { size });
                }
                Ok(())
            },
            None => Ok(()),
        }
    }

    /// Check what the first inflation of the object at `path` gave: its header said the object
    /// has `size` bytes and takes `header_size` bytes, `consumed_out` bytes came out, and
    /// `stream_end` tells whether that was all. Fails if the object may not be held in memory,
    /// or if what came out does not fit the header.
    pub fn check_first_inflate(
        &self,
        path: &[u8],
        size: u64,
        header_size: usize,
        consumed_out: usize,
        stream_end: bool,
    ) -> (r: Result<BodyRead, Error>)
        requires
            size + header_size <= u64::MAX,
        ensures
            match r {
                Err(Error::OutOfMemory { size: s }) => s == size && ((self.alloc_limit_bytes matches Some(limit) && size > limit)
                    || size > usize::MAX),
                Err(Error::SizeMismatch { actual, expected, path: p }) => p@ == path@ && !(self.alloc_limit_bytes matches Some(
                    limit,
                ) && size > limit) && size <= usize::MAX && if consumed_out < header_size {
                    actual == consumed_out && expected == header_size
                } else if consumed_out - header_size > size {
                    actual == consumed_out - header_size && expected == size
                } else {
                    stream_end && consumed_out != size + header_size && actual == consumed_out && expected == size
                        + header_size
                },
                Err(_) => false,
                Ok(read) => {
                    &&& !(self.alloc_limit_bytes matches Some(limit) && size > limit)
                    &&& size <= usize::MAX
                    &&& header_size <= consumed_out
                    &&& consumed_out - header_size <= size
                    &&& if stream_end {
                        consumed_out == size + header_size && read == BodyRead::Complete
                    } else {
                        read == BodyRead::Continue { prefix_len: (consumed_out - header_size) as usize, size: size as usize }
                    }
                },
            },
    {
        match self.ensure_in_alloc_limit(size) {
            Ok(()) => {},
            Err(e) => {
                return Err(e);
            },
        }
        if size > usize::MAX as u64 {
            return Err(Error::OutOfMemory { size });
        }
        let size_usize = size as usize;
        if consumed_out < header_size {
            return Err(
                Error::SizeMismatch { actual: consumed_out as u64, expected: header_size as u64, path: copy_range(path, 0, path.len()) },
            );
        }
        let prefix_len = consumed_out - header_size;
        if prefix_len > size_usize {
            return Err(Error::SizeMismatch { expected: size, actual: prefix_len as u64, path: copy_range(path, 0, path.len()) });
        }
        if stream_end {
            if consumed_out as u64 != size + header_size as u64 {
                return Err(
                    Error::SizeMismatch {
                        expected: size + header_size as u64,
                        actual: consumed_out as u64,
                        path: copy_range(path, 0, path.len()),
                    },
                );
            }
            Ok(BodyRead::Complete)
        } else {
            Ok(BodyRead::Continue { prefix_len, size: size_usize })
        }
    }

    /// Check that inflating the rest of the object at `path` gave `num_decompressed` bytes that,
    /// after the `prefix_len` bytes of the first inflation, make up its `size`.
    pub fn check_inflated_size(path: &[u8], size: u64, prefix_len: usize, num_decompressed: usize) -> (r: Result<(), Error>)
        requires
            prefix_len + num_decompressed <= u64::MAX,
        ensures
            match r {
                Ok(()) => num_decompressed + prefix_len == size,
                Err(Error::SizeMismatch { actual, expected, path: p }) => num_decompressed + prefix_len != size && expected
                    == size && actual == num_decompressed + prefix_len && p@ == path@,
                Err(_) => false,
            },
    {
        let total = num_decompressed as u64 + prefix_len as u64;
        if total != size {
            return Err(Error::SizeMismatch { expected: size, actual: total, path: copy_range(path, 0, path.len()) });
        }
        Ok(())
    }

    /// The directory that holds the objects beginning with `prefix`: the one named by its first
    /// two hexadecimal digits.
    pub fn prefix_directory(&self, prefix: &Prefix) -> (r: Vec<u8>)
        requires
            prefix.bytes@.len() >= 1,
        ensures
            r@ == push_path(self.path@, hex_of(prefix.bytes@).subrange(0, 2)),
    {
        let hex = to_hex(&prefix.bytes);
        let mut out = copy_range(self.path.as_slice(), 0, self.path.len());
        assert(out@ =~= self.path@);
        let dir = copy_range(hex.as_slice(), 0, 2);
        push_component(&mut out, dir.as_slice());
        out
    }

    /// Find the object that begins with `prefix` among `listed`, the objects in the directory
    /// that [`Store::prefix_directory`] names: `None` if there is none, the id if there is one,
    /// and an error if there are several. With a set of `candidates`, every object that begins
    /// with `prefix` is added to it, and the outcome is that of the whole set.
    pub fn lookup_prefix(&self, prefix: &Prefix, listed: &[ObjectId], candidates: &mut Option<Vec<ObjectId>>) -> (r: Option<
        Result<ObjectId, ()>,
    >)
        requires
            fits(*prefix, prefix.bytes@.len()),
            forall|i: int| 0 <= i < listed@.len() ==> fits(*prefix, #[trigger] listed@[i]@.len()),
            *old(candidates) matches Some(set) ==> id_views(set@).no_duplicates(),
        ensures
            match *old(candidates) {
                None => {
                    &&& *final(candidates) is None
                    &&& lookup_outcome(matching(prefix.bytes@, prefix.hex_len as nat, listed@), r)
                },
                Some(before) => *final(candidates) matches Some(after) && {
                    &&& id_views(after@).no_duplicates()
                    &&& forall|c: Seq<u8>| #[trigger] id_views(after@).contains(c)
                        <==> id_views(before@).contains(c) || matching(prefix.bytes@, prefix.hex_len as nat, listed@).contains(c)
                    &&& lookup_outcome(id_views(after@), r)
                },
            },
    {
        match candidates {
            Some(set) => {
                collect_matches(prefix, listed, set);
                let n = set.len();
                if n == 0 {
                    None
                } else if n == 1 {
                    Some(Ok(set[0].copied()))
                } else {
                    Some(Err(()))
                }
            },
            None => unique_match(prefix, listed),
        }
    }
}

} // verus!
