//! The decisions of blob merges: which driver to use, and which buffer a merge picked.
use vstd::prelude::*;

use crate::bytes::{find_byte, find_byte_from, lemma_find_byte_from, slice_eq};
use crate::hash::ObjectId;

verus! {

/// How a blob merge ended.
#[derive(Debug, Clone, Copy, PartialEq, Eq, Structural)]
pub enum Resolution {
    /// Everything could be merged without conflict.
    Complete,
    /// A conflict occurred, but it was resolved automatically by a resolution strategy.
    CompleteWithAutoResolvedConflict,
    /// Conflicts remain; conflict markers are present where possible.
    Conflict,
}

/// The built-in merge drivers.
#[derive(Debug, Clone, Copy, PartialEq, Eq, Structural)]
pub enum BuiltinDriver {
    /// Merge text line by line, with conflict markers.
    Text,
    /// Merge binary data by choosing a side.
    Binary,
    /// Merge text by taking the lines of both sides.
    Union,
}

impl Default for BuiltinDriver {
    fn default() -> (r: BuiltinDriver)
        ensures
            r == BuiltinDriver::Text,
    {
        BuiltinDriver::Text
    }
}

/// A merge driver program configured by the user.
#[derive(Debug, Clone, PartialEq, Eq)]
pub struct Driver {
    /// The name of the driver, as referred to by the `merge` attribute.
    pub name: Vec<u8>,
    /// The command to run.
    pub command: Vec<u8>,
    /// The driver to use for the merges of merge bases, if any.
    pub recursive: Option<Vec<u8>>,
}

/// The driver a merge was configured to use.
#[derive(Debug, Clone, Copy, PartialEq, Eq, Structural)]
pub enum DriverChoice {
    /// One of the built-in drivers.
    BuiltIn(BuiltinDriver),
    /// The configured driver at this index.
    Index(usize),
}

/// The data of a merge resource.
#[derive(Debug, Clone, Copy, PartialEq, Eq)]
pub enum Data<'a> {
    /// The resource doesn't exist.
    Missing,
    /// The resource's content.
    Buffer(&'a [u8]),
    /// The resource is too large to be loaded; `size` is its size in bytes.
    TooLarge { size: u64 },
}

impl<'a> Data<'a> {
    /// The content, unless the resource is too large to be loaded; missing resources are empty.
    pub fn as_slice(&self) -> (r: Option<&'a [u8]>)
        ensures
            match *self {
                Data::Missing => r matches Some(b) && b@.len() == 0,
                Data::Buffer(b) => r == Some(b),
                Data::TooLarge { .. } => r is None,
            },
    {
        match self {
            Data::Missing => Some(&[]),
            Data::Buffer(b) => Some(*b),
            Data::TooLarge { .. } => None,
        }
    }
}

/// A side of a merge: its object id, null where it is not backed by an object, and its data.
#[derive(Debug, Clone)]
pub struct Resource<'a> {
    pub id: ObjectId,
    pub data: Data<'a>,
}

/// `true` if all bytes of `id` are zero, as in the null id.
pub open spec fn is_null(id: Seq<u8>) -> bool {
    forall|i: int| 0 <= i < id.len() ==> #[trigger] id[i] == 0
}

/// `true` if `id` is the null id.
pub fn id_is_null(id: &ObjectId) -> (r: bool)
    ensures
        r == is_null(id@),
{
    let mut i: usize = 0;
    while i < id.bytes.len()
        invariant
            i <= id@.len(),
            forall|j: int| 0 <= j < i ==> id@[j] == 0,
        decreases id.bytes.len() - i,
    {
        if id.bytes[i] != 0 {
            return false;
        }
        i += 1;
    }
    true
}

/// The three sides of a blob merge and the driver to merge them with.
pub struct PlatformRef<'parent> {
    /// The drivers the user configured.
    pub drivers: &'parent [Driver],
    /// The driver to use.
    pub driver: DriverChoice,
    /// The common ancestor.
    pub ancestor: Resource<'parent>,
    /// Our side.
    pub current: Resource<'parent>,
    /// Their side.
    pub other: Resource<'parent>,
}

/// What a merge produced: the buffer of one of the sides, or a new buffer.
#[derive(Debug, Clone, Copy, PartialEq, Eq, Structural)]
pub enum Pick {
    /// In a binary merge, chose the ancestor.
    Ancestor,
    /// In a binary merge, chose our side.
    Ours,
    /// In a binary merge, chose their side.
    Theirs,
    /// New data was produced with the result of the merge, to be found in the buffer that was
    /// passed to the merge.
    Buffer,
}

/// Where the object id of a merge result comes from.
#[derive(Debug, Clone, PartialEq, Eq)]
pub enum IdSource<'a> {
    /// The id of the picked side, which is backed by an object.
    Existing(ObjectId),
    /// The id of these bytes once they are written to the object database.
    Write(&'a [u8]),
    /// There is no id: the picked side is missing or too large, and backed by no object.
    Unavailable,
}

/// `true` if the first 8000 bytes of `data` hold a zero byte, or if it is too large to be loaded.
pub open spec fn is_binary_spec(data: Data) -> bool {
    match data {
        Data::Missing => false,
        Data::Buffer(buf) => match find_byte(buf@, 0) {
            Some(i) => i < 8000,
            None => false,
        },
        Data::TooLarge { .. } => true,
    }
}

/// `true` if the first 8000 bytes of `buf` hold a zero byte.
fn has_zero_in_head(buf: &[u8]) -> (r: bool)
    ensures
        r == match find_byte(buf@, 0) {
            Some(i) => i < 8000,
            None => false,
        },
{
    let end = if buf.len() < 8000 {
        buf.len()
    } else {
        8000
    };
    let mut i: usize = 0;
    while i < end
        invariant
            i <= end <= buf@.len(),
            end <= 8000,
            end == buf@.len() || end == 8000,
            find_byte(buf@, 0) == find_byte_from(buf@, 0, i as int),
        decreases end - i,
    {
        if buf[i] == 0 {
            return true;
        }
        i += 1;
    }
    proof {
        lemma_find_byte_from(buf@, 0, i as int);
    }
    false
}

/// `true` if `data` is to be merged as binary: it is too large to be loaded, or holds a zero byte
/// within its first 8000 bytes.
pub fn is_binary_buf(data: Data<'_>) -> (r: bool)
    ensures
        r == is_binary_spec(data),
{
    match data {
        Data::Missing => false,
        Data::Buffer(buf) => has_zero_in_head(buf),
        Data::TooLarge { .. } => true,
    }
}

impl<'parent> PlatformRef<'parent> {
    /// Return the configured driver program, or `Err` with the built-in driver to use instead: the
    /// default one where the configured index names no driver.
    pub fn configured_driver(&self) -> (r: Result<&'parent Driver, BuiltinDriver>)
        ensures
            match self.driver {
                DriverChoice::BuiltIn(b) => r == Err::<&Driver, BuiltinDriver>(b),
                DriverChoice::Index(idx) => if idx < self.drivers@.len() {
                    r == Ok::<&Driver, BuiltinDriver>(&self.drivers@[idx as int])
                } else {
                    r == Err::<&Driver, BuiltinDriver>(BuiltinDriver::Text)
                },
            },
    {
        match self.driver {
            DriverChoice::BuiltIn(builtin) => Err(builtin),
            DriverChoice::Index(idx) => if idx < self.drivers.len() {
                Ok(&self.drivers[idx])
            } else {
                Err(BuiltinDriver::default())
            },
        }
    }

    /// Using a `pick` obtained from a merge, obtain the respective buffer suitable for reading or copying.
    /// Return `Ok(None)` if the `pick` corresponds to a buffer (that was written separately).
    /// Return `Err(())` if the buffer is *too large*, so it was never read.
    pub fn buffer_by_pick(&self, pick: Pick) -> (r: Result<Option<&'parent [u8]>, ()>)
        ensures
            match pick {
                Pick::Ancestor => match self.ancestor.data.as_slice_spec() {
                    Some(b) => r matches Ok(Some(x)) && x@ == b,
                    None => r is Err,
                },
                Pick::Ours => match self.current.data.as_slice_spec() {
                    Some(b) => r matches Ok(Some(x)) && x@ == b,
                    None => r is Err,
                },
                Pick::Theirs => match self.other.data.as_slice_spec() {
                    Some(b) => r matches Ok(Some(x)) && x@ == b,
                    None => r is Err,
                },
                Pick::Buffer => r matches Ok(None),
            },
    {
        let data = match pick {
            Pick::Ancestor => self.ancestor.data,
            Pick::Ours => self.current.data,
            Pick::Theirs => self.other.data,
            Pick::Buffer => {
                return Ok(None);
            },
        };
        match data.as_slice() {
            Some(b) => Ok(Some(b)),
            None => Err(()),
        }
    }

    /// Use `pick` to tell where the object id of the merged result comes from, assuming that `buf`
    /// holds what the merge wrote. Binary and large resources keep the existing id of the side they
    /// picked; content that no object backs is to be written, as is `buf` for [`Pick::Buffer`].
    pub fn id_by_pick<'b>(&'b self, pick: Pick, buf: &'b [u8]) -> (r: IdSource<'b>)
        ensures
            match pick {
                Pick::Buffer => r == IdSource::Write(buf),
                _ => {
                    let field = if pick == Pick::Ancestor {
                        self.ancestor
                    } else if pick == Pick::Ours {
                        self.current
                    } else {
                        self.other
                    };
                    match field.data {
                        Data::Buffer(b) => if is_null(field.id@) {
                            r == IdSource::Write(b)
                        } else {
                            r matches IdSource::Existing(id) && id@ == field.id@
                        },
                        _ => if is_null(field.id@) {
                            r == IdSource::<'b>::Unavailable
                        } else {
                            r matches IdSource::Existing(id) && id@ == field.id@
                        },
                    }
                },
            },
    {
        let field = match pick {
            Pick::Ancestor => &self.ancestor,
            Pick::Ours => &self.current,
            Pick::Theirs => &self.other,
            Pick::Buffer => {
                return IdSource::Write(buf);
            },
        };
        let null = id_is_null(&field.id);
        match field.data {
            Data::Buffer(b) if null => IdSource::Write(b),
            Data::Buffer(_) => IdSource::Existing(field.id.copied()),
            _ => if null {
                IdSource::Unavailable
            } else {
                IdSource::Existing(field.id.copied())
            },
        }
    }
}

// ---------------------------------------------------------------------------------------------
// Deciding a merge.

/// How a binary merge with a conflict is settled: by taking one of the sides.
#[derive(Debug, Clone, Copy, PartialEq, Eq, Structural)]
pub enum BinaryResolveWith {
    /// Take our side.
    Ours,
    /// Take their side.
    Theirs,
    /// Take the common ancestor.
    Ancestor,
}

/// What a binary merge of two differing sides picks: the side that `resolve_with` names, which
/// settles the conflict; without one, our side, and the conflict stays.
pub open spec fn binary_merge_spec(resolve_with: Option<BinaryResolveWith>) -> (Pick, Resolution) {
    match resolve_with {
        None => (Pick::Ours, Resolution::Conflict),
        Some(BinaryResolveWith::Ours) => (Pick::Ours, Resolution::CompleteWithAutoResolvedConflict),
        Some(BinaryResolveWith::Theirs) => (Pick::Theirs, Resolution::CompleteWithAutoResolvedConflict),
        Some(BinaryResolveWith::Ancestor) => (Pick::Ancestor, Resolution::CompleteWithAutoResolvedConflict),
    }
}

/// Merge two differing binary sides by picking one, as [`binary_merge_spec`] says.
pub fn binary_merge(resolve_with: Option<BinaryResolveWith>) -> (r: (Pick, Resolution))
    ensures
        r == binary_merge_spec(resolve_with),
{
    match resolve_with {
        None => (Pick::Ours, Resolution::Conflict),
        Some(BinaryResolveWith::Ours) => (Pick::Ours, Resolution::CompleteWithAutoResolvedConflict),
        Some(BinaryResolveWith::Theirs) => (Pick::Theirs, Resolution::CompleteWithAutoResolvedConflict),
        Some(BinaryResolveWith::Ancestor) => (Pick::Ancestor, Resolution::CompleteWithAutoResolvedConflict),
    }
}

/// How a blob merge goes on.
#[derive(Debug, Clone, Copy, PartialEq, Eq, Structural)]
pub enum BlobMerge {
    /// Run the configured driver program at this index of the drivers; its result is complete.
    External(usize),
    /// A side was picked, with this resolution.
    Picked(Pick, Resolution),
    /// Merge the contents as text with this driver, [`BuiltinDriver::Text`] or
    /// [`BuiltinDriver::Union`], into a new buffer.
    Text(BuiltinDriver),
}

/// The content of `data` as the merge algorithms see it: missing and too large data are empty.
pub open spec fn merge_input(data: Data) -> Seq<u8> {
    match data.as_slice_spec() {
        Some(b) => b,
        None => seq![],
    }
}

/// How the built-in `driver` merges the sides of `p`: any side that looks binary makes it a
/// binary merge. A binary merge of sides that agree (by id where both are backed by objects, else
/// by content) takes ours and is complete; otherwise it picks as `resolve_with` says.
pub open spec fn builtin_merge_spec(p: PlatformRef, driver: BuiltinDriver, resolve_with: Option<BinaryResolveWith>) -> BlobMerge {
    let driver = if driver != BuiltinDriver::Binary && (is_binary_spec(p.ancestor.data) || is_binary_spec(p.other.data)
        || is_binary_spec(p.current.data)) {
        BuiltinDriver::Binary
    } else {
        driver
    };
    if driver == BuiltinDriver::Binary {
        let same = if is_null(p.current.id@) || is_null(p.other.id@) {
            merge_input(p.current.data) == merge_input(p.other.data)
        } else {
            p.current.id@ == p.other.id@
        };
        if same {
            BlobMerge::Picked(Pick::Ours, Resolution::Complete)
        } else {
            BlobMerge::Picked(binary_merge_spec(resolve_with).0, binary_merge_spec(resolve_with).1)
        }
    } else {
        BlobMerge::Text(driver)
    }
}

/// How `p` is merged: by the configured driver program where the choice names one, else by the
/// built-in driver, the default one where an index names no program.
pub open spec fn blob_merge_spec(p: PlatformRef, resolve_with: Option<BinaryResolveWith>) -> BlobMerge {
    match p.driver {
        DriverChoice::Index(idx) => if idx < p.drivers@.len() {
            BlobMerge::External(idx)
        } else {
            builtin_merge_spec(p, BuiltinDriver::Text, resolve_with)
        },
        DriverChoice::BuiltIn(b) => builtin_merge_spec(p, b, resolve_with),
    }
}

/// `true` if `a` and `b` are the same id.
fn same_id(a: &ObjectId, b: &ObjectId) -> (r: bool)
    ensures
        r == (a@ == b@),
{
    slice_eq(a.bytes.as_slice(), b.bytes.as_slice())
}

impl<'parent> PlatformRef<'parent> {
    /// Decide how the built-in `driver` merges the sides, as [`builtin_merge_spec`] says; a text
    /// merge is left to the caller, which writes the merged buffer.
    pub fn builtin_merge(&self, driver: BuiltinDriver, resolve_with: Option<BinaryResolveWith>) -> (r: BlobMerge)
        ensures
            r == builtin_merge_spec(*self, driver, resolve_with),
    {
        let driver = if driver != BuiltinDriver::Binary && (is_binary_buf(self.ancestor.data) || is_binary_buf(
            self.other.data,
        ) || is_binary_buf(self.current.data)) {
            BuiltinDriver::Binary
        } else {
            driver
        };
        match driver {
            BuiltinDriver::Binary => {
                let ours_matches_theirs = if id_is_null(&self.current.id) || id_is_null(&self.other.id) {
                    let empty: [u8; 0] = [];
                    let ours = match self.current.data.as_slice() {
                        Some(b) => b,
                        None => &empty,
                    };
                    let theirs = match self.other.data.as_slice() {
                        Some(b) => b,
                        None => &empty,
                    };
                    assert(ours@ == merge_input(self.current.data));
                    assert(theirs@ == merge_input(self.other.data));
                    slice_eq(ours, theirs)
                } else {
                    same_id(&self.current.id, &self.other.id)
                };
                if ours_matches_theirs {
                    BlobMerge::Picked(Pick::Ours, Resolution::Complete)
                } else {
                    let (pick, resolution) = binary_merge(resolve_with);
                    BlobMerge::Picked(pick, resolution)
                }
            },
            BuiltinDriver::Text => BlobMerge::Text(BuiltinDriver::Text),
            BuiltinDriver::Union => BlobMerge::Text(BuiltinDriver::Union),
        }
    }

    /// Decide how the sides are merged, as [`blob_merge_spec`] says: with the configured driver
    /// program, or built in.
    pub fn merge(&self, resolve_with: Option<BinaryResolveWith>) -> (r: BlobMerge)
        ensures
            r == blob_merge_spec(*self, resolve_with),
    {
        match self.driver {
            DriverChoice::Index(idx) => if idx < self.drivers.len() {
                BlobMerge::External(idx)
            } else {
                self.builtin_merge(BuiltinDriver::default(), resolve_with)
            },
            DriverChoice::BuiltIn(b) => self.builtin_merge(b, resolve_with),
        }
    }
}

// ---------------------------------------------------------------------------------------------
// Running a configured driver program.

/// Which of the three sides of a merge a resource is.
#[derive(Debug, Clone, Copy, PartialEq, Eq, Structural)]
pub enum ResourceKind {
    /// Our side.
    CurrentOrOurs,
    /// The common ancestor.
    CommonAncestorOrBase,
    /// Their side.
    OtherOrTheirs,
}

/// The contents a driver program is given for the ancestor, our side and their side, or the
/// first of them, in that order, that is too large to be loaded; missing sides are empty.
pub open spec fn driver_inputs_spec(p: PlatformRef) -> Result<(Seq<u8>, Seq<u8>, Seq<u8>), ResourceKind> {
    match (p.ancestor.data.as_slice_spec(), p.current.data.as_slice_spec(), p.other.data.as_slice_spec()) {
        (None, _, _) => Err(ResourceKind::CommonAncestorOrBase),
        (Some(_), None, _) => Err(ResourceKind::CurrentOrOurs),
        (Some(_), Some(_), None) => Err(ResourceKind::OtherOrTheirs),
        (Some(a), Some(c), Some(o)) => Ok((a, c, o)),
    }
}

/// `value` quoted for a Bourne shell: in single quotes, where each `'` becomes `'\''` and each
/// `!` becomes `'\!'`.
pub open spec fn shell_quoted(value: Seq<u8>) -> Seq<u8> {
    seq![39u8] + shell_quoted_body(value) + seq![39u8]
}

/// The inside of [`shell_quoted`].
pub open spec fn shell_quoted_body(value: Seq<u8>) -> Seq<u8>
    decreases value.len(),
{
    if value.len() == 0 {
        seq![]
    } else {
        let c = value[0];
        let head = if c == 39u8 || c == 33u8 {
            seq![39u8, 92u8, c, 39u8]
        } else {
            seq![c]
        };
        head + shell_quoted_body(value.drop_first())
    }
}

/// Calls `gix_quote::single()` on `value`, which wraps it in single quotes and escapes each `'`
/// as `'\''` and each `!` as `'\!'`; the contract states just that.
#[verifier::external_body]
fn quote_single(value: &[u8]) -> (r: Vec<u8>)
    ensures
        r@ == shell_quoted(value@),
{
    gix_quote::single(bstr::BStr::new(value)).into()
}

/// What a driver program is told in place of the placeholders of its command line.
pub struct DriverPlaceholders<'a> {
    /// `%O`: the path of the file holding the ancestor.
    pub base_path: &'a [u8],
    /// `%A`: the path of the file holding our side, where the program leaves its result.
    pub ours_path: &'a [u8],
    /// `%B`: the path of the file holding their side.
    pub theirs_path: &'a [u8],
    /// `%L`: the size of conflict markers.
    pub marker_size: usize,
    /// `%P`: the path of the merged file in the worktree.
    pub rela_path: &'a [u8],
    /// `%S`, `%X` and `%Y`: the labels of the ancestor, of our side and of their side.
    pub ancestor: Option<&'a [u8]>,
    pub current: Option<&'a [u8]>,
    pub other: Option<&'a [u8]>,
}

/// `label`, or nothing.
pub open spec fn label_or_empty(label: Option<&[u8]>) -> Seq<u8> {
    match label {
        Some(l) => l@,
        None => seq![],
    }
}

/// What the placeholder `%c` stands for, if `c` names one: the paths of the three files as they
/// are, the marker size in decimal, and the worktree path and the labels quoted for the shell.
pub open spec fn placeholder(p: DriverPlaceholders, c: u8) -> Option<Seq<u8>> {
    if c == 79u8 {
        Some(p.base_path@)
    } else if c == 65u8 {
        Some(p.ours_path@)
    } else if c == 66u8 {
        Some(p.theirs_path@)
    } else if c == 76u8 {
        Some(crate::merge::tree::utils::decimal(p.marker_size as nat))
    } else if c == 80u8 {
        Some(shell_quoted(p.rela_path@))
    } else if c == 83u8 {
        Some(shell_quoted(label_or_empty(p.ancestor)))
    } else if c == 88u8 {
        Some(shell_quoted(label_or_empty(p.current)))
    } else if c == 89u8 {
        Some(shell_quoted(label_or_empty(p.other)))
    } else {
        None
    }
}

/// The command line `cmd` from `i` on with its placeholders replaced: `%` and a placeholder's
/// letter give what it stands for, and any other `%` stays as it is.
pub open spec fn expanded_from(cmd: Seq<u8>, p: DriverPlaceholders, i: int) -> Seq<u8>
    decreases cmd.len() - i,
{
    if i < 0 || i >= cmd.len() {
        seq![]
    } else if cmd[i] != 37u8 || i + 1 >= cmd.len() {
        seq![cmd[i]] + expanded_from(cmd, p, i + 1)
    } else {
        match placeholder(p, cmd[i + 1]) {
            Some(s) => s + expanded_from(cmd, p, i + 2),
            None => seq![37u8] + expanded_from(cmd, p, i + 1),
        }
    }
}

/// Append `src` to `out`.
fn append(out: &mut Vec<u8>, src: &[u8])
    ensures
        final(out)@ == old(out)@ + src@,
{
    let mut i: usize = 0;
    while i < src.len()
        invariant
            i <= src@.len(),
            out@ == old(out)@ + src@.subrange(0, i as int),
        decreases src.len() - i,
    {
        out.push(src[i]);
        i += 1;
        assert(out@ =~= old(out)@ + src@.subrange(0, i as int));
    }
    assert(src@.subrange(0, i as int) =~= src@);
}

impl<'parent> PlatformRef<'parent> {
    /// The contents to hand a driver program, as [`driver_inputs_spec`] says, or the kind of the
    /// first resource that is too large to be loaded.
    pub fn driver_inputs(&self) -> (r: Result<(&'parent [u8], &'parent [u8], &'parent [u8]), ResourceKind>)
        ensures
            match driver_inputs_spec(*self) {
                Ok((a, c, o)) => r matches Ok(x) && x.0@ == a && x.1@ == c && x.2@ == o,
                Err(k) => r == Err::<(&'parent [u8], &'parent [u8], &'parent [u8]), ResourceKind>(k),
            },
    {
        let base = match self.ancestor.data.as_slice() {
            Some(b) => b,
            None => {
                return Err(ResourceKind::CommonAncestorOrBase);
            },
        };
        let ours = match self.current.data.as_slice() {
            Some(b) => b,
            None => {
                return Err(ResourceKind::CurrentOrOurs);
            },
        };
        let theirs = match self.other.data.as_slice() {
            Some(b) => b,
            None => {
                return Err(ResourceKind::OtherOrTheirs);
            },
        };
        Ok((base, ours, theirs))
    }
}

/// The command line of a driver program: `merge_command` with its placeholders replaced, as
/// [`expanded_from`] says.
pub fn driver_command_line(merge_command: &[u8], p: &DriverPlaceholders) -> (r: Vec<u8>)
    ensures
        r@ == expanded_from(merge_command@, *p, 0),
{
    let mut out: Vec<u8> = Vec::new();
    let n = merge_command.len();
    let mut i: usize = 0;
    assert(out@ + expanded_from(merge_command@, *p, 0) =~= expanded_from(merge_command@, *p, 0));
    while i < n
        invariant
            n == merge_command@.len(),
            i <= n,
            out@ + expanded_from(merge_command@, *p, i as int) == expanded_from(merge_command@, *p, 0),
        decreases n - i,
    {
        let ghost before = out@;
        let c = merge_command[i];
        if c != 37u8 || i + 1 >= n {
            out.push(c);
            assert(out@ + expanded_from(merge_command@, *p, i + 1) =~= before + expanded_from(merge_command@, *p, i as int));
            i += 1;
        } else {
            let next = merge_command[i + 1];
            if next == 79u8 {
                append(&mut out, p.base_path);
            } else if next == 65u8 {
                append(&mut out, p.ours_path);
            } else if next == 66u8 {
                append(&mut out, p.theirs_path);
            } else if next == 76u8 {
                crate::merge::tree::utils::push_decimal(&mut out, p.marker_size);
            } else if next == 80u8 {
                let q = quote_single(p.rela_path);
                append(&mut out, q.as_slice());
            } else if next == 83u8 || next == 88u8 || next == 89u8 {
                let label = if next == 83u8 {
                    p.ancestor
                } else if next == 88u8 {
                    p.current
                } else {
                    p.other
                };
                let empty: [u8; 0] = [];
                let l = match label {
                    Some(l) => l,
                    None => &empty,
                };
                assert(l@ == label_or_empty(label));
                let q = quote_single(l);
                append(&mut out, q.as_slice());
            } else {
                out.push(37u8);
                assert(out@ + expanded_from(merge_command@, *p, i + 1) =~= before + expanded_from(merge_command@, *p, i as int));
                i += 1;
                continue;
            }
            assert(out@ + expanded_from(merge_command@, *p, i + 2) =~= before + expanded_from(merge_command@, *p, i as int));
            i += 2;
        }
    }
    assert(out@ =~= expanded_from(merge_command@, *p, 0));
    out
}

impl<'a> Data<'a> {
    /// The content of this data, unless it is too large to be loaded; missing data is empty.
    pub open spec fn as_slice_spec(self) -> Option<Seq<u8>> {
        match self {
            Data::Missing => Some(seq![]),
            Data::Buffer(b) => Some(b@),
            Data::TooLarge { .. } => None,
        }
    }
}

} // verus!
