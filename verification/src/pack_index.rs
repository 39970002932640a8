//! Opening pack index files (`*.idx`) from their bytes: header, fan-out table and layout validation.
use vstd::prelude::*;
use crate::hash::HashKind;

verus! {

/// The amount of entries in the fan-out table.
pub const FAN_LEN: usize = 256;

/// The version of a pack index file.
#[derive(Debug, Clone, Copy, PartialEq, Eq, Structural)]
pub enum IndexVersion {
    V1,
    V2,
}

/// Returned by [`IndexFile::from_data()`].
#[derive(Debug)]
pub enum IndexInitError {
    Io { path: Vec<u8> },
    Corrupt { message: String },
    UnsupportedVersion { version: u32 },
}

/// A pack index file as read from its bytes.
#[derive(Debug)]
pub struct IndexFile {
    pub data: Vec<u8>,
    pub path: Vec<u8>,
    pub version: IndexVersion,
    pub num_objects: u32,
    pub fan: Vec<u32>,
    pub hash_len: usize,
    pub object_hash: HashKind,
}

/// The big-endian `u32` at `at` in `s`.
pub open spec fn be_u32(s: Seq<u8>, at: int) -> int {
    s[at] as int * 0x1000000 + s[at + 1] as int * 0x10000 + s[at + 2] as int * 0x100 + s[at + 3] as int
}

/// Read the big-endian `u32` at `at`.
pub fn read_u32(d: &[u8], at: usize) -> (r: u32)
    requires
        at + 4 <= d.len(),
    ensures
        r == be_u32(d@, at as int),
{
    (d[at] as u32) * 0x1000000 + (d[at + 1] as u32) * 0x10000 + (d[at + 2] as u32) * 0x100 + (d[at + 3] as u32)
}

/// The 256 fan-out entries stored from `start` on.
pub open spec fn fan_at(d: Seq<u8>, start: int) -> Seq<u32> {
    Seq::new(FAN_LEN as nat, |i: int| be_u32(d, start + 4 * i) as u32)
}

/// Read the fan-out table at the start of `d`, returning it with the amount of consumed bytes.
fn read_fan(d: &[u8], start: usize) -> (r: (Vec<u32>, usize))
    requires
        start + FAN_LEN * 4 <= d.len(),
    ensures
        r.0@ == fan_at(d@, start as int),
        r.1 == FAN_LEN * 4,
{
    let mut fan: Vec<u32> = Vec::with_capacity(FAN_LEN);
    let mut i: usize = 0;
    while i < FAN_LEN
        invariant
            i <= FAN_LEN,
            start + FAN_LEN * 4 <= d.len(),
            fan@ =~= fan_at(d@, start as int).take(i as int),
        decreases FAN_LEN - i,
    {
        let v = read_u32(d, start + 4 * i);
        fan.push(v);
        i = i + 1;
        assert(fan@ =~= fan_at(d@, start as int).take(i as int));
    }
    assert(fan@ =~= fan_at(d@, start as int));
    (fan, FAN_LEN * 4)
}

/// `true` if no entry of `fan` is larger than the one after it.
pub open spec fn fan_is_monotonic(fan: Seq<u32>) -> bool {
    forall|i: int| 0 <= i < fan.len() - 1 ==> fan[i] <= #[trigger] fan[i + 1]
}

fn validate_fan(fan: &Vec<u32>) -> (r: Result<(), IndexInitError>)
    ensures
        r is Ok <==> fan_is_monotonic(fan@),
        r matches Err(e) ==> e matches IndexInitError::Corrupt { message }
            && message@ == "Pack index fan-out table must be monotonically increasing"@,
{
    let mut i: usize = 1;
    while i < fan.len()
        invariant
            1 <= i,
            forall|j: int| 0 <= j < i - 1 && j < fan@.len() - 1 ==> fan@[j] <= #[trigger] fan@[j + 1],
        decreases fan.len() - i,
    {
        if fan[i - 1] > fan[i] {
            assert(!fan_is_monotonic(fan@)) by {
                let j = (i - 1) as int;
                assert(fan@[j] > fan@[j + 1]);
            }
            return Err(IndexInitError::Corrupt {
                message: "Pack index fan-out table must be monotonically increasing".to_owned(),
            });
        }
        i = i + 1;
    }
    Ok(())
}

} // verus!

verus! {

/// Why the size of a pack index does not match its layout.
#[derive(Debug, Clone, Copy, PartialEq, Eq)]
pub enum LayoutProblem {
    V1Overflow,
    ObjectIdsOverflow,
    TablesOverflow,
    Offsets32Overflow,
    TooSmallForObjects,
    V2LayoutOverflow,
    LargeOffsetOutOfRange,
    WrongSize,
}

/// The size of the V2 header: signature, version and fan-out table.
pub open spec fn v2_header_size() -> int {
    4 + 4 + FAN_LEN * 4
}

/// The amount of the first `k` 32-bit offsets at `start` that have their high bit set, i.e. refer to a large offset.
pub open spec fn large_count(d: Seq<u8>, start: int, k: nat) -> nat
    decreases k,
{
    if k == 0 {
        0
    } else if be_u32(d, start + 4 * (k - 1)) >= 0x80000000 {
        large_count(d, start, (k - 1) as nat) + 1
    } else {
        large_count(d, start, (k - 1) as nat)
    }
}

/// The largest large-offset index referred to by the first `k` 32-bit offsets at `start`, or 0.
pub open spec fn large_max(d: Seq<u8>, start: int, k: nat) -> int
    decreases k,
{
    if k == 0 {
        0
    } else {
        let prev = large_max(d, start, (k - 1) as nat);
        let v = be_u32(d, start + 4 * (k - 1));
        if v >= 0x80000000 && v - 0x80000000 > prev {
            v - 0x80000000
        } else {
            prev
        }
    }
}

/// What is wrong with the size of the index `d` of `kind` with `n` objects and hashes of `h` bytes, if anything.
pub open spec fn layout_problem(d: Seq<u8>, kind: IndexVersion, n: int, h: int) -> Option<LayoutProblem> {
    let footer = 2 * h;
    match kind {
        IndexVersion::V1 => {
            let expected = FAN_LEN * 4 + n * (4 + h) + footer;
            if expected > usize::MAX {
                Some(LayoutProblem::V1Overflow)
            } else if d.len() != expected {
                Some(LayoutProblem::WrongSize)
            } else {
                None
            }
        },
        IndexVersion::V2 => {
            let oid_bytes = n * h;
            let table = n * 4;
            let start = v2_header_size() + oid_bytes + table;
            let end = start + table;
            if oid_bytes > usize::MAX {
                Some(LayoutProblem::ObjectIdsOverflow)
            } else if table > usize::MAX {
                Some(LayoutProblem::TablesOverflow)
            } else if end > usize::MAX {
                Some(LayoutProblem::Offsets32Overflow)
            } else if end > d.len() {
                Some(LayoutProblem::TooSmallForObjects)
            } else {
                let large = large_count(d, start, n as nat);
                let expected = end + large * 8 + footer;
                if expected > usize::MAX {
                    Some(LayoutProblem::V2LayoutOverflow)
                } else if large > 0 && large_max(d, start, n as nat) >= large {
                    Some(LayoutProblem::LargeOffsetOutOfRange)
                } else if d.len() != expected {
                    Some(LayoutProblem::WrongSize)
                } else {
                    None
                }
            }
        },
    }
}

/// The fixed message of a layout problem, if it has one.
pub open spec fn layout_problem_message(p: LayoutProblem) -> Option<Seq<char>> {
    match p {
        LayoutProblem::V1Overflow => Some("Pack index size overflowed while validating version 1 layout"@),
        LayoutProblem::ObjectIdsOverflow => Some("Pack index size overflowed while validating object ids"@),
        LayoutProblem::TablesOverflow => Some("Pack index size overflowed while validating 32-bit tables"@),
        LayoutProblem::Offsets32Overflow => Some("Pack index size overflowed while locating 32-bit offsets"@),
        LayoutProblem::V2LayoutOverflow => Some("Pack index size overflowed while validating version 2 layout"@),
        _ => None,
    }
}

/// Formats the message with std's `format!`; nothing is stated of the text it makes.
#[verifier::external_body]
fn message_too_small_for_objects(len: usize, num_objects: usize) -> String {
    format!("Pack index of size {len} is too small for {num_objects} objects in version 2")
}

/// Formats the message with std's `format!`; nothing is stated of the text it makes.
#[verifier::external_body]
fn message_large_offset_out_of_range(max_index: usize, large_offsets: usize) -> String {
    format!(
        "Pack index references large offset {max_index}, but only {large_offsets} large offsets are present"
    )
}

/// Formats the message with std's `format!`; nothing is stated of the text it makes.
#[verifier::external_body]
fn message_wrong_size(expected: usize, num_objects: usize, kind: &str, len: usize) -> String {
    format!(
        "Pack index size is incorrect, expected {expected} bytes for {num_objects} objects in version {kind}, but got {len} bytes"
    )
}

/// Formats the message with std's `format!`; nothing is stated of the text it makes.
#[verifier::external_body]
fn message_too_small_for_empty(len: usize) -> String {
    format!("Pack index of size {len} is too small for even an empty index")
}

/// Count the 32-bit offsets in `d[start..start + 4 * n]` that refer to large offsets, and the largest index referred to.
fn large_offset_stats(d: &[u8], start: usize, n: usize) -> (r: (usize, usize))
    requires
        start + 4 * n <= d.len(),
    ensures
        r.0 == large_count(d@, start as int, n as nat),
        r.1 == large_max(d@, start as int, n as nat),
{
    let mut count: usize = 0;
    let mut max: usize = 0;
    let mut j: usize = 0;
    while j < n
        invariant
            j <= n,
            start + 4 * n <= d.len(),
            count == large_count(d@, start as int, j as nat),
            count <= j,
            max == large_max(d@, start as int, j as nat),
            max < 0x80000000,
        decreases n - j,
    {
        let v = read_u32(d, start + 4 * j);
        if v >= 0x80000000 {
            count = count + 1;
            let idx = (v - 0x80000000) as usize;
            if idx > max {
                max = idx;
            }
        }
        j = j + 1;
    }
    (count, max)
}

} // verus!

verus! {

/// `true` if `e` is the corruption error of problem `p`, carrying its fixed message where it has one.
pub open spec fn is_layout_error(e: IndexInitError, p: LayoutProblem) -> bool {
    &&& e matches IndexInitError::Corrupt { message }
    &&& (layout_problem_message(p) matches Some(m) ==> message@ == m)
}

fn validate_size(data: &[u8], kind: IndexVersion, num_objects: u32, hash_len: usize) -> (r: Result<(), IndexInitError>)
    requires
        hash_len == 20 || hash_len == 32,
    ensures
        match layout_problem(data@, kind, num_objects as int, hash_len as int) {
            None => r is Ok,
            Some(p) => r matches Err(e) && is_layout_error(e, p),
        },
{
    let n = num_objects as usize;
    let footer_size = hash_len * 2;
    let expected_size: usize = match kind {
        IndexVersion::V1 => {
            let per_object = 4 + hash_len;
            let objects = n.checked_mul(per_object);
            match objects {
                None => {
                    return Err(IndexInitError::Corrupt {
                        message: "Pack index size overflowed while validating version 1 layout".to_owned(),
                    });
                },
                Some(objects) => {
                    let total = objects.checked_add(FAN_LEN * 4);
                    match total {
                        None => {
                            return Err(IndexInitError::Corrupt {
                                message: "Pack index size overflowed while validating version 1 layout".to_owned(),
                            });
                        },
                        Some(total) => match total.checked_add(footer_size) {
                            None => {
                                return Err(IndexInitError::Corrupt {
                                    message: "Pack index size overflowed while validating version 1 layout".to_owned(),
                                });
                            },
                            Some(t) => t,
                        },
                    }
                },
            }
        },
        IndexVersion::V2 => {
            let v2_header_size: usize = 4 + 4 + FAN_LEN * 4;
            let oid_bytes = match n.checked_mul(hash_len) {
                None => {
                    return Err(IndexInitError::Corrupt {
                        message: "Pack index size overflowed while validating object ids".to_owned(),
                    });
                },
                Some(v) => v,
            };
            let table_bytes = match n.checked_mul(4) {
                None => {
                    return Err(IndexInitError::Corrupt {
                        message: "Pack index size overflowed while validating 32-bit tables".to_owned(),
                    });
                },
                Some(v) => v,
            };
            if oid_bytes > usize::MAX - v2_header_size || table_bytes > usize::MAX - v2_header_size - oid_bytes {
                return Err(IndexInitError::Corrupt {
                    message: "Pack index size overflowed while locating 32-bit offsets".to_owned(),
                });
            }
            let offset32_start = v2_header_size + oid_bytes + table_bytes;
            if table_bytes > usize::MAX - offset32_start {
                return Err(IndexInitError::Corrupt {
                    message: "Pack index size overflowed while locating 32-bit offsets".to_owned(),
                });
            }
            let offset32_end = offset32_start + table_bytes;
            if offset32_end > data.len() {
                return Err(IndexInitError::Corrupt { message: message_too_small_for_objects(data.len(), n) });
            }
            let (large_offsets, max_large_offset_index) = large_offset_stats(data, offset32_start, n);
            if large_offsets > (usize::MAX - offset32_end) / 8 {
                return Err(IndexInitError::Corrupt {
                    message: "Pack index size overflowed while validating version 2 layout".to_owned(),
                });
            }
            let with_large = offset32_end + large_offsets * 8;
            if footer_size > usize::MAX - with_large {
                return Err(IndexInitError::Corrupt {
                    message: "Pack index size overflowed while validating version 2 layout".to_owned(),
                });
            }
            if large_offsets > 0 && max_large_offset_index >= large_offsets {
                return Err(IndexInitError::Corrupt {
                    message: message_large_offset_out_of_range(max_large_offset_index, large_offsets),
                });
            }
            with_large + footer_size
        },
    };
    if data.len() != expected_size {
        return Err(IndexInitError::Corrupt {
            message: message_wrong_size(
                expected_size,
                n,
                match kind {
                    IndexVersion::V1 => "V1",
                    IndexVersion::V2 => "V2",
                },
                data.len(),
            ),
        });
    }
    Ok(())
}

/// The `i`-th 32-bit offset of the table at `start`.
pub open spec fn offset32_at(d: Seq<u8>, start: int, i: int) -> int {
    be_u32(d, start + 4 * i)
}

/// Offsets without their high bit refer to no large offset.
proof fn lemma_no_large_offsets(d: Seq<u8>, start: int, k: nat)
    requires
        forall|i: int| 0 <= i < k ==> #[trigger] offset32_at(d, start, i) < 0x80000000,
    ensures
        large_count(d, start, k) == 0,
    decreases k,
{
    if k > 0 {
        assert(offset32_at(d, start, k - 1) < 0x80000000);
        lemma_no_large_offsets(d, start, (k - 1) as nat);
    }
}

/// A version 2 index is accepted when its size is that of its layout: the signature and version,
/// a monotonic fan-out table of 256 entries whose last one counts the `n` objects, `n` object ids
/// of `h` bytes, `n` CRC32 values, `n` 32-bit offsets none of which refers to a large offset, and
/// the pack and index checksums of `h` bytes each.
pub proof fn lemma_v2_index_accepted(d: Seq<u8>, h: int)
    requires
        h == 20 || h == 32,
        d.len() <= usize::MAX,
        d.take(4) == seq![0xffu8, 0x74u8, 0x4fu8, 0x63u8],
        be_u32(d, 4) == 2,
        fan_is_monotonic(fan_at(d, 8)),
        d.len() == 8 + 1024 + fan_at(d, 8)[255] as int * (h + 4 + 4) + 2 * h,
        forall|i: int|
            0 <= i < fan_at(d, 8)[255] as int ==> #[trigger] offset32_at(d, 8 + 1024 + fan_at(d, 8)[255] as int * (h + 4), i)
                < 0x80000000,
    ensures
        index_header(d, h) == Ok::<(IndexVersion, int), Option<u32>>((IndexVersion::V2, 8)),
        layout_problem(d, IndexVersion::V2, fan_at(d, 8)[255] as int, h) is None,
{
    let n = fan_at(d, 8)[255] as int;
    assert(n >= 0);
    assert(n * (h + 4 + 4) == n * h + n * 4 + n * 4 && n * (h + 4) == n * h + n * 4 && n * h >= 0) by (nonlinear_arith)
        requires
            n >= 0,
            h >= 0,
    ;
    assert(d.take(4) =~= v2_signature());
    let start = v2_header_size() + n * h + n * 4;
    assert(start == 8 + 1024 + n * (h + 4));
    lemma_no_large_offsets(d, start, n as nat);
}

/// A version 2 index whose size is not that of its layout is refused: with the same signature,
/// version, fan-out table and 32-bit offsets as an accepted one, any other length is a layout
/// problem.
pub proof fn lemma_v2_index_of_wrong_size_refused(d: Seq<u8>, h: int)
    requires
        h == 20 || h == 32,
        d.len() <= usize::MAX,
        d.len() >= 8 + 1024 + fan_at(d, 8)[255] as int * (h + 4 + 4),
        d.len() != 8 + 1024 + fan_at(d, 8)[255] as int * (h + 4 + 4) + 2 * h,
        forall|i: int|
            0 <= i < fan_at(d, 8)[255] as int ==> #[trigger] offset32_at(d, 8 + 1024 + fan_at(d, 8)[255] as int * (h + 4), i)
                < 0x80000000,
    ensures
        layout_problem(d, IndexVersion::V2, fan_at(d, 8)[255] as int, h) is Some,
{
    let n = fan_at(d, 8)[255] as int;
    assert(n >= 0);
    assert(n * (h + 4 + 4) == n * h + n * 4 + n * 4 && n * (h + 4) == n * h + n * 4 && n * h >= 0) by (nonlinear_arith)
        requires
            n >= 0,
            h >= 0,
    ;
    let start = v2_header_size() + n * h + n * 4;
    assert(start == 8 + 1024 + n * (h + 4));
    lemma_no_large_offsets(d, start, n as nat);
}

/// The V2 signature at the start of a pack index.
pub open spec fn v2_signature() -> Seq<u8> {
    seq![0xffu8, 0x74u8, 0x4fu8, 0x63u8]
}

/// What [`IndexFile::from_data`] yields, in terms of where the fan-out table starts: `Ok((version, fan_start))`,
/// `Err(None)` if the data is too small, or `Err(Some(v))` for an unsupported version `v`.
pub open spec fn index_header(d: Seq<u8>, h: int) -> Result<(IndexVersion, int), Option<u32>> {
    if d.len() < FAN_LEN * 4 + 2 * h {
        Err(None)
    } else if d.take(4) == v2_signature() {
        if be_u32(d, 4) != 2 {
            Err(Some(be_u32(d, 4) as u32))
        } else {
            Ok((IndexVersion::V2, 8))
        }
    } else {
        Ok((IndexVersion::V1, 0))
    }
}

impl IndexFile {
    /// Instantiate an index file from `data` as assumed to be read or memory-mapped from `path`.
    pub fn from_data(data: Vec<u8>, path: Vec<u8>, object_hash: HashKind) -> (r: Result<IndexFile, IndexInitError>)
        ensures
            match index_header(data@, object_hash.spec_len_in_bytes() as int) {
                Err(None) => r matches Err(IndexInitError::Corrupt { .. }),
                Err(Some(v)) => r matches Err(IndexInitError::UnsupportedVersion { version }) && version == v,
                Ok((kind, fan_start)) => {
                    let fan = fan_at(data@, fan_start);
                    if !fan_is_monotonic(fan) {
                        r matches Err(IndexInitError::Corrupt { message })
                            && message@ == "Pack index fan-out table must be monotonically increasing"@
                    } else {
                        match layout_problem(data@, kind, fan[255] as int, object_hash.spec_len_in_bytes() as int) {
                            Some(p) => r matches Err(e) && is_layout_error(e, p),
                            None => r matches Ok(file) && {
                                &&& file.data@ == data@
                                &&& file.path@ == path@
                                &&& file.version == kind
                                &&& file.num_objects == fan[255]
                                &&& file.fan@ == fan
                                &&& file.hash_len == object_hash.spec_len_in_bytes()
                                &&& file.object_hash == object_hash
                            },
                        }
                    }
                },
            },
    {
        let idx_len = data.len();
        let hash_len = object_hash.len_in_bytes();
        let footer_size = hash_len * 2;
        if idx_len < FAN_LEN * 4 + footer_size {
            return Err(IndexInitError::Corrupt { message: message_too_small_for_empty(idx_len) });
        }
        let is_v2 = data[0] == 0xff && data[1] == 0x74 && data[2] == 0x4f && data[3] == 0x63;
        proof {
            assert(is_v2 <==> data@.take(4) == v2_signature()) by {
                if data@.take(4) == v2_signature() {
                    assert(data@.take(4)[0] == data@[0]);
                    assert(data@.take(4)[1] == data@[1]);
                    assert(data@.take(4)[2] == data@[2]);
                    assert(data@.take(4)[3] == data@[3]);
                }
                if is_v2 {
                    assert(data@.take(4) =~= v2_signature());
                }
            }
        }
        let (kind, fan_start) = if is_v2 {
            let version = read_u32(&data, 4);
            if version != 2 {
                return Err(IndexInitError::UnsupportedVersion { version });
            }
            (IndexVersion::V2, 8usize)
        } else {
            (IndexVersion::V1, 0usize)
        };
        let (fan, _bytes_read) = read_fan(&data, fan_start);
        let num_objects = fan[FAN_LEN - 1];
        validate_fan(&fan)?;
        validate_size(&data, kind, num_objects, hash_len)?;
        Ok(IndexFile { data, path, version: kind, num_objects, fan, hash_len, object_hash })
    }
}

} // verus!
