//! Pack entry headers: the object type and size prefix of each entry, and the base reference of deltas.
use vstd::prelude::*;

use crate::hash::{HashKind, ObjectId};

verus! {

/// The numeric type id of a commit entry.
pub const COMMIT: u8 = 1;
/// The numeric type id of a tree entry.
pub const TREE: u8 = 2;
/// The numeric type id of a blob entry.
pub const BLOB: u8 = 3;
/// The numeric type id of a tag entry.
pub const TAG: u8 = 4;
/// The numeric type id of a delta entry whose base is addressed by a distance in the pack.
pub const OFS_DELTA: u8 = 6;
/// The numeric type id of a delta entry whose base is addressed by its object id.
pub const REF_DELTA: u8 = 7;

/// The error returned when decoding an entry header.
#[derive(Debug, Clone, Copy, PartialEq, Eq)]
pub enum Error {
    UnsupportedType { type_id: u8 },
    Corrupt { message: &'static str },
    Overflow,
}

/// The kind of a pack entry, with the base of deltas.
#[derive(Debug, Clone, PartialEq, Eq)]
pub enum Header {
    Commit,
    Tree,
    Blob,
    Tag,
    RefDelta { base_id: ObjectId },
    OfsDelta { base_distance: u64 },
}

/// A [`Header`] with its object id taken by value.
pub enum HeaderView {
    Commit,
    Tree,
    Blob,
    Tag,
    RefDelta { base_id: Seq<u8> },
    OfsDelta { base_distance: u64 },
}

impl View for Header {
    type V = HeaderView;

    open spec fn view(&self) -> HeaderView {
        match self {
            Header::Commit => HeaderView::Commit,
            Header::Tree => HeaderView::Tree,
            Header::Blob => HeaderView::Blob,
            Header::Tag => HeaderView::Tag,
            Header::RefDelta { base_id } => HeaderView::RefDelta { base_id: base_id@ },
            Header::OfsDelta { base_distance } => HeaderView::OfsDelta { base_distance: *base_distance },
        }
    }
}

/// A decoded pack entry header.
#[derive(Debug, Clone, PartialEq, Eq)]
pub struct Entry {
    /// The kind of entry, with the base of deltas.
    pub header: Header,
    /// The size of the object once decompressed (for deltas: of the delta instructions).
    pub decompressed_size: u64,
    /// The offset in the pack at which the compressed data of this entry starts.
    pub data_offset: u64,
    /// The amount of bytes the header occupies in the pack, as encoded.
    pub encoded_header_size: u16,
}

/// An [`Entry`] with its header taken by view.
pub struct EntryView {
    pub header: HeaderView,
    pub decompressed_size: u64,
    pub data_offset: u64,
    pub encoded_header_size: u16,
}

impl View for Entry {
    type V = EntryView;

    open spec fn view(&self) -> EntryView {
        EntryView {
            header: self.header@,
            decompressed_size: self.decompressed_size,
            data_offset: self.data_offset,
            encoded_header_size: self.encoded_header_size,
        }
    }
}

// ---------------------------------------------------------------------------------------------
// The size header: a type id and the low size bits in the first byte, 7 more size bits per
// continuation byte.

/// The state of a header that is read byte by byte.
#[derive(Debug, Clone, Copy, PartialEq, Eq)]
pub struct HeaderState {
    /// The type id taken from the first byte.
    pub type_id: u8,
    /// The size accumulated so far.
    pub size: u64,
    /// The bit position at which the next continuation byte lands.
    pub shift: u32,
    /// The last byte read: the header continues while its high bit is set.
    pub last: u8,
    /// The amount of bytes read so far.
    pub consumed: usize,
}

impl HeaderState {
    /// The state after reading the first header byte `c`.
    pub open spec fn spec_first(c: u8) -> HeaderState {
        HeaderState { type_id: (c >> 4u8) & 7u8, size: (c as u64) & 15u64, shift: 4, last: c, consumed: 1 }
    }

    /// `true` if no more bytes belong to the header.
    pub open spec fn spec_is_complete(self) -> bool {
        self.last & 0x80 == 0
    }

    /// The state after reading the continuation byte `c`.
    pub open spec fn spec_next(self, c: u8) -> Result<HeaderState, Error> {
        if self.shift >= 64 {
            Err(Error::Overflow)
        } else {
            let component = ((c & 0x7f) as u64) << (self.shift as u64);
            if self.size + component > u64::MAX {
                Err(Error::Overflow)
            } else {
                Ok(
                    HeaderState {
                        type_id: self.type_id,
                        size: (self.size + component) as u64,
                        shift: (self.shift + 7) as u32,
                        last: c,
                        consumed: (self.consumed + 1) as usize,
                    },
                )
            }
        }
    }

    /// The states that [`HeaderState::first`] and [`HeaderState::next`] produce: the shift follows
    /// from the amount of bytes read, which keeps both far from their limits.
    pub open spec fn wf(self) -> bool {
        &&& 1 <= self.consumed
        &&& self.shift == 4 + 7 * (self.consumed - 1)
        &&& self.type_id < 8
    }

    /// Start decoding a header whose first byte is `c`.
    pub fn first(c: u8) -> (r: HeaderState)
        ensures
            r == HeaderState::spec_first(c),
            r.wf(),
    {
        let r = HeaderState { type_id: (c >> 4u8) & 7u8, size: (c as u64) & 15u64, shift: 4, last: c, consumed: 1 };
        assert((c >> 4u8) & 7u8 < 8) by (bit_vector);
        r
    }

    /// `true` if the header is complete and no more bytes belong to it.
    pub fn is_complete(&self) -> (r: bool)
        ensures
            r == self.spec_is_complete(),
    {
        self.last & 0x80 == 0
    }

    /// Continue decoding with the continuation byte `c`, failing if the size doesn't fit into a `u64`.
    pub fn next(&self, c: u8) -> (r: Result<HeaderState, Error>)
        requires
            self.wf(),
        ensures
            r == self.spec_next(c),
            r matches Ok(s) ==> s.wf(),
    {
        if self.shift >= 64 {
            return Err(Error::Overflow);
        }
        let component: u64 = ((c & 0x7f) as u64) << (self.shift as u64);
        if self.size > u64::MAX - component {
            return Err(Error::Overflow);
        }
        Ok(
            HeaderState {
                type_id: self.type_id,
                size: self.size + component,
                shift: self.shift + 7,
                last: c,
                consumed: self.consumed + 1,
            },
        )
    }
}

/// Continue decoding the header in `d` from state `s`, whose next byte is at `i`.
pub open spec fn header_run(d: Seq<u8>, i: nat, s: HeaderState) -> Result<HeaderState, Error>
    decreases d.len() - i,
{
    if s.spec_is_complete() {
        Ok(s)
    } else if i >= d.len() {
        Err(Error::Corrupt { message: "pack entry header continuation byte" })
    } else {
        match s.spec_next(d[i as int]) {
            Err(e) => Err(e),
            Ok(t) => header_run(d, i + 1, t),
        }
    }
}

/// The header at the start of `d`: its type id, the decompressed size and the amount of bytes it occupies.
pub open spec fn parse_header_info_spec(d: Seq<u8>) -> Result<(u8, u64, usize), Error> {
    if d.len() == 0 {
        Err(Error::Corrupt { message: "need a pack entry header, got empty input" })
    } else {
        match header_run(d, 1, HeaderState::spec_first(d[0])) {
            Err(e) => Err(e),
            Ok(s) => Ok((s.type_id, s.size, s.consumed)),
        }
    }
}

/// A decoded header lies within `d` and occupies at most ten bytes.
pub proof fn lemma_header_run_bounds(d: Seq<u8>, i: nat, s: HeaderState)
    requires
        s.consumed == i,
        i <= d.len(),
        s.wf(),
        s.shift <= 70,
    ensures
        header_run(d, i, s) matches Ok(t) ==> i <= t.consumed <= d.len() && t.wf() && t.shift <= 70,
    decreases d.len() - i,
{
    if !s.spec_is_complete() && i < d.len() {
        if let Ok(t) = s.spec_next(d[i as int]) {
            lemma_header_run_bounds(d, i + 1, t);
        }
    }
}

/// What [`parse_header_info`] consumes lies within `d` and is at most ten bytes.
pub proof fn lemma_parse_header_info_bounds(d: Seq<u8>)
    ensures
        parse_header_info_spec(d) matches Ok((type_id, _size, consumed)) ==> 1 <= consumed <= d.len()
            && consumed <= 10 && type_id < 8,
{
    if d.len() > 0 {
        let c = d[0];
        assert((c >> 4u8) & 7u8 < 8) by (bit_vector);
        lemma_header_run_bounds(d, 1, HeaderState::spec_first(d[0]));
    }
}

/// Parses the header of a pack entry, yielding object type id, decompressed object size, and consumed bytes.
pub fn parse_header_info(data: &[u8]) -> (r: Result<(u8, u64, usize), Error>)
    ensures
        r == parse_header_info_spec(data@),
{
    if data.len() == 0 {
        return Err(Error::Corrupt { message: "need a pack entry header, got empty input" });
    }
    let mut state = HeaderState::first(data[0]);
    while !state.is_complete()
        invariant
            state.wf(),
            1 <= state.consumed <= data.len(),
            header_run(data@, state.consumed as nat, state) == header_run(
                data@,
                1,
                HeaderState::spec_first(data@[0]),
            ),
        decreases data.len() - state.consumed,
    {
        if state.consumed >= data.len() {
            return Err(Error::Corrupt { message: "pack entry header continuation byte" });
        }
        let c = data[state.consumed];
        match state.next(c) {
            Err(e) => {
                return Err(e);
            },
            Ok(s) => {
                state = s;
            },
        }
    }
    Ok((state.type_id, state.size, state.consumed))
}

// ---------------------------------------------------------------------------------------------
// The distance of an ofs-delta to its base: 7 bits per byte, most significant group first, with
// an offset of one added per continuation so that no two encodings denote the same distance.

/// The state of an ofs-delta base distance that is read byte by byte.
#[derive(Debug, Clone, Copy, PartialEq, Eq)]
pub struct Leb64State {
    /// The distance accumulated so far.
    pub value: u64,
    /// The last byte read: the encoding continues while its high bit is set.
    pub last: u8,
    /// The amount of bytes read so far.
    pub consumed: usize,
}

impl Leb64State {
    /// The state after reading the first byte `c`.
    pub open spec fn spec_first(c: u8) -> Leb64State {
        Leb64State { value: (c as u64) & 0x7fu64, last: c, consumed: 1 }
    }

    /// `true` if no more bytes belong to the distance.
    pub open spec fn spec_is_complete(self) -> bool {
        self.last & 0x80 == 0
    }

    /// The state after reading the continuation byte `c`.
    pub open spec fn spec_next(self, c: u8) -> Result<Leb64State, Error> {
        if self.value == u64::MAX {
            Err(Error::Overflow)
        } else {
            let shifted = ((self.value + 1) as u64) << 7u64;
            let low = (c as u64) & 0x7fu64;
            if shifted + low > u64::MAX {
                Err(Error::Overflow)
            } else {
                Ok(Leb64State { value: (shifted + low) as u64, last: c, consumed: (self.consumed + 1) as usize })
            }
        }
    }

    /// Start decoding a distance whose first byte is `c`.
    pub fn first(c: u8) -> (r: Leb64State)
        ensures
            r == Leb64State::spec_first(c),
    {
        Leb64State { value: (c as u64) & 0x7f, last: c, consumed: 1 }
    }

    /// `true` if the distance is complete and no more bytes belong to it.
    pub fn is_complete(&self) -> (r: bool)
        ensures
            r == self.spec_is_complete(),
    {
        self.last & 0x80 == 0
    }

    /// Continue decoding with the continuation byte `c`, failing if the distance doesn't fit into a `u64`.
    pub fn next(&self, c: u8) -> (r: Result<Leb64State, Error>)
        requires
            self.consumed < usize::MAX,
        ensures
            r == self.spec_next(c),
    {
        if self.value == u64::MAX {
            return Err(Error::Overflow);
        }
        let shifted: u64 = (self.value + 1) << 7u64;
        let low: u64 = (c as u64) & 0x7f;
        if shifted > u64::MAX - low {
            return Err(Error::Overflow);
        }
        Ok(Leb64State { value: shifted + low, last: c, consumed: self.consumed + 1 })
    }
}

/// Continue decoding the distance in `d` from state `s`, whose next byte is at `i`.
pub open spec fn leb64_run(d: Seq<u8>, i: nat, s: Leb64State) -> Result<Leb64State, Error>
    decreases d.len() - i,
{
    if s.spec_is_complete() {
        Ok(s)
    } else if i >= d.len() {
        Err(Error::Corrupt { message: "an ofs-delta base distance continuation byte" })
    } else {
        match s.spec_next(d[i as int]) {
            Err(e) => Err(e),
            Ok(t) => leb64_run(d, i + 1, t),
        }
    }
}

/// The ofs-delta base distance at the start of `d` and the amount of bytes it occupies.
pub open spec fn parse_leb64_spec(d: Seq<u8>) -> Result<(u64, usize), Error> {
    if d.len() == 0 {
        Err(Error::Corrupt { message: "an ofs-delta base distance" })
    } else {
        match leb64_run(d, 1, Leb64State::spec_first(d[0])) {
            Err(e) => Err(e),
            Ok(s) => Ok((s.value, s.consumed)),
        }
    }
}

/// A decoded distance lies within `d`.
pub proof fn lemma_leb64_run_bounds(d: Seq<u8>, i: nat, s: Leb64State)
    requires
        s.consumed == i,
        i <= d.len() <= usize::MAX,
    ensures
        leb64_run(d, i, s) matches Ok(t) ==> i <= t.consumed <= d.len(),
    decreases d.len() - i,
{
    if !s.spec_is_complete() && i < d.len() {
        if let Ok(t) = s.spec_next(d[i as int]) {
            lemma_leb64_run_bounds(d, i + 1, t);
        }
    }
}

/// What [`parse_leb64`] consumes lies within `d`.
pub proof fn lemma_parse_leb64_bounds(d: Seq<u8>)
    requires
        d.len() <= usize::MAX,
    ensures
        parse_leb64_spec(d) matches Ok((_value, consumed)) ==> 1 <= consumed <= d.len(),
{
    if d.len() > 0 {
        lemma_leb64_run_bounds(d, 1, Leb64State::spec_first(d[0]));
    }
}

/// Parses the base distance of an ofs-delta, yielding the distance and the consumed bytes.
pub fn parse_leb64(data: &[u8]) -> (r: Result<(u64, usize), Error>)
    ensures
        r == parse_leb64_spec(data@),
{
    if data.len() == 0 {
        return Err(Error::Corrupt { message: "an ofs-delta base distance" });
    }
    let mut state = Leb64State::first(data[0]);
    while !state.is_complete()
        invariant
            1 <= state.consumed <= data.len(),
            leb64_run(data@, state.consumed as nat, state) == leb64_run(data@, 1, Leb64State::spec_first(data@[0])),
        decreases data.len() - state.consumed,
    {
        if state.consumed >= data.len() {
            return Err(Error::Corrupt { message: "an ofs-delta base distance continuation byte" });
        }
        let c = data[state.consumed];
        match state.next(c) {
            Err(e) => {
                return Err(e);
            },
            Ok(s) => {
                state = s;
            },
        }
    }
    Ok((state.value, state.consumed))
}

/// The header length as stored in an [`Entry`], if it fits.
pub open spec fn encoded_header_size_spec(consumed: usize) -> Result<u16, Error> {
    if consumed <= u16::MAX {
        Ok(consumed as u16)
    } else {
        Err(Error::Corrupt { message: "entry header size does not fit into u16" })
    }
}

/// Convert the amount of bytes a header occupies into the width stored in an [`Entry`].
pub fn encoded_header_size(consumed: usize) -> (r: Result<u16, Error>)
    ensures
        r == encoded_header_size_spec(consumed),
{
    if consumed <= 65535 {
        Ok(consumed as u16)
    } else {
        Err(Error::Corrupt { message: "entry header size does not fit into u16" })
    }
}

/// The entry whose kind is `header` and whose whole header occupies `consumed` bytes.
pub open spec fn finish_entry(
    header: HeaderView,
    size: u64,
    pack_offset: u64,
    consumed: int,
) -> Result<EntryView, Error> {
    if consumed > u16::MAX {
        Err(Error::Corrupt { message: "entry header size does not fit into u16" })
    } else {
        Ok(
            EntryView {
                header,
                decompressed_size: size,
                data_offset: (pack_offset + consumed) as u64,
                encoded_header_size: consumed as u16,
            },
        )
    }
}

/// The entry that [`Entry::from_bytes`] decodes from `d`.
pub open spec fn entry_from_bytes_spec(d: Seq<u8>, pack_offset: u64, object_hash: HashKind) -> Result<
    EntryView,
    Error,
> {
    match parse_header_info_spec(d) {
        Err(e) => Err(e),
        Ok((type_id, size, consumed)) => {
            let hash_len = object_hash.spec_len_in_bytes();
            if type_id == OFS_DELTA {
                match parse_leb64_spec(d.subrange(consumed as int, d.len() as int)) {
                    Err(e) => Err(e),
                    Ok((distance, leb_bytes)) => finish_entry(
                        HeaderView::OfsDelta { base_distance: distance },
                        size,
                        pack_offset,
                        consumed + leb_bytes,
                    ),
                }
            } else if type_id == REF_DELTA {
                if d.len() - consumed < hash_len {
                    Err(Error::Corrupt { message: "ref-delta base object id" })
                } else {
                    finish_entry(
                        HeaderView::RefDelta { base_id: d.subrange(consumed as int, consumed + hash_len) },
                        size,
                        pack_offset,
                        consumed + hash_len,
                    )
                }
            } else if type_id == BLOB {
                finish_entry(HeaderView::Blob, size, pack_offset, consumed as int)
            } else if type_id == TREE {
                finish_entry(HeaderView::Tree, size, pack_offset, consumed as int)
            } else if type_id == COMMIT {
                finish_entry(HeaderView::Commit, size, pack_offset, consumed as int)
            } else if type_id == TAG {
                finish_entry(HeaderView::Tag, size, pack_offset, consumed as int)
            } else {
                Err(Error::UnsupportedType { type_id })
            }
        },
    }
}

impl Entry {
    /// Decode an entry from the given entry data `d`, providing the `pack_offset` to allow tracking
    /// the start of the entry data section.
    pub fn from_bytes(d: &[u8], pack_offset: u64, object_hash: HashKind) -> (r: Result<Entry, Error>)
        requires
            pack_offset + d.len() <= u64::MAX,
        ensures
            match r {
                Ok(e) => entry_from_bytes_spec(d@, pack_offset, object_hash) == Ok::<EntryView, Error>(e@),
                Err(e) => entry_from_bytes_spec(d@, pack_offset, object_hash) == Err::<EntryView, Error>(e),
            },
    {
        proof {
            lemma_parse_header_info_bounds(d@);
        }
        let (type_id, size, mut consumed) = match parse_header_info(d) {
            Ok(info) => info,
            Err(e) => {
                return Err(e);
            },
        };
        let hash_len = object_hash.len_in_bytes();
        let header = if type_id == OFS_DELTA {
            proof {
                lemma_parse_leb64_bounds(d@.subrange(consumed as int, d.len() as int));
            }
            let (distance, leb_bytes) = match parse_leb64(&d[consumed..d.len()]) {
                Ok(v) => v,
                Err(e) => {
                    return Err(e);
                },
            };
            consumed += leb_bytes;
            Header::OfsDelta { base_distance: distance }
        } else if type_id == REF_DELTA {
            if d.len() - consumed < hash_len {
                return Err(Error::Corrupt { message: "ref-delta base object id" });
            }
            let hash = &d[consumed..consumed + hash_len];
            let base_id = match crate::hash::object_id_from_bytes(hash) {
                Some(id) => id,
                None => {
                    return Err(Error::Corrupt { message: "unsupported object hash length" });
                },
            };
            consumed += hash_len;
            Header::RefDelta { base_id }
        } else if type_id == BLOB {
            Header::Blob
        } else if type_id == TREE {
            Header::Tree
        } else if type_id == COMMIT {
            Header::Commit
        } else if type_id == TAG {
            Header::Tag
        } else {
            return Err(Error::UnsupportedType { type_id });
        };
        let data_offset = pack_offset + consumed as u64;
        let encoded = match encoded_header_size(consumed) {
            Ok(v) => v,
            Err(e) => {
                return Err(e);
            },
        };
        Ok(Entry { header, decompressed_size: size, data_offset, encoded_header_size: encoded })
    }
}

/// The amount of 7-bit groups needed to encode the non-zero value `n`, none for zero.
pub open spec fn size_groups(n: u64) -> nat
    decreases n,
{
    if n == 0 {
        0
    } else {
        proof {
            assert(n >> 7u64 < n) by (bit_vector)
                requires
                    n != 0u64,
            ;
        }
        1 + size_groups(n >> 7u64)
    }
}

/// The amount of continuation bytes of an ofs-delta distance whose value above the lowest 7 bits is `n`.
pub open spec fn ofs_extra_bytes(n: u64) -> nat
    decreases n,
{
    if n == 0 {
        0
    } else {
        proof {
            assert(((n - 1) as u64) >> 7u64 < n) by (bit_vector)
                requires
                    n != 0u64,
            ;
        }
        1 + ofs_extra_bytes(((n - 1) as u64) >> 7u64)
    }
}

/// The length of the canonical encoding of a header of kind `h` for an object of `size` bytes:
/// the size bytes, then the base object id or the base distance of deltas.
pub open spec fn header_size_spec(h: HeaderView, size: u64) -> nat {
    1 + size_groups(size >> 4u64) + match h {
        HeaderView::RefDelta { base_id } => base_id.len(),
        HeaderView::OfsDelta { base_distance } => 1 + ofs_extra_bytes(base_distance >> 7u64),
        _ => 0,
    }
}

impl Header {
    /// The amount of bytes the canonical encoding of this header takes for an object of
    /// `decompressed_size` bytes.
    pub fn size(&self, decompressed_size: u64) -> (r: usize)
        requires
            header_size_spec(self@, decompressed_size) <= usize::MAX,
        ensures
            r == header_size_spec(self@, decompressed_size),
    {
        let mut n: u64 = decompressed_size >> 4u64;
        let mut count: usize = 1;
        while n != 0
            invariant
                count + size_groups(n) == 1 + size_groups(decompressed_size >> 4u64),
                header_size_spec(self@, decompressed_size) <= usize::MAX,
            decreases n,
        {
            assert(n >> 7u64 < n) by (bit_vector)
                requires
                    n != 0u64,
            ;
            n = n >> 7u64;
            count = count + 1;
        }
        match self {
            Header::RefDelta { base_id } => count + base_id.bytes.len(),
            Header::OfsDelta { base_distance } => {
                let mut m: u64 = *base_distance >> 7u64;
                let mut extra: usize = 1;
                while m != 0
                    invariant
                        extra + ofs_extra_bytes(m) == 1 + ofs_extra_bytes(*base_distance >> 7u64),
                        count + 1 + ofs_extra_bytes(*base_distance >> 7u64) <= usize::MAX,
                    decreases m,
                {
                    assert(((m - 1) as u64) >> 7u64 < m) by (bit_vector)
                        requires
                            m != 0u64,
                    ;
                    m = (m - 1) >> 7u64;
                    extra = extra + 1;
                }
                count + extra
            },
            _ => count,
        }
    }
}

impl Entry {
    /// The amount of bytes used to describe this entry in the pack, as it was encoded.
    pub fn header_size(&self) -> (r: usize)
        ensures
            r == self.encoded_header_size,
    {
        self.encoded_header_size as usize
    }

    /// The pack offset at which this entry starts.
    pub fn pack_offset(&self) -> (r: u64)
        requires
            self.encoded_header_size <= self.data_offset,
        ensures
            r == self.data_offset - self.encoded_header_size,
    {
        self.data_offset - self.encoded_header_size as u64
    }

    /// The pack offset of the base of an ofs-delta `distance` bytes before this entry, if it lies
    /// within the pack.
    pub fn checked_base_pack_offset(&self, distance: u64) -> (r: Option<u64>)
        requires
            self.encoded_header_size <= self.data_offset,
        ensures
            r == (if distance <= self.data_offset - self.encoded_header_size {
                Some((self.data_offset - self.encoded_header_size - distance) as u64)
            } else {
                None
            }),
    {
        let pack_offset = self.pack_offset();
        if distance <= pack_offset {
            Some(pack_offset - distance)
        } else {
            None
        }
    }
}

/// An entry decoded at `pack_offset` starts there: its data offset lies exactly its encoded
/// header size beyond `pack_offset`, whatever encoding of the size the header used.
pub proof fn lemma_from_bytes_keeps_pack_offset(d: Seq<u8>, pack_offset: u64, object_hash: HashKind)
    requires
        pack_offset + d.len() <= u64::MAX,
        d.len() <= usize::MAX,
    ensures
        entry_from_bytes_spec(d, pack_offset, object_hash) matches Ok(e) ==> e.encoded_header_size
            <= e.data_offset && e.data_offset - e.encoded_header_size == pack_offset,
{
    lemma_parse_header_info_bounds(d);
    if let Ok((type_id, size, consumed)) = parse_header_info_spec(d) {
        if type_id == OFS_DELTA {
            lemma_parse_leb64_bounds(d.subrange(consumed as int, d.len() as int));
        }
    }
}

} // verus!
