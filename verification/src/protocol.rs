//! The lines of git's fetch protocol that need parsing: acknowledgements, shallow updates and
//! wanted refs, the ref prefixes sent with `ls-refs`, the refs a server advertises, and the kind of
//! hash it uses.
use vstd::prelude::*;
use vstd::string::StringSliceAdditionalSpecFns;

use crate::bytes::{
    after_first_field, field_end, find_byte, find_byte_from, first_field, lemma_find_byte_from, slice_eq,
    slice_find_byte_from,
};
use crate::hash::{hex_decoded, is_hex_object_id, null_id, null_of, HashKind, ObjectId};

verus! {

/// `ready`
pub open spec fn ready_word() -> Seq<u8> {
    seq![114u8, 101, 97, 100, 121]
}

/// `NAK`
pub open spec fn nak_word() -> Seq<u8> {
    seq![78u8, 65, 75]
}

/// `ACK`
pub open spec fn ack_word() -> Seq<u8> {
    seq![65u8, 67, 75]
}

/// `common`
pub open spec fn common_word() -> Seq<u8> {
    seq![99u8, 111, 109, 109, 111, 110]
}

/// `shallow`
pub open spec fn shallow_word() -> Seq<u8> {
    seq![115u8, 104, 97, 108, 108, 111, 119]
}

/// `unshallow`
pub open spec fn unshallow_word() -> Seq<u8> {
    seq![117u8, 110, 115, 104, 97, 108, 108, 111, 119]
}

/// What `str::trim_end()` leaves of `s` once trailing Unicode whitespace is removed.
pub uninterp spec fn unicode_trim_end(s: Seq<char>) -> Seq<char>;

/// Calls `str::trim_end()`, which removes trailing characters with the Unicode `White_Space`
/// property; the contract names its result.
#[verifier::external_body]
fn trim_end(s: &str) -> (r: &str)
    ensures
        r@ == unicode_trim_end(s@),
{
    s.trim_end()
}

/// The UTF-8 bytes of `line` without trailing whitespace.
pub open spec fn trimmed_bytes(line: &str) -> Seq<u8> {
    vstd::utf8::encode_utf8(unicode_trim_end(line@))
}

/// The bytes of `line` without trailing whitespace.
fn trimmed(line: &str) -> (r: &[u8])
    ensures
        r@ == trimmed_bytes(line),
        r@.len() <= usize::MAX,
{
    let r = trim_end(line).as_bytes();
    assert(r@.len() == r.len());
    r
}

/// The version of the protocol.
#[derive(Debug, Clone, Copy, PartialEq, Eq, Structural)]
pub enum Protocol {
    V0,
    V1,
    V2,
}

/// The error returned when parsing the lines of a fetch response.
#[derive(Debug, Clone, PartialEq, Eq)]
pub enum Error {
    /// The server doesn't support `feature`, which is required.
    MissingServerCapability { feature: &'static str },
    /// `line` is of no known kind.
    UnknownLineType { line: String },
    /// `header` names no known section.
    UnknownSectionHeader { header: String },
}

/// The error for the unknown `line`.
fn unknown_line(line: &str) -> (r: Error)
    ensures
        r matches Error::UnknownLineType { line: l } && l@ == line@,
{
    Error::UnknownLineType { line: line.to_owned() }
}

// ---------------------------------------------------------------------------------------------
// Acknowledgements.

/// An 'ACK' line received from the server.
#[derive(PartialEq, Eq, Debug, Clone)]
pub enum Acknowledgement {
    /// The contained `id` is in common.
    Common(ObjectId),
    /// The server is ready to receive more lines.
    Ready,
    /// The server isn't ready yet.
    Nak,
}

/// An [`Acknowledgement`] with its id taken by value.
pub enum AcknowledgementView {
    Common(Seq<u8>),
    Ready,
    Nak,
}

impl View for Acknowledgement {
    type V = AcknowledgementView;

    open spec fn view(&self) -> AcknowledgementView {
        match self {
            Acknowledgement::Common(id) => AcknowledgementView::Common(id@),
            Acknowledgement::Ready => AcknowledgementView::Ready,
            Acknowledgement::Nak => AcknowledgementView::Nak,
        }
    }
}

/// The acknowledgement that the trimmed line `t` holds: `ready`, `NAK`, or `ACK <id>` optionally
/// followed by `common` or `ready`; `None` for any other line.
pub open spec fn acknowledgement_spec(t: Seq<u8>) -> Option<AcknowledgementView> {
    let first = first_field(t);
    if first == ready_word() {
        Some(AcknowledgementView::Ready)
    } else if first == nak_word() {
        Some(AcknowledgementView::Nak)
    } else if first == ack_word() {
        match after_first_field(t) {
            None => None,
            Some(rest) => {
                let id = first_field(rest);
                if !is_hex_object_id(id) {
                    None
                } else {
                    match after_first_field(rest) {
                        None => Some(AcknowledgementView::Common(hex_decoded(id))),
                        Some(description) => if description == common_word() {
                            Some(AcknowledgementView::Common(hex_decoded(id)))
                        } else if description == ready_word() {
                            Some(AcknowledgementView::Ready)
                        } else {
                            None
                        },
                    }
                }
            },
        }
    } else {
        None
    }
}

/// The end of the first space-separated field of `t`, and where the rest starts, if it has one.
fn split_first_field(t: &[u8]) -> (r: (usize, Option<usize>))
    requires
        t@.len() <= usize::MAX,
    ensures
        r.0 == field_end(t@, 0),
        r.0 <= t@.len(),
        match r.1 {
            Some(s) => s == r.0 + 1 && s <= t@.len() && after_first_field(t@) == Some(t@.subrange(s as int, t@.len() as int)),
            None => after_first_field(t@) is None && r.0 == t@.len(),
        },
{
    proof {
        lemma_find_byte_from(t@, 32, 0);
    }
    match slice_find_byte_from(t, 32, 0) {
        Some(i) => (i, Some(i + 1)),
        None => (t.len(), None),
    }
}

impl Acknowledgement {
    /// Parse an `Acknowledgement` from a `line` as received to the server.
    pub fn from_line(line: &str) -> (r: Result<Acknowledgement, Error>)
        ensures
            match acknowledgement_spec(trimmed_bytes(line)) {
                Some(a) => r matches Ok(ack) && ack@ == a,
                None => r matches Err(Error::UnknownLineType { line: l }) && l@ == line@,
            },
    {
        let ready: [u8; 5] = [114, 101, 97, 100, 121];
        let nak: [u8; 3] = [78, 65, 75];
        let ack: [u8; 3] = [65, 67, 75];
        let common: [u8; 6] = [99, 111, 109, 109, 111, 110];
        assert(ready@ == ready_word());
        assert(nak@ == nak_word());
        assert(ack@ == ack_word());
        assert(common@ == common_word());
        let t = trimmed(line);
        let (e1, rest_start) = split_first_field(t);
        let first = &t[0..e1];
        if slice_eq(first, &ready) {
            return Ok(Acknowledgement::Ready);
        }
        if slice_eq(first, &nak) {
            return Ok(Acknowledgement::Nak);
        }
        if !slice_eq(first, &ack) {
            return Err(unknown_line(line));
        }
        let rest = match rest_start {
            None => {
                return Err(unknown_line(line));
            },
            Some(s) => &t[s..t.len()],
        };
        let (e2, description_start) = split_first_field(rest);
        let id = match ObjectId::from_hex(&rest[0..e2]) {
            Some(id) => id,
            None => {
                return Err(unknown_line(line));
            },
        };
        match description_start {
            None => Ok(Acknowledgement::Common(id)),
            Some(s) => {
                let description = &rest[s..rest.len()];
                if slice_eq(description, &common) {
                    Ok(Acknowledgement::Common(id))
                } else if slice_eq(description, &ready) {
                    Ok(Acknowledgement::Ready)
                } else {
                    Err(unknown_line(line))
                }
            },
        }
    }

    /// Returns the hash of the acknowledged object if this instance acknowledges a common one.
    pub fn id(&self) -> (r: Option<&ObjectId>)
        ensures
            match self {
                Acknowledgement::Common(id) => r == Some(id),
                _ => r is None,
            },
    {
        match self {
            Acknowledgement::Common(id) => Some(id),
            _ => None,
        }
    }
}

// ---------------------------------------------------------------------------------------------
// Shallow updates and wanted refs.

/// An update of the shallow boundary of the repository.
#[derive(PartialEq, Eq, Debug, Clone)]
pub enum ShallowUpdate {
    /// The commit with this id becomes shallow.
    Shallow(ObjectId),
    /// The commit with this id is no longer shallow.
    Unshallow(ObjectId),
}

/// A [`ShallowUpdate`] with its id taken by value.
pub enum ShallowUpdateView {
    Shallow(Seq<u8>),
    Unshallow(Seq<u8>),
}

impl View for ShallowUpdate {
    type V = ShallowUpdateView;

    open spec fn view(&self) -> ShallowUpdateView {
        match self {
            ShallowUpdate::Shallow(id) => ShallowUpdateView::Shallow(id@),
            ShallowUpdate::Unshallow(id) => ShallowUpdateView::Unshallow(id@),
        }
    }
}

/// The shallow update that the trimmed line `t` holds: `shallow <id>` or `unshallow <id>`.
pub open spec fn shallow_update_spec(t: Seq<u8>) -> Option<ShallowUpdateView> {
    match find_byte(t, 32) {
        None => None,
        Some(i) => {
            let prefix = t.subrange(0, i);
            let id = t.subrange(i + 1, t.len() as int);
            if !is_hex_object_id(id) {
                None
            } else if prefix == shallow_word() {
                Some(ShallowUpdateView::Shallow(hex_decoded(id)))
            } else if prefix == unshallow_word() {
                Some(ShallowUpdateView::Unshallow(hex_decoded(id)))
            } else {
                None
            }
        },
    }
}

/// Parse a `ShallowUpdate` from a `line` as received to the server.
pub fn shallow_update_from_line(line: &str) -> (r: Result<ShallowUpdate, Error>)
    ensures
        match shallow_update_spec(trimmed_bytes(line)) {
            Some(u) => r matches Ok(update) && update@ == u,
            None => r matches Err(Error::UnknownLineType { line: l }) && l@ == line@,
        },
{
    let shallow: [u8; 7] = [115, 104, 97, 108, 108, 111, 119];
    let unshallow: [u8; 9] = [117, 110, 115, 104, 97, 108, 108, 111, 119];
    assert(shallow@ == shallow_word());
    assert(unshallow@ == unshallow_word());
    let t = trimmed(line);
    proof {
        lemma_find_byte_from(t@, 32, 0);
    }
    match slice_find_byte_from(t, 32, 0) {
        None => Err(unknown_line(line)),
        Some(i) => {
            let id = match ObjectId::from_hex(&t[i + 1..t.len()]) {
                Some(id) => id,
                None => {
                    return Err(unknown_line(line));
                },
            };
            let prefix = &t[0..i];
            if slice_eq(prefix, &shallow) {
                Ok(ShallowUpdate::Shallow(id))
            } else if slice_eq(prefix, &unshallow) {
                Ok(ShallowUpdate::Unshallow(id))
            } else {
                Err(unknown_line(line))
            }
        },
    }
}

/// A wanted-ref line received from the server.
#[derive(PartialEq, Eq, Debug, Clone)]
pub struct WantedRef {
    /// The object id of the wanted ref, as seen by the server.
    pub id: ObjectId,
    /// The name of the ref, as requested by the client as a `want-ref` argument.
    pub path: Vec<u8>,
}

/// The wanted ref that the trimmed line `t` holds: `<id> <path>`, as id and path.
pub open spec fn wanted_ref_spec(t: Seq<u8>) -> Option<(Seq<u8>, Seq<u8>)> {
    match find_byte(t, 32) {
        None => None,
        Some(i) => {
            let id = t.subrange(0, i);
            if is_hex_object_id(id) {
                Some((hex_decoded(id), t.subrange(i + 1, t.len() as int)))
            } else {
                None
            }
        },
    }
}

impl WantedRef {
    /// Parse a `WantedRef` from a `line` as received from the server.
    pub fn from_line(line: &str) -> (r: Result<WantedRef, Error>)
        ensures
            match wanted_ref_spec(trimmed_bytes(line)) {
                Some((id, path)) => r matches Ok(w) && w.id@ == id && w.path@ == path,
                None => r matches Err(Error::UnknownLineType { line: l }) && l@ == line@,
            },
    {
        let t = trimmed(line);
        proof {
            lemma_find_byte_from(t@, 32, 0);
        }
        match slice_find_byte_from(t, 32, 0) {
            None => Err(unknown_line(line)),
            Some(i) => match ObjectId::from_hex(&t[0..i]) {
                Some(id) => Ok(WantedRef { id, path: crate::bytes::copy_range(t, i + 1, t.len()) }),
                None => Err(unknown_line(line)),
            },
        }
    }
}

// ---------------------------------------------------------------------------------------------
// Responses.

/// A feature that is negotiated with the server, with an optional value.
pub type Feature = (&'static str, Option<Vec<u8>>);

/// `true` if a feature named by the bytes `name` is among `features`.
pub open spec fn has_feature(features: Seq<Feature>, name: Seq<u8>) -> bool {
    exists|i: int| 0 <= i < features.len() && (#[trigger] features[i]).0.spec_bytes() == name
}

/// `multi_ack_detailed`
pub open spec fn multi_ack_detailed() -> Seq<u8> {
    seq![109u8, 117, 108, 116, 105, 95, 97, 99, 107, 95, 100, 101, 116, 97, 105, 108, 101, 100]
}

/// `side-band`
pub open spec fn side_band() -> Seq<u8> {
    seq![115u8, 105, 100, 101, 45, 98, 97, 110, 100]
}

/// `side-band-64k`
pub open spec fn side_band_64k() -> Seq<u8> {
    seq![115u8, 105, 100, 101, 45, 98, 97, 110, 100, 45, 54, 52, 107]
}

/// `true` if a feature named `name` is among `features`.
fn contains_feature(features: &[Feature], name: &[u8]) -> (r: bool)
    ensures
        r == has_feature(features@, name@),
{
    let mut i: usize = 0;
    while i < features.len()
        invariant
            i <= features@.len(),
            forall|j: int| 0 <= j < i ==> (#[trigger] features@[j]).0.spec_bytes() != name@,
        decreases features.len() - i,
    {
        if slice_eq(features[i].0.as_bytes(), name) {
            assert(features@[i as int].0.spec_bytes() == name@);
            return true;
        }
        i += 1;
    }
    false
}

/// The response to a fetch request.
#[derive(Debug, Clone, PartialEq, Eq)]
pub struct Response {
    acks: Vec<Acknowledgement>,
    shallows: Vec<ShallowUpdate>,
    wanted_refs: Vec<WantedRef>,
    has_pack: bool,
}

impl Response {
    /// Whether a pack follows the response.
    pub closed spec fn spec_has_pack(&self) -> bool {
        self.has_pack
    }

    /// The acknowledgements that were received.
    pub closed spec fn spec_acks(&self) -> Seq<Acknowledgement> {
        self.acks@
    }

    /// The shallow updates that were received.
    pub closed spec fn spec_shallows(&self) -> Seq<ShallowUpdate> {
        self.shallows@
    }

    /// The wanted refs that were received.
    pub closed spec fn spec_wanted_refs(&self) -> Seq<WantedRef> {
        self.wanted_refs@
    }

    /// A response made of what was received.
    pub fn new(
        acks: Vec<Acknowledgement>,
        shallows: Vec<ShallowUpdate>,
        wanted_refs: Vec<WantedRef>,
        has_pack: bool,
    ) -> (r: Response)
        ensures
            r.spec_acks() == acks@,
            r.spec_shallows() == shallows@,
            r.spec_wanted_refs() == wanted_refs@,
            r.spec_has_pack() == has_pack,
    {
        Response { acks, shallows, wanted_refs, has_pack }
    }

    /// Return true if the response has a pack which can be read next.
    pub fn has_pack(&self) -> (r: bool)
        ensures
            r == self.spec_has_pack(),
    {
        self.has_pack
    }

    /// Return all acknowledgements parsed previously.
    pub fn acknowledgements(&self) -> (r: &[Acknowledgement])
        ensures
            r@ == self.spec_acks(),
    {
        self.acks.as_slice()
    }

    /// Return all shallow update lines parsed previously.
    pub fn shallow_updates(&self) -> (r: &[ShallowUpdate])
        ensures
            r@ == self.spec_shallows(),
    {
        self.shallows.as_slice()
    }

    /// Return all wanted-refs parsed previously.
    pub fn wanted_refs(&self) -> (r: &[WantedRef])
        ensures
            r@ == self.spec_wanted_refs(),
    {
        self.wanted_refs.as_slice()
    }

    /// Append the given `updates` which may have been obtained from a V1 handshake.
    ///
    /// In V2, these are received as part of the pack, but V1 sends them early, so we
    /// offer to re-integrate them here.
    pub fn append_v1_shallow_updates(&mut self, updates: Option<Vec<ShallowUpdate>>)
        ensures
            final(self).spec_shallows() == old(self).spec_shallows() + match updates {
                Some(u) => u@,
                None => Seq::<ShallowUpdate>::empty(),
            },
            final(self).spec_acks() == old(self).spec_acks(),
            final(self).spec_wanted_refs() == old(self).spec_wanted_refs(),
            final(self).spec_has_pack() == old(self).spec_has_pack(),
    {
        if let Some(mut u) = updates {
            let ghost before = self.shallows@;
            let ghost added = u@;
            self.shallows.append(&mut u);
            assert(self.shallows@ =~= before + added);
        } else {
            assert(self.shallows@ =~= self.shallows@ + Seq::<ShallowUpdate>::empty());
        }
    }

    /// Return an error if the given `features` don't contain the ones this implementation needs
    /// for the given `version` of the protocol: V0 and V1 need `multi_ack_detailed` and a side-band.
    pub fn check_required_features(version: Protocol, features: &[Feature]) -> (r: Result<(), Error>)
        ensures
            version == Protocol::V2 ==> r is Ok,
            version != Protocol::V2 ==> if !has_feature(features@, multi_ack_detailed()) {
                r == Err::<(), Error>(Error::MissingServerCapability { feature: "multi_ack_detailed" })
            } else if !has_feature(features@, side_band()) && !has_feature(features@, side_band_64k()) {
                r == Err::<(), Error>(Error::MissingServerCapability { feature: "side-band OR side-band-64k" })
            } else {
                r is Ok
            },
    {
        match version {
            Protocol::V0 | Protocol::V1 => {
                let multi_ack: [u8; 18] = [
                    109, 117, 108, 116, 105, 95, 97, 99, 107, 95, 100, 101, 116, 97, 105, 108, 101, 100,
                ];
                let band: [u8; 9] = [115, 105, 100, 101, 45, 98, 97, 110, 100];
                let band_64k: [u8; 13] = [115, 105, 100, 101, 45, 98, 97, 110, 100, 45, 54, 52, 107];
                assert(multi_ack@ == multi_ack_detailed());
                assert(band@ == side_band());
                assert(band_64k@ == side_band_64k());
                if !contains_feature(features, &multi_ack) {
                    return Err(Error::MissingServerCapability { feature: "multi_ack_detailed" });
                }
                if !contains_feature(features, &band) && !contains_feature(features, &band_64k) {
                    return Err(Error::MissingServerCapability { feature: "side-band OR side-band-64k" });
                }
            },
            Protocol::V2 => {},
        }
        Ok(())
    }
}

/// Acknowledgements taken by value.
pub open spec fn acks_view(acks: Seq<Acknowledgement>) -> Seq<AcknowledgementView> {
    acks.map_values(|a: Acknowledgement| a@)
}

/// Shallow updates taken by value.
pub open spec fn shallows_view(s: Seq<ShallowUpdate>) -> Seq<ShallowUpdateView> {
    s.map_values(|u: ShallowUpdate| u@)
}

/// `true` if `acks` already acknowledge `id` as common.
pub open spec fn acknowledges(acks: Seq<AcknowledgementView>, id: Seq<u8>) -> bool {
    exists|j: int| 0 <= j < acks.len() && acks[j] == AcknowledgementView::Common(id)
}

/// `true` if `acks` already acknowledge `id` as common.
fn already_acknowledged(acks: &Vec<Acknowledgement>, id: &ObjectId) -> (r: bool)
    ensures
        r == acknowledges(acks_view(acks@), id@),
{
    let mut i: usize = 0;
    while i < acks.len()
        invariant
            i <= acks@.len(),
            forall|j: int| 0 <= j < i ==> acks_view(acks@)[j] != AcknowledgementView::Common(id@),
        decreases acks.len() - i,
    {
        if let Acknowledgement::Common(other) = &acks[i] {
            if slice_eq(other.bytes.as_slice(), id.bytes.as_slice()) {
                assert(acks_view(acks@)[i as int] == AcknowledgementView::Common(id@));
                return true;
            }
        }
        i += 1;
    }
    false
}

/// Read the peeked V1 line as an acknowledgement, keeping only the first acknowledgement of each
/// common id, or else as a shallow update. Any other line is assumed to start the pack, which is
/// what `true` says.
pub fn parse_v1_ack_or_shallow_or_assume_pack(
    acks: &mut Vec<Acknowledgement>,
    shallows: &mut Vec<ShallowUpdate>,
    peeked_line: &str,
) -> (r: bool)
    ensures
        match acknowledgement_spec(trimmed_bytes(peeked_line)) {
            Some(a) => {
                &&& !r
                &&& shallows_view(final(shallows)@) == shallows_view(old(shallows)@)
                &&& acks_view(final(acks)@) == (match a {
                    AcknowledgementView::Common(id) => if acknowledges(acks_view(old(acks)@), id) {
                        acks_view(old(acks)@)
                    } else {
                        acks_view(old(acks)@).push(a)
                    },
                    _ => acks_view(old(acks)@).push(a),
                })
            },
            None => match shallow_update_spec(trimmed_bytes(peeked_line)) {
                Some(u) => {
                    &&& !r
                    &&& acks_view(final(acks)@) == acks_view(old(acks)@)
                    &&& shallows_view(final(shallows)@) == shallows_view(old(shallows)@).push(u)
                },
                None => r && acks_view(final(acks)@) == acks_view(old(acks)@) && shallows_view(final(shallows)@)
                    == shallows_view(old(shallows)@),
            },
        },
{
    match Acknowledgement::from_line(peeked_line) {
        Ok(ack) => {
            let ghost before = acks@;
            let push = match ack.id() {
                Some(id) => !already_acknowledged(acks, id),
                None => true,
            };
            if push {
                acks.push(ack);
                assert(acks_view(acks@) =~= acks_view(before).push(ack@));
            }
            false
        },
        Err(_) => match shallow_update_from_line(peeked_line) {
            Ok(shallow) => {
                let ghost before = shallows@;
                shallows.push(shallow);
                assert(shallows_view(shallows@) =~= shallows_view(before).push(shallow@));
                false
            },
            Err(_) => true,
        },
    }
}

// ---------------------------------------------------------------------------------------------
// Ref prefixes for `ls-refs`.

/// The prefixes sent to the server to filter the refs it lists, each at most once, in the order
/// they were first given.
pub struct RefPrefixes {
    prefixes: Vec<Vec<u8>>,
}

/// Byte strings taken by value.
pub open spec fn byte_strings(v: Seq<Vec<u8>>) -> Seq<Seq<u8>> {
    v.map_values(|p: Vec<u8>| p@)
}

/// `existing` extended by those of `added` that it doesn't hold yet, in order, each once.
pub open spec fn extend_unique(existing: Seq<Seq<u8>>, added: Seq<Seq<u8>>) -> Seq<Seq<u8>>
    decreases added.len(),
{
    if added.len() == 0 {
        existing
    } else {
        let before = extend_unique(existing, added.drop_last());
        if before.contains(added.last()) {
            before
        } else {
            before.push(added.last())
        }
    }
}

/// `true` if no element of `s` occurs twice.
pub open spec fn no_duplicates(s: Seq<Seq<u8>>) -> bool {
    forall|i: int, j: int| 0 <= i < j < s.len() ==> s[i] != s[j]
}

/// The argument line `ref-prefix <prefix>`.
pub open spec fn ref_prefix_arg(prefix: Seq<u8>) -> Seq<u8> {
    seq![114u8, 101, 102, 45, 112, 114, 101, 102, 105, 120, 32] + prefix
}

impl View for RefPrefixes {
    type V = Seq<Seq<u8>>;

    closed spec fn view(&self) -> Seq<Seq<u8>> {
        byte_strings(self.prefixes@)
    }
}

impl RefPrefixes {
    /// Create an empty set of prefixes.
    pub fn new() -> (r: RefPrefixes)
        ensures
            r@ == Seq::<Seq<u8>>::empty(),
    {
        let r = RefPrefixes { prefixes: Vec::new() };
        assert(r@ =~= Seq::<Seq<u8>>::empty());
        r
    }

    /// Add the prefixes of `iter` that aren't present yet, keeping the order in which they were first seen.
    pub fn extend(&mut self, iter: Vec<Vec<u8>>)
        ensures
            final(self)@ == extend_unique(old(self)@, byte_strings(iter@)),
    {
        let ghost added = byte_strings(iter@);
        let ghost start = self@;
        let mut i: usize = 0;
        while i < iter.len()
            invariant
                i <= iter@.len(),
                added == byte_strings(iter@),
                self@ == extend_unique(start, added.take(i as int)),
            decreases iter.len() - i,
        {
            let prefix = &iter[i];
            let mut found = false;
            let mut k: usize = 0;
            while k < self.prefixes.len()
                invariant
                    k <= self.prefixes@.len(),
                    found == exists|j: int| 0 <= j < k && self@[j] == prefix@,
                decreases self.prefixes.len() - k,
            {
                if slice_eq(self.prefixes[k].as_slice(), prefix.as_slice()) {
                    assert(self@[k as int] == prefix@);
                    found = true;
                }
                k += 1;
            }
            assert(added.take(i + 1).drop_last() =~= added.take(i as int));
            assert(added.take(i + 1).last() == prefix@);
            if !found {
                let ghost before = self.prefixes@;
                self.prefixes.push(crate::bytes::copy_range(prefix.as_slice(), 0, prefix.len()));
                assert(self@ =~= byte_strings(before).push(prefix@)) by {
                    assert(prefix@.subrange(0, prefix@.len() as int) =~= prefix@);
                }
            } else {
                assert(self@.contains(prefix@));
            }
            i += 1;
        }
        assert(added.take(i as int) =~= added);
    }

    /// The arguments to send, `ref-prefix <prefix>` for each prefix, in order.
    pub fn into_args(self) -> (r: Vec<Vec<u8>>)
        ensures
            byte_strings(r@) == self@.map_values(|p: Seq<u8>| ref_prefix_arg(p)),
    {
        let mut out: Vec<Vec<u8>> = Vec::new();
        let mut i: usize = 0;
        while i < self.prefixes.len()
            invariant
                i <= self.prefixes@.len(),
                byte_strings(out@) == self@.take(i as int).map_values(|p: Seq<u8>| ref_prefix_arg(p)),
            decreases self.prefixes.len() - i,
        {
            let mut arg: Vec<u8> = vec![114, 101, 102, 45, 112, 114, 101, 102, 105, 120, 32];
            let prefix = &self.prefixes[i];
            let mut k: usize = 0;
            while k < prefix.len()
                invariant
                    k <= prefix@.len(),
                    arg@ == seq![114u8, 101, 102, 45, 112, 114, 101, 102, 105, 120, 32] + prefix@.take(k as int),
                decreases prefix.len() - k,
            {
                arg.push(prefix[k]);
                k += 1;
                assert(arg@ =~= seq![114u8, 101, 102, 45, 112, 114, 101, 102, 105, 120, 32] + prefix@.take(
                    k as int,
                ));
            }
            assert(prefix@.take(k as int) =~= prefix@);
            let ghost before = out@;
            out.push(arg);
            assert(byte_strings(out@) =~= byte_strings(before).push(ref_prefix_arg(self@[i as int])));
            assert(self@.take(i + 1).map_values(|p: Seq<u8>| ref_prefix_arg(p)) =~= self@.take(i as int).map_values(
                |p: Seq<u8>| ref_prefix_arg(p),
            ).push(ref_prefix_arg(self@[i as int])));
            i += 1;
        }
        assert(self@.take(i as int) =~= self@);
        out
    }
}

/// Extending keeps what was there in front and in order, adds every new prefix, and adds nothing twice.
pub proof fn lemma_extend_unique(existing: Seq<Seq<u8>>, added: Seq<Seq<u8>>)
    requires
        no_duplicates(existing),
    ensures
        no_duplicates(extend_unique(existing, added)),
        extend_unique(existing, added).len() >= existing.len(),
        extend_unique(existing, added).take(existing.len() as int) == existing,
        forall|i: int| 0 <= i < added.len() ==> extend_unique(existing, added).contains(#[trigger] added[i]),
        forall|p: Seq<u8>| extend_unique(existing, added).contains(p) ==> existing.contains(p) || added.contains(p),
    decreases added.len(),
{
    if added.len() > 0 {
        let rest = added.drop_last();
        lemma_extend_unique(existing, rest);
        let before = extend_unique(existing, rest);
        let after = extend_unique(existing, added);
        assert forall|i: int| 0 <= i < added.len() implies after.contains(#[trigger] added[i]) by {
            if i < added.len() - 1 {
                assert(rest[i] == added[i]);
                let k = choose|k: int| 0 <= k < before.len() && before[k] == added[i];
                if !before.contains(added.last()) {
                    assert(after[k] == added[i]);
                }
            } else if before.contains(added.last()) {
            } else {
                assert(after[before.len() as int] == added.last());
            }
        }
        assert forall|p: Seq<u8>| after.contains(p) implies existing.contains(p) || added.contains(p) by {
            let k = choose|k: int| 0 <= k < after.len() && after[k] == p;
            if k < before.len() {
                assert(before.contains(p));
                if rest.contains(p) {
                    let m = choose|m: int| 0 <= m < rest.len() && rest[m] == p;
                    assert(added[m] == p);
                }
            } else {
                assert(added[added.len() - 1] == p);
            }
        }
        if !before.contains(added.last()) {
            assert(after.take(existing.len() as int) =~= before.take(existing.len() as int));
        }
    }
}

// ---------------------------------------------------------------------------------------------
// References advertised by a server.

/// A reference as a server advertises it before sending a pack.
#[derive(Debug, Clone, PartialEq, Eq)]
pub enum Ref {
    /// A ref pointing to a tag object, which in turn points to `object`.
    Peeled { full_ref_name: Vec<u8>, tag: ObjectId, object: ObjectId },
    /// A ref pointing directly to `object`.
    Direct { full_ref_name: Vec<u8>, object: ObjectId },
    /// A symbolic ref pointing to the ref `target`, which ultimately points to `object`, through
    /// the annotated `tag` if there is one.
    Symbolic { full_ref_name: Vec<u8>, target: Vec<u8>, tag: Option<ObjectId>, object: ObjectId },
    /// A ref that is unborn on the remote, pointing to the not yet existing `target`.
    Unborn { full_ref_name: Vec<u8>, target: Vec<u8> },
}

/// `o` holds an id whose bytes are `id`.
pub open spec fn holds_id(o: Option<ObjectId>, id: Seq<u8>) -> bool {
    match o {
        Some(t) => t@ == id,
        None => false,
    }
}

impl Ref {
    /// The fields shared by all refs: `(name, target, peeled)`. For peeled refs and symbolic refs
    /// through a tag, the target is the tag and `peeled` the object it points to. An unborn ref
    /// carries no object and no hash kind: its target is the null id of the default kind, SHA1.
    pub fn unpack(&self) -> (r: (&[u8], Option<ObjectId>, Option<ObjectId>))
        ensures
            match *self {
                Ref::Direct { full_ref_name, object } => r.0@ == full_ref_name@ && holds_id(r.1, object@) && r.2 is None,
                Ref::Symbolic { full_ref_name, tag, object, .. } => r.0@ == full_ref_name@ && match tag {
                    Some(g) => holds_id(r.1, g@) && holds_id(r.2, object@),
                    None => holds_id(r.1, object@) && r.2 is None,
                },
                Ref::Peeled { full_ref_name, tag, object } => r.0@ == full_ref_name@ && holds_id(r.1, tag@)
                    && holds_id(r.2, object@),
                Ref::Unborn { full_ref_name, .. } => r.0@ == full_ref_name@ && holds_id(r.1, null_of(HashKind::Sha1))
                    && r.2 is None,
            },
    {
        match self {
            Ref::Direct { full_ref_name, object } => (full_ref_name.as_slice(), Some(object.copied()), None),
            Ref::Symbolic { full_ref_name, tag, object, .. } => match tag {
                Some(t) => (full_ref_name.as_slice(), Some(t.copied()), Some(object.copied())),
                None => (full_ref_name.as_slice(), Some(object.copied()), None),
            },
            Ref::Peeled { full_ref_name, tag, object } => (
                full_ref_name.as_slice(),
                Some(tag.copied()),
                Some(object.copied()),
            ),
            Ref::Unborn { full_ref_name, .. } => (full_ref_name.as_slice(), Some(null_id(HashKind::Sha1)), None),
        }
    }
}

// ---------------------------------------------------------------------------------------------
// The object format of the server.

/// Why a map of the server's refs could not be made.
#[derive(Debug)]
pub enum RefMapError {
    /// The server uses the object format `format`, which is not supported.
    UnknownObjectFormat { format: Vec<u8> },
}

/// The kind of hash that `name` names: `sha1`, `SHA1` or `SHA-1`, and `sha256`, `SHA256` or
/// `SHA-256`.
pub open spec fn hash_kind_named(name: Seq<u8>) -> Option<HashKind> {
    if name == seq![115u8, 104, 97, 49] || name == seq![83u8, 72, 65, 49] || name == seq![83u8, 72, 65, 45, 49] {
        Some(HashKind::Sha1)
    } else if name == seq![115u8, 104, 97, 50, 53, 54] || name == seq![83u8, 72, 65, 50, 53, 54] || name == seq![
        83u8,
        72,
        65,
        45,
        50,
        53,
        54,
    ] {
        Some(HashKind::Sha256)
    } else {
        None
    }
}

/// Parses `name` with the `FromStr` of `gix_hash::Kind`, which, with both of the crate's hash
/// features on as here, takes exactly the names of [`hash_kind_named`] and refuses all else;
/// bytes that are no UTF-8 name nothing.
#[verifier::external_body]
fn parse_hash_kind(name: &[u8]) -> (r: Option<HashKind>)
    ensures
        r == hash_kind_named(name@),
{
    match std::str::from_utf8(name) {
        Ok(s) => match s.parse::<gix_hash::Kind>() {
            Ok(gix_hash::Kind::Sha1) => Some(HashKind::Sha1),
            Ok(gix_hash::Kind::Sha256) => Some(HashKind::Sha256),
            _ => None,
        },
        Err(_) => None,
    }
}

/// The kind of hash the server uses, by the value of its `object-format` capability: a server
/// that advertises none speaks SHA-1, and a name that is no known kind of hash is an error.
pub fn extract_object_hash(object_format: Option<&[u8]>) -> (r: Result<HashKind, RefMapError>)
    ensures
        match object_format {
            None => r matches Ok(k) && k == HashKind::Sha1,
            Some(format) => match hash_kind_named(format@) {
                Some(kind) => r matches Ok(k) && k == kind,
                None => r matches Err(RefMapError::UnknownObjectFormat { format: f }) && f@ == format@,
            },
        },
{
    match object_format {
        None => Ok(HashKind::Sha1),
        Some(format) => match parse_hash_kind(format) {
            Some(kind) => Ok(kind),
            None => Err(RefMapError::UnknownObjectFormat { format: crate::bytes::copy_range(format, 0, format.len()) }),
        },
    }
}

} // verus!
