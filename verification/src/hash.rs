//! Object ids and hash kinds, as far as the formats here need them.
use vstd::prelude::*;

verus! {

/// The kind of hash used for object ids.
#[derive(Debug, Clone, Copy, PartialEq, Eq, Structural)]
pub enum HashKind {
    Sha1,
    Sha256,
}

impl HashKind {
    pub open spec fn spec_len_in_bytes(self) -> nat {
        match self {
            HashKind::Sha1 => 20,
            HashKind::Sha256 => 32,
        }
    }

    /// The amount of bytes of a binary object id of this kind.
    pub fn len_in_bytes(&self) -> (r: usize)
        ensures
            r == self.spec_len_in_bytes(),
    {
        match self {
            HashKind::Sha1 => 20,
            HashKind::Sha256 => 32,
        }
    }

    /// The amount of hexadecimal characters of an object id of this kind.
    pub fn len_in_hex(&self) -> (r: usize)
        ensures
            r == 2 * self.spec_len_in_bytes(),
    {
        match self {
            HashKind::Sha1 => 40,
            HashKind::Sha256 => 64,
        }
    }
}

/// A binary object id: 20 bytes for SHA1, 32 bytes for SHA256.
#[derive(Debug, Clone, PartialEq, Eq, PartialOrd, Ord, Hash)]
pub struct ObjectId {
    pub bytes: Vec<u8>,
}

impl View for ObjectId {
    type V = Seq<u8>;

    open spec fn view(&self) -> Seq<u8> {
        self.bytes@
    }
}

/// The null id of `kind`: all zeros, as many bytes as an id of that kind has.
pub open spec fn null_of(kind: HashKind) -> Seq<u8> {
    Seq::new(kind.spec_len_in_bytes(), |i: int| 0u8)
}

/// The null id of `kind`.
pub(crate) fn null_id(kind: HashKind) -> (r: ObjectId)
    ensures
        r@ == null_of(kind),
{
    let n = kind.len_in_bytes();
    let mut bytes: Vec<u8> = Vec::new();
    while bytes.len() < n
        invariant
            bytes@.len() <= n,
            n == kind.spec_len_in_bytes(),
            forall|i: int| 0 <= i < bytes@.len() ==> bytes@[i] == 0,
        decreases n - bytes@.len(),
    {
        bytes.push(0);
    }
    let r = ObjectId { bytes };
    assert(r@ =~= null_of(kind));
    r
}


/// `true` if `b` is an ASCII hexadecimal digit in either case.
pub open spec fn is_hex_digit(b: u8) -> bool {
    // '0'..='9', 'a'..='f', 'A'..='F'
    (48 <= b <= 57) || (97 <= b <= 102) || (65 <= b <= 70)
}

/// The value of the hexadecimal digit `b`.
pub open spec fn hex_digit_value(b: u8) -> int {
    if 48 <= b <= 57 {
        b - 48
    } else if 97 <= b <= 102 {
        b - 97 + 10
    } else {
        b - 65 + 10
    }
}

/// The bytes encoded by the hexadecimal string `hex`, two digits per byte, most significant digit first.
pub open spec fn hex_decoded(hex: Seq<u8>) -> Seq<u8> {
    Seq::new(
        hex.len() / 2,
        |i: int| (hex_digit_value(hex[2 * i]) * 16 + hex_digit_value(hex[2 * i + 1])) as u8,
    )
}

/// `true` if `hex` is a hexadecimal object id that `gix_hash` accepts: 40 or 64 hex digits of either case.
pub open spec fn is_hex_object_id(hex: Seq<u8>) -> bool {
    &&& (hex.len() == 40 || hex.len() == 64)
    &&& forall|i: int| 0 <= i < hex.len() ==> is_hex_digit(#[trigger] hex[i])
}

/// Calls `gix_hash::ObjectId::from_hex()`, which accepts exactly 40 (SHA1) or 64 (SHA256) hexadecimal
/// digits of either case and decodes them into the binary id; the contract states just that.
#[verifier::external_body]
pub(crate) fn object_id_from_hex(hex: &[u8]) -> (r: Option<ObjectId>)
    ensures
        r is Some <==> is_hex_object_id(hex@),
        r matches Some(id) ==> id@ == hex_decoded(hex@),
{
    gix_hash::ObjectId::from_hex(hex).ok().map(|id| ObjectId { bytes: id.as_slice().to_vec() })
}

/// Calls `gix_hash::ObjectId::try_from(&[u8])`, which accepts a digest of exactly 20 (SHA1) or 32
/// (SHA256) bytes and keeps its bytes; the contract states just that.
#[verifier::external_body]
pub(crate) fn object_id_from_bytes(bytes: &[u8]) -> (r: Option<ObjectId>)
    ensures
        r is Some <==> (bytes@.len() == 20 || bytes@.len() == 32),
        r matches Some(id) ==> id@ == bytes@,
{
    gix_hash::ObjectId::try_from(bytes).ok().map(|id| ObjectId { bytes: id.as_slice().to_vec() })
}

impl ObjectId {
    /// Parse a hexadecimal object id of 40 or 64 digits.
    pub fn from_hex(hex: &[u8]) -> (r: Option<ObjectId>)
        ensures
            r is Some <==> is_hex_object_id(hex@),
            r matches Some(id) ==> id@ == hex_decoded(hex@),
    {
        object_id_from_hex(hex)
    }

    /// A copy of this id.
    pub fn copied(&self) -> (r: ObjectId)
        ensures
            r@ == self@,
    {
        ObjectId { bytes: self.bytes.clone() }
    }

    /// The kind of hash, determined by the amount of bytes.
    pub fn kind(&self) -> (r: HashKind)
        ensures
            r == (if self@.len() == 32 { HashKind::Sha256 } else { HashKind::Sha1 }),
    {
        if self.bytes.len() == 32 {
            HashKind::Sha256
        } else {
            HashKind::Sha1
        }
    }
}

} // verus!
