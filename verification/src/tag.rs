//! Serializing annotated tags: their headers, message and signature, and the tag name check.
use bstr::ByteSlice;
use gix_validate::tag::name::Error as NameError;
use vstd::prelude::*;

use crate::bytes::starts_with;
use crate::hash::{is_hex_object_id, ObjectId};

verus! {

/// The error of `gix_validate` for an invalid tag name.
#[verifier::external_type_specification]
#[verifier::external_body]
pub struct ExTagNameError(NameError);

/// The error returned when writing a tag.
#[derive(Debug)]
pub enum Error {
    /// Tags must not start with a dash: '-'.
    StartsWithDash,
    /// The tag name was no valid reference name.
    InvalidRefName(NameError),
}

/// `true` if `gix_validate` accepts `name` as a tag name.
pub uninterp spec fn is_valid_tag_name(name: Seq<u8>) -> bool;

/// Calls `gix_validate::tag::name()`, which checks `name` against git's rules for reference names
/// and rejects empty names; the contract names its verdict and states that what it accepts is not
/// empty, as the source shows.
#[verifier::external_body]
fn validate_tag_name(name: &[u8]) -> (r: Result<(), NameError>)
    ensures
        r is Ok <==> is_valid_tag_name(name@),
        r is Ok ==> name@.len() > 0,
{
    gix_validate::tag::name(name.as_bstr()).map(|_| ())
}

/// Check that `name` is a valid tag name that doesn't start with a dash, returning it.
pub fn validated_name(name: &[u8]) -> (r: Result<&[u8], Error>)
    ensures
        match r {
            Ok(n) => n == name && is_valid_tag_name(name@) && name@[0] != 45,
            Err(Error::InvalidRefName(_)) => !is_valid_tag_name(name@),
            Err(Error::StartsWithDash) => is_valid_tag_name(name@) && name@[0] == 45,
        },
{
    match validate_tag_name(name) {
        Err(err) => Err(Error::InvalidRefName(err)),
        Ok(()) => if name[0] == 45 {
            Err(Error::StartsWithDash)
        } else {
            Ok(name)
        },
    }
}

/// The kind of an object.
#[derive(Debug, Clone, Copy, PartialEq, Eq, Structural)]
pub enum Kind {
    Tree,
    Blob,
    Commit,
    Tag,
}

/// The name of objects of `kind` in object headers.
pub open spec fn kind_name(kind: Kind) -> Seq<u8> {
    match kind {
        Kind::Tree => seq![116u8, 114, 101, 101],
        Kind::Blob => seq![98u8, 108, 111, 98],
        Kind::Commit => seq![99u8, 111, 109, 109, 105, 116],
        Kind::Tag => seq![116u8, 97, 103],
    }
}

/// An annotated tag, as borrowed from its encoded form.
#[derive(Debug, Clone, Copy, PartialEq, Eq)]
pub struct TagRef<'a> {
    /// The hexadecimal id of the object the tag points to.
    pub target: &'a [u8],
    /// The kind of object the tag points to.
    pub target_kind: Kind,
    /// The name of the tag.
    pub name: &'a [u8],
    /// The encoded signature of the one who created the tag, if any.
    pub tagger: Option<&'a [u8]>,
    /// The message of the tag.
    pub message: &'a [u8],
    /// The signature of the tag, following its message, if any.
    pub signature: Option<&'a [u8]>,
}

/// `object`
pub open spec fn object_field() -> Seq<u8> {
    seq![111u8, 98, 106, 101, 99, 116]
}

/// `type`
pub open spec fn type_field() -> Seq<u8> {
    seq![116u8, 121, 112, 101]
}

/// `tag`
pub open spec fn tag_field() -> Seq<u8> {
    seq![116u8, 97, 103]
}

/// `tagger`
pub open spec fn tagger_field() -> Seq<u8> {
    seq![116u8, 97, 103, 103, 101, 114]
}

/// The header line `<name> <value>\n`.
pub open spec fn header(name: Seq<u8>, value: Seq<u8>) -> Seq<u8> {
    name + seq![32u8] + value + seq![10u8]
}

/// `true` if `message` consists of line feeds only, as the empty message does.
pub open spec fn only_newlines(message: Seq<u8>) -> bool {
    forall|i: int| 0 <= i < message.len() ==> message[i] == 10
}

/// The encoding of `tag`: its headers, a blank line unless the message holds nothing but line
/// feeds, the message, and the signature on a line of its own, if any.
pub open spec fn encoded_tag(tag: TagRef) -> Seq<u8> {
    header(object_field(), tag.target@) + header(type_field(), kind_name(tag.target_kind)) + header(
        tag_field(),
        tag.name@,
    ) + match tag.tagger {
        Some(t) => header(tagger_field(), t@),
        None => seq![],
    } + (if only_newlines(tag.message@) {
        seq![]
    } else {
        seq![10u8]
    }) + tag.message@ + match tag.signature {
        Some(s) => seq![10u8] + s@,
        None => seq![],
    }
}

/// Append all of `bytes` to `out`.
fn push_all(out: &mut Vec<u8>, bytes: &[u8])
    ensures
        final(out)@ == old(out)@ + bytes@,
{
    let mut i: usize = 0;
    while i < bytes.len()
        invariant
            i <= bytes.len(),
            out@ == old(out)@ + bytes@.subrange(0, i as int),
        decreases bytes.len() - i,
    {
        out.push(bytes[i]);
        i += 1;
        assert(out@ =~= old(out)@ + bytes@.subrange(0, i as int));
    }
    assert(bytes@.subrange(0, bytes.len() as int) =~= bytes@);
}

/// Append the header line `<name> <value>\n` to `out`.
fn push_header(out: &mut Vec<u8>, name: &[u8], value: &[u8])
    ensures
        final(out)@ == old(out)@ + header(name@, value@),
{
    push_all(out, name);
    out.push(32);
    push_all(out, value);
    out.push(10);
    assert(out@ =~= old(out)@ + header(name@, value@));
}

/// `true` if `message` consists of line feeds only.
fn is_only_newlines(message: &[u8]) -> (r: bool)
    ensures
        r == only_newlines(message@),
{
    let mut i: usize = 0;
    while i < message.len()
        invariant
            i <= message.len(),
            forall|j: int| 0 <= j < i ==> message@[j] == 10,
        decreases message.len() - i,
    {
        if message[i] != 10 {
            return false;
        }
        i += 1;
    }
    true
}

impl Kind {
    /// The name of objects of this kind in object headers.
    pub fn as_bytes(&self) -> (r: &'static [u8])
        ensures
            r@ == kind_name(*self),
    {
        match self {
            Kind::Tree => {
                let b: &'static [u8; 4] = &[116, 114, 101, 101];
                assert(b@ == kind_name(Kind::Tree));
                b
            },
            Kind::Blob => {
                let b: &'static [u8; 4] = &[98, 108, 111, 98];
                assert(b@ == kind_name(Kind::Blob));
                b
            },
            Kind::Commit => {
                let b: &'static [u8; 6] = &[99, 111, 109, 109, 105, 116];
                assert(b@ == kind_name(Kind::Commit));
                b
            },
            Kind::Tag => {
                let b: &'static [u8; 3] = &[116, 97, 103];
                assert(b@ == kind_name(Kind::Tag));
                b
            },
        }
    }
}

impl<'a> TagRef<'a> {
    /// Write the encoding of this tag to `out`, failing without writing if its name is invalid.
    pub fn write_to(&self, out: &mut Vec<u8>) -> (r: Result<(), Error>)
        ensures
            match r {
                Ok(()) => is_valid_tag_name(self.name@) && self.name@[0] != 45 && final(out)@ == old(out)@
                    + encoded_tag(*self),
                Err(Error::InvalidRefName(_)) => !is_valid_tag_name(self.name@) && final(out)@ == old(out)@,
                Err(Error::StartsWithDash) => is_valid_tag_name(self.name@) && self.name@[0] == 45 && final(out)@
                    == old(out)@,
            },
    {
        let name = match validated_name(self.name) {
            Ok(n) => n,
            Err(e) => {
                return Err(e);
            },
        };
        let object: [u8; 6] = [111, 98, 106, 101, 99, 116];
        let kind: [u8; 4] = [116, 121, 112, 101];
        let tag: [u8; 3] = [116, 97, 103];
        let tagger: [u8; 6] = [116, 97, 103, 103, 101, 114];
        assert(object@ == object_field());
        assert(kind@ == type_field());
        assert(tag@ == tag_field());
        assert(tagger@ == tagger_field());
        let ghost start = out@;
        push_header(out, &object, self.target);
        push_header(out, &kind, self.target_kind.as_bytes());
        push_header(out, &tag, name);
        if let Some(t) = self.tagger {
            push_header(out, &tagger, t);
        }
        if !is_only_newlines(self.message) {
            out.push(10);
        }
        push_all(out, self.message);
        if let Some(s) = self.signature {
            out.push(10);
            push_all(out, s);
        }
        assert(out@ =~= start + encoded_tag(*self));
        Ok(())
    }

    /// The amount of bytes [`TagRef::write_to`] writes.
    pub fn size(&self) -> (r: u64)
        requires
            is_hex_object_id(self.target@),
            encoded_tag(*self).len() <= u64::MAX,
        ensures
            r == encoded_tag(*self).len(),
    {
        let hex_len = match ObjectId::from_hex(self.target) {
            Some(id) => id.kind().len_in_hex(),
            None => 0,
        };
        let ghost total = encoded_tag(*self).len();
        let tagger_len: u64 = match self.tagger {
            Some(raw) => 6 + 1 + raw.len() as u64 + 1,
            None => 0,
        };
        let newline_len: u64 = if is_only_newlines(self.message) {
            0
        } else {
            1
        };
        let signature_len: u64 = match self.signature {
            Some(m) => 1 + m.len() as u64,
            None => 0,
        };
        assert(hex_len == self.target@.len());
        6 + 1 + hex_len as u64 + 1 + 4 + 1 + self.target_kind.as_bytes().len() as u64 + 1 + 3 + 1
            + self.name.len() as u64 + 1 + tagger_len + newline_len + self.message.len() as u64
            + signature_len
    }
}

} // verus!
