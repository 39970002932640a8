//! Parsing of git pathspecs: a path with optional magic, given either in short form (`:/!path`)
//! or in long form (`:(top,icase,attr:a=b)path`).
use bstr::ByteSlice;
use vstd::prelude::*;

use crate::bytes::{find_byte, lemma_find_byte_from, slice_eq, slice_find_byte_from, slice_starts_with, starts_with};

verus! {

/// Match from the root of the repository, not from the current directory.
pub const TOP: u8 = 1;
/// Match without regard to case.
pub const ICASE: u8 = 2;
/// Exclude what matches instead of including it.
pub const EXCLUDE: u8 = 4;
/// Match only directories: the pattern ended in a slash.
pub const MUST_BE_DIR: u8 = 8;

/// The set of magic a pattern carries, as the bits [`TOP`], [`ICASE`], [`EXCLUDE`] and [`MUST_BE_DIR`].
#[derive(Debug, Clone, Copy, PartialEq, Eq, Structural, Default)]
pub struct MagicSignature {
    pub bits: u8,
}

impl MagicSignature {
    /// No magic at all.
    pub fn empty() -> (r: MagicSignature)
        ensures
            r.bits == 0,
    {
        MagicSignature { bits: 0 }
    }

    /// `true` if all magic in `other` is set here.
    pub fn contains(&self, other: u8) -> (r: bool)
        ensures
            r == (self.bits & other == other),
    {
        self.bits & other == other
    }
}

/// How the path of a pattern is matched.
#[derive(Debug, Clone, Copy, PartialEq, Eq, Structural)]
pub enum SearchMode {
    /// Match as a shell glob, where `*` also matches slashes.
    ShellGlob,
    /// Match the path literally.
    Literal,
    /// Match as a glob that respects path components, where `*` doesn't match slashes.
    PathAwareGlob,
}

impl Default for SearchMode {
    fn default() -> (r: SearchMode)
        ensures
            r == SearchMode::ShellGlob,
    {
        SearchMode::ShellGlob
    }
}

/// What a parse starts from where the pattern doesn't say otherwise.
#[derive(Debug, Clone, Copy, PartialEq, Eq, Structural)]
pub struct Defaults {
    /// The magic every pattern starts with.
    pub signature: MagicSignature,
    /// The search mode of patterns that don't choose one.
    pub search_mode: SearchMode,
    /// Take every input literally, without parsing any magic.
    pub literal: bool,
}

/// The state an attribute is required to be in.
#[derive(Debug, Clone, PartialEq, Eq)]
pub enum State {
    /// The attribute is listed, or has the special value 'true'.
    Listed,
    /// The attribute has the special value 'false', or was prefixed with a `-` sign.
    Unset,
    /// The attribute is set to the given value, which followed the `=` sign.
    Value(Vec<u8>),
    /// The attribute is not mentioned, as required with the `!` prefix.
    Unspecified,
}

/// A [`State`] with its value taken by value.
pub enum StateView {
    Listed,
    Unset,
    Value(Seq<u8>),
    Unspecified,
}

impl View for State {
    type V = StateView;

    open spec fn view(&self) -> StateView {
        match self {
            State::Listed => StateView::Listed,
            State::Unset => StateView::Unset,
            State::Value(v) => StateView::Value(v@),
            State::Unspecified => StateView::Unspecified,
        }
    }
}

/// An attribute with the state it is required to be in.
#[derive(Debug, Clone, PartialEq, Eq)]
pub struct Assignment {
    /// The validated attribute name.
    pub name: Vec<u8>,
    /// The required state.
    pub state: State,
}

/// An [`Assignment`] taken by value.
pub struct AssignmentView {
    pub name: Seq<u8>,
    pub state: StateView,
}

impl View for Assignment {
    type V = AssignmentView;

    open spec fn view(&self) -> AssignmentView {
        AssignmentView { name: self.name@, state: self.state@ }
    }
}

/// The error returned when parsing a pathspec.
#[derive(Debug, Clone, PartialEq, Eq)]
pub enum Error {
    EmptyString,
    InvalidKeyword { keyword: Vec<u8> },
    Unimplemented { short_keyword: u8 },
    MissingClosingParenthesis,
    InvalidAttribute { attribute: Vec<u8> },
    InvalidAttributeValue { character: u8 },
    TrailingEscapeCharacter,
    EmptyAttribute,
    MultipleAttributeSpecifications,
    IncompatibleSearchModes,
}

/// An [`Error`] with its byte strings taken by value.
pub enum ErrorView {
    EmptyString,
    InvalidKeyword { keyword: Seq<u8> },
    Unimplemented { short_keyword: u8 },
    MissingClosingParenthesis,
    InvalidAttribute { attribute: Seq<u8> },
    InvalidAttributeValue { character: u8 },
    TrailingEscapeCharacter,
    EmptyAttribute,
    MultipleAttributeSpecifications,
    IncompatibleSearchModes,
}

impl View for Error {
    type V = ErrorView;

    open spec fn view(&self) -> ErrorView {
        match self {
            Error::EmptyString => ErrorView::EmptyString,
            Error::InvalidKeyword { keyword } => ErrorView::InvalidKeyword { keyword: keyword@ },
            Error::Unimplemented { short_keyword } => ErrorView::Unimplemented { short_keyword: *short_keyword },
            Error::MissingClosingParenthesis => ErrorView::MissingClosingParenthesis,
            Error::InvalidAttribute { attribute } => ErrorView::InvalidAttribute { attribute: attribute@ },
            Error::InvalidAttributeValue { character } => ErrorView::InvalidAttributeValue {
                character: *character,
            },
            Error::TrailingEscapeCharacter => ErrorView::TrailingEscapeCharacter,
            Error::EmptyAttribute => ErrorView::EmptyAttribute,
            Error::MultipleAttributeSpecifications => ErrorView::MultipleAttributeSpecifications,
            Error::IncompatibleSearchModes => ErrorView::IncompatibleSearchModes,
        }
    }
}

// ---------------------------------------------------------------------------------------------
// Attribute names and values.

/// `true` if `b` may appear in an attribute value without escaping: ASCII letters and digits, `,`, `-` and `_`.
pub open spec fn is_valid_attr_value_spec(b: u8) -> bool {
    (48 <= b <= 57) || (65 <= b <= 90) || (97 <= b <= 122) || b == 44 || b == 45 || b == 95
}

/// `true` if `byte` may appear in an attribute value without escaping.
pub fn is_valid_attr_value(byte: u8) -> (r: bool)
    ensures
        r == is_valid_attr_value_spec(byte),
{
    (48 <= byte && byte <= 57) || (65 <= byte && byte <= 90) || (97 <= byte && byte <= 122) || byte == 44 || byte
        == 45 || byte == 95
}

/// `byte`, if it may appear in an attribute value.
pub fn validated_attr_value_byte(byte: u8) -> (r: Result<u8, Error>)
    ensures
        match r {
            Ok(b) => is_valid_attr_value_spec(byte) && b == byte,
            Err(e) => !is_valid_attr_value_spec(byte) && e@ == ErrorView::InvalidAttributeValue { character: byte },
        },
{
    if is_valid_attr_value(byte) {
        Ok(byte)
    } else {
        Err(Error::InvalidAttributeValue { character: byte })
    }
}

/// The first byte of `value` at or after `i` that may not appear in an attribute value, if any.
pub open spec fn first_invalid_attr_byte(value: Seq<u8>, i: int) -> Option<u8>
    decreases value.len() - i,
{
    if i < 0 || i >= value.len() {
        None
    } else if !is_valid_attr_value_spec(value[i]) {
        Some(value[i])
    } else {
        first_invalid_attr_byte(value, i + 1)
    }
}

/// Check that all of `input` may appear in an attribute value.
pub fn check_attribute_value(input: &[u8]) -> (r: Result<(), Error>)
    ensures
        match first_invalid_attr_byte(input@, 0) {
            Some(b) => r matches Err(e) && e@ == ErrorView::InvalidAttributeValue { character: b },
            None => r is Ok,
        },
{
    let mut i: usize = 0;
    while i < input.len()
        invariant
            i <= input.len(),
            first_invalid_attr_byte(input@, 0) == first_invalid_attr_byte(input@, i as int),
        decreases input.len() - i,
    {
        if !is_valid_attr_value(input[i]) {
            return Err(Error::InvalidAttributeValue { character: input[i] });
        }
        i += 1;
    }
    Ok(())
}

/// The result of unescaping `value` from byte `i` on, appended to `acc`: a backslash takes the
/// byte after it literally, and each resulting byte must be valid in an attribute value.
pub open spec fn unescape_from(value: Seq<u8>, i: int, acc: Seq<u8>) -> Result<Seq<u8>, ErrorView>
    decreases value.len() - i,
{
    if i < 0 || i >= value.len() {
        Ok(acc)
    } else {
        let (b, next) = if value[i] == 92 {
            if i + 1 < value.len() {
                (Some(value[i + 1]), i + 2)
            } else {
                (None, i + 1)
            }
        } else {
            (Some(value[i]), i + 1)
        };
        match b {
            None => Err(ErrorView::TrailingEscapeCharacter),
            Some(b) => if is_valid_attr_value_spec(b) {
                unescape_from(value, next, acc.push(b))
            } else {
                Err(ErrorView::InvalidAttributeValue { character: b })
            },
        }
    }
}

/// Unescape an attribute value, checking each of its bytes.
pub fn unescape_and_check_attr_value(value: &[u8]) -> (r: Result<Vec<u8>, Error>)
    ensures
        match r {
            Ok(v) => unescape_from(value@, 0, seq![]) == Ok::<Seq<u8>, ErrorView>(v@),
            Err(e) => unescape_from(value@, 0, seq![]) == Err::<Seq<u8>, ErrorView>(e@),
        },
{
    let mut out: Vec<u8> = Vec::with_capacity(value.len());
    let mut i: usize = 0;
    while i < value.len()
        invariant
            i <= value.len(),
            unescape_from(value@, i as int, out@) == unescape_from(value@, 0, seq![]),
        decreases value.len() - i,
    {
        let mut b = value[i];
        if b == 92 {
            if i + 1 < value.len() {
                b = value[i + 1];
                i += 2;
            } else {
                return Err(Error::TrailingEscapeCharacter);
            }
        } else {
            i += 1;
        }
        match validated_attr_value_byte(b) {
            Ok(v) => out.push(v),
            Err(e) => {
                return Err(e);
            },
        }
    }
    Ok(out)
}

/// `true` if `name` is a valid attribute name: not empty, not starting with `-`, and made of
/// ASCII letters, digits, `-`, `.` and `_` only.
pub open spec fn is_valid_attr_name(name: Seq<u8>) -> bool {
    &&& name.len() > 0
    &&& name[0] != 45
    &&& forall|i: int|
        0 <= i < name.len() ==> {
            let b = #[trigger] name[i];
            b == 45 || b == 46 || b == 95 || (65 <= b <= 90) || (97 <= b <= 122) || (48 <= b <= 57)
        }
}

/// Calls `gix_attributes::NameRef::try_from()`, which accepts a name that is not empty, doesn't start
/// with `-`, and consists of ASCII letters, digits, `-`, `.` and `_`, and keeps it as is; the contract
/// states just that.
#[verifier::external_body]
fn attribute_name(name: &[u8]) -> (r: Option<Vec<u8>>)
    ensures
        r is Some <==> is_valid_attr_name(name@),
        r matches Some(n) ==> n@ == name@,
{
    gix_attributes::NameRef::try_from(name.as_bstr()).ok().map(|n| n.as_str().as_bytes().to_vec())
}

/// Calls `gix_attributes::StateRef::from_bytes()`, which keeps `value` as the value of the
/// attribute; the contract states just that.
#[verifier::external_body]
fn attribute_value_state(value: &[u8]) -> (r: State)
    ensures
        r@ == StateView::Value(value@),
{
    match gix_attributes::StateRef::from_bytes(value) {
        gix_attributes::StateRef::Value(v) => State::Value(v.as_bstr().to_vec()),
        gix_attributes::StateRef::Set => State::Listed,
        gix_attributes::StateRef::Unset => State::Unset,
        gix_attributes::StateRef::Unspecified => State::Unspecified,
    }
}

// ---------------------------------------------------------------------------------------------
// Attribute specifications: `attr:` followed by space-separated assignments.

/// The ranges of the pieces of `input` between `sep` bytes, scanning from `i` with the current
/// piece starting at `last`.
pub open spec fn split_plain_from(input: Seq<u8>, sep: u8, i: int, last: int) -> Seq<(int, int)>
    decreases input.len() - i,
{
    if i < 0 || i >= input.len() {
        seq![(last, input.len() as int)]
    } else if input[i] == sep {
        seq![(last, i)] + split_plain_from(input, sep, i + 1, i + 1)
    } else {
        split_plain_from(input, sep, i + 1, last)
    }
}

/// Ranges as mathematical integers.
pub open spec fn ranges_view(r: Seq<(usize, usize)>) -> Seq<(int, int)> {
    r.map_values(|p: (usize, usize)| (p.0 as int, p.1 as int))
}

/// The ranges of the pieces of `input` between `sep` bytes.
fn split_plain(input: &[u8], sep: u8) -> (r: Vec<(usize, usize)>)
    ensures
        ranges_view(r@) == split_plain_from(input@, sep, 0, 0),
        forall|k: int| 0 <= k < r@.len() ==> #[trigger] r@[k].0 <= r@[k].1 <= input@.len(),
{
    let mut out: Vec<(usize, usize)> = Vec::new();
    let mut i: usize = 0;
    let mut last: usize = 0;
    while i < input.len()
        invariant
            last <= i <= input@.len(),
            ranges_view(out@) + split_plain_from(input@, sep, i as int, last as int) == split_plain_from(
                input@,
                sep,
                0,
                0,
            ),
            forall|k: int| 0 <= k < out@.len() ==> #[trigger] out@[k].0 <= out@[k].1 <= input@.len(),
        decreases input.len() - i,
    {
        if input[i] == sep {
            let ghost before = out@;
            out.push((last, i));
            assert(ranges_view(out@) =~= ranges_view(before) + seq![(last as int, i as int)]);
            last = i + 1;
        }
        i += 1;
    }
    let ghost before = out@;
    out.push((last, input.len()));
    assert(ranges_view(out@) =~= ranges_view(before) + seq![(last as int, input.len() as int)]);
    assert(split_plain_from(input@, sep, i as int, last as int) == seq![(last as int, input.len() as int)]);
    assert(ranges_view(out@) =~= split_plain_from(input@, sep, 0, 0));
    assert forall|k: int| 0 <= k < out@.len() implies #[trigger] out@[k].0 <= out@[k].1 <= input@.len() by {
        if k < before.len() {
            assert(out@[k] == before[k]);
        }
    }
    out
}

/// The state an assignment `attr` requires, with the attribute's name, before the name is checked.
pub open spec fn assignment_parts(attr: Seq<u8>) -> (Seq<u8>, Result<StateView, ErrorView>) {
    if attr[0] == 33 {
        (attr.subrange(1, attr.len() as int), Ok(StateView::Unspecified))
    } else if attr[0] == 45 {
        (attr.subrange(1, attr.len() as int), Ok(StateView::Unset))
    } else {
        match find_byte(attr, 61) {
            Some(pos) => {
                let value = attr.subrange(pos + 1, attr.len() as int);
                let checked = if find_byte(value, 92) is Some {
                    unescape_from(value, 0, seq![])
                } else {
                    match first_invalid_attr_byte(value, 0) {
                        Some(b) => Err(ErrorView::InvalidAttributeValue { character: b }),
                        None => Ok(value),
                    }
                };
                (
                    attr.subrange(0, pos),
                    match checked {
                        Ok(v) => Ok(StateView::Value(v)),
                        Err(e) => Err(e),
                    },
                )
            },
            None => (attr, Ok(StateView::Listed)),
        }
    }
}

/// The assignment that the non-empty `attr` denotes: `!name`, `-name`, `name=value` or `name`.
pub open spec fn assignment_spec(attr: Seq<u8>) -> Result<AssignmentView, ErrorView> {
    let (name, state) = assignment_parts(attr);
    match state {
        Err(e) => Err(e),
        Ok(st) => if is_valid_attr_name(name) {
            Ok(AssignmentView { name, state: st })
        } else {
            Err(ErrorView::InvalidAttribute { attribute: name })
        },
    }
}

/// The assignments of the first `n` pieces of `input` at `ranges`, skipping empty ones, up to the first error.
pub open spec fn assignments_upto(input: Seq<u8>, ranges: Seq<(int, int)>, n: nat) -> Result<
    Seq<AssignmentView>,
    ErrorView,
>
    decreases n,
{
    if n == 0 {
        Ok(seq![])
    } else {
        match assignments_upto(input, ranges, (n - 1) as nat) {
            Err(e) => Err(e),
            Ok(acc) => {
                let piece = input.subrange(ranges[n - 1].0, ranges[n - 1].1);
                if piece.len() == 0 {
                    Ok(acc)
                } else {
                    match assignment_spec(piece) {
                        Err(e) => Err(e),
                        Ok(a) => Ok(acc.push(a)),
                    }
                }
            },
        }
    }
}

/// The assignments of the attribute specification `input`.
pub open spec fn parse_attributes_spec(input: Seq<u8>) -> Result<Seq<AssignmentView>, ErrorView> {
    if input.len() == 0 {
        Err(ErrorView::EmptyAttribute)
    } else {
        let ranges = split_plain_from(input, 32, 0, 0);
        assignments_upto(input, ranges, ranges.len())
    }
}

/// Assignments taken by value.
pub open spec fn assignments_view(v: Seq<Assignment>) -> Seq<AssignmentView> {
    v.map_values(|a: Assignment| a@)
}

/// Parse one non-empty assignment.
fn parse_assignment(attr: &[u8]) -> (r: Result<Assignment, Error>)
    requires
        attr.len() > 0,
    ensures
        match r {
            Ok(a) => assignment_spec(attr@) == Ok::<AssignmentView, ErrorView>(a@),
            Err(e) => assignment_spec(attr@) == Err::<AssignmentView, ErrorView>(e@),
        },
{
    let (name, state): (&[u8], State) = if attr[0] == 33 {
        (&attr[1..attr.len()], State::Unspecified)
    } else if attr[0] == 45 {
        (&attr[1..attr.len()], State::Unset)
    } else {
        proof {
            lemma_find_byte_from(attr@, 61, 0);
        }
        match slice_find_byte_from(attr, 61, 0) {
            Some(pos) => {
                let value = &attr[pos + 1..attr.len()];
                proof {
                    lemma_find_byte_from(value@, 92, 0);
                }
                let state = if slice_find_byte_from(value, 92, 0).is_some() {
                    match unescape_and_check_attr_value(value) {
                        Ok(v) => State::Value(v),
                        Err(e) => {
                            return Err(e);
                        },
                    }
                } else {
                    match check_attribute_value(value) {
                        Ok(()) => attribute_value_state(value),
                        Err(e) => {
                            return Err(e);
                        },
                    }
                };
                (&attr[0..pos], state)
            },
            None => (attr, State::Listed),
        }
    };
    match attribute_name(name) {
        Some(n) => Ok(Assignment { name: n, state }),
        None => {
            let attribute = crate::bytes::copy_range(name, 0, name.len());
            assert(attribute@ =~= name@);
            Err(Error::InvalidAttribute { attribute })
        },
    }
}

/// Once the assignments run into an error, further pieces keep it.
proof fn lemma_assignments_upto_err(input: Seq<u8>, ranges: Seq<(int, int)>, k: nat, n: nat)
    requires
        k <= n,
        assignments_upto(input, ranges, k) is Err,
    ensures
        assignments_upto(input, ranges, n) == assignments_upto(input, ranges, k),
    decreases n - k,
{
    if k < n {
        lemma_assignments_upto_err(input, ranges, k, (n - 1) as nat);
    }
}

/// Parse the space-separated assignments of an attribute specification.
pub fn parse_attributes(input: &[u8]) -> (r: Result<Vec<Assignment>, Error>)
    ensures
        match r {
            Ok(v) => parse_attributes_spec(input@) == Ok::<Seq<AssignmentView>, ErrorView>(assignments_view(v@)),
            Err(e) => parse_attributes_spec(input@) == Err::<Seq<AssignmentView>, ErrorView>(e@),
        },
{
    if input.len() == 0 {
        return Err(Error::EmptyAttribute);
    }
    let ranges = split_plain(input, 32);
    let ghost rv = ranges_view(ranges@);
    let mut out: Vec<Assignment> = Vec::new();
    assert(assignments_view(out@) =~= seq![]);
    let mut k: usize = 0;
    while k < ranges.len()
        invariant
            k <= ranges@.len() == rv.len(),
            rv == ranges_view(ranges@),
            rv == split_plain_from(input@, 32, 0, 0),
            forall|j: int| 0 <= j < ranges@.len() ==> #[trigger] ranges@[j].0 <= ranges@[j].1 <= input@.len(),
            assignments_upto(input@, rv, k as nat) == Ok::<Seq<AssignmentView>, ErrorView>(
                assignments_view(out@),
            ),
        decreases ranges.len() - k,
    {
        let (a, b) = ranges[k];
        assert(rv[k as int] == (a as int, b as int));
        let piece = &input[a..b];
        assert(piece@ == input@.subrange(rv[k as int].0, rv[k as int].1));
        if piece.len() != 0 {
            match parse_assignment(piece) {
                Ok(assignment) => {
                    let ghost before = out@;
                    out.push(assignment);
                    assert(assignments_view(out@) =~= assignments_view(before).push(assignment@));
                },
                Err(e) => {
                    proof {
                        lemma_assignments_upto_err(input@, rv, (k + 1) as nat, rv.len());
                    }
                    return Err(e);
                },
            }
        }
        k += 1;
    }
    Ok(out)
}

// ---------------------------------------------------------------------------------------------
// Long keywords: `(keyword,keyword,...)`, where a backslash escapes the byte after it.

/// The ranges of the pieces of `input` between `sep` bytes that aren't escaped by a backslash,
/// scanning from `i` with the current piece starting at `last`.
pub open spec fn split_escaped_from(input: Seq<u8>, sep: u8, i: int, last: int) -> Seq<(int, int)>
    decreases input.len() + 2 - i,
{
    if i < 0 || i >= input.len() {
        seq![(last, input.len() as int)]
    } else if input[i] == 92 {
        split_escaped_from(input, sep, i + 2, last)
    } else if input[i] == sep {
        seq![(last, i)] + split_escaped_from(input, sep, i + 1, i + 1)
    } else {
        split_escaped_from(input, sep, i + 1, last)
    }
}

/// The ranges of the pieces of `input` between `split_char` bytes that aren't escaped by a
/// backslash. A backslash consumes the byte that follows it, so `\,` is a literal comma while
/// `\\,` is an escaped backslash followed by a separator.
pub fn split_on_non_escaped_char(input: &[u8], split_char: u8) -> (r: Vec<(usize, usize)>)
    ensures
        ranges_view(r@) == split_escaped_from(input@, split_char, 0, 0),
        forall|k: int| 0 <= k < r@.len() ==> #[trigger] r@[k].0 <= r@[k].1 <= input@.len(),
{
    let mut out: Vec<(usize, usize)> = Vec::new();
    let mut i: usize = 0;
    let mut last: usize = 0;
    while i < input.len()
        invariant
            last <= i <= input@.len(),
            ranges_view(out@) + split_escaped_from(input@, split_char, i as int, last as int)
                == split_escaped_from(input@, split_char, 0, 0),
            forall|k: int| 0 <= k < out@.len() ==> #[trigger] out@[k].0 <= out@[k].1 <= input@.len(),
        decreases input.len() - i,
    {
        if input[i] == 92 {
            if input.len() - i <= 2 {
                assert(split_escaped_from(input@, split_char, (i + 2) as int, last as int) == split_escaped_from(
                    input@,
                    split_char,
                    input@.len() as int,
                    last as int,
                ));
                i = input.len();
            } else {
                i += 2;
            }
        } else {
            if input[i] == split_char {
                let ghost before = out@;
                out.push((last, i));
                assert(ranges_view(out@) =~= ranges_view(before) + seq![(last as int, i as int)]);
                assert forall|k: int| 0 <= k < out@.len() implies #[trigger] out@[k].0 <= out@[k].1
                    <= input@.len() by {
                    if k < before.len() {
                        assert(out@[k] == before[k]);
                    }
                }
                last = i + 1;
            }
            i += 1;
        }
    }
    let ghost before = out@;
    out.push((last, input.len()));
    assert(ranges_view(out@) =~= ranges_view(before) + seq![(last as int, input.len() as int)]);
    assert(ranges_view(out@) =~= split_escaped_from(input@, split_char, 0, 0));
    assert forall|k: int| 0 <= k < out@.len() implies #[trigger] out@[k].0 <= out@[k].1 <= input@.len() by {
        if k < before.len() {
            assert(out@[k] == before[k]);
        }
    }
    out
}

/// The magic that the keywords read so far established.
pub struct KeywordState {
    pub signature: u8,
    pub search_mode: SearchMode,
    pub attributes: Seq<AssignmentView>,
}

/// `attr`
pub open spec fn attr_word() -> Seq<u8> {
    seq![97u8, 116, 116, 114]
}

/// `top`
pub open spec fn top_word() -> Seq<u8> {
    seq![116u8, 111, 112]
}

/// `icase`
pub open spec fn icase_word() -> Seq<u8> {
    seq![105u8, 99, 97, 115, 101]
}

/// `exclude`
pub open spec fn exclude_word() -> Seq<u8> {
    seq![101u8, 120, 99, 108, 117, 100, 101]
}

/// `literal`
pub open spec fn literal_word() -> Seq<u8> {
    seq![108u8, 105, 116, 101, 114, 97, 108]
}

/// `glob`
pub open spec fn glob_word() -> Seq<u8> {
    seq![103u8, 108, 111, 98]
}

/// `attr:`, the start of an attribute specification.
pub open spec fn attr_prefix() -> Seq<u8> {
    seq![97u8, 116, 116, 114, 58]
}

/// The effect of the long keyword `kw`. Git skips empty keywords, so `:(top,)`, `:(,top)` and
/// `:(top,,icase)` are all valid.
pub open spec fn keyword_step(st: KeywordState, kw: Seq<u8>) -> Result<KeywordState, ErrorView> {
    if kw.len() == 0 || kw == attr_word() {
        Ok(st)
    } else if kw == top_word() {
        Ok(KeywordState { signature: st.signature | TOP, ..st })
    } else if kw == icase_word() {
        Ok(KeywordState { signature: st.signature | ICASE, ..st })
    } else if kw == exclude_word() {
        Ok(KeywordState { signature: st.signature | EXCLUDE, ..st })
    } else if kw == literal_word() {
        if st.search_mode == SearchMode::PathAwareGlob {
            Err(ErrorView::IncompatibleSearchModes)
        } else {
            Ok(KeywordState { search_mode: SearchMode::Literal, ..st })
        }
    } else if kw == glob_word() {
        if st.search_mode == SearchMode::Literal {
            Err(ErrorView::IncompatibleSearchModes)
        } else {
            Ok(KeywordState { search_mode: SearchMode::PathAwareGlob, ..st })
        }
    } else if starts_with(kw, attr_prefix()) {
        if st.attributes.len() == 0 {
            match parse_attributes_spec(kw.subrange(5, kw.len() as int)) {
                Ok(a) => Ok(KeywordState { attributes: a, ..st }),
                Err(e) => Err(e),
            }
        } else {
            Err(ErrorView::MultipleAttributeSpecifications)
        }
    } else {
        Err(ErrorView::InvalidKeyword { keyword: kw })
    }
}

/// The effect of the first `n` keywords of `inner` at `ranges`, up to the first error.
pub open spec fn keywords_upto(inner: Seq<u8>, ranges: Seq<(int, int)>, n: nat, st: KeywordState) -> Result<
    KeywordState,
    ErrorView,
>
    decreases n,
{
    if n == 0 {
        Ok(st)
    } else {
        match keywords_upto(inner, ranges, (n - 1) as nat, st) {
            Err(e) => Err(e),
            Ok(s) => keyword_step(s, inner.subrange(ranges[n - 1].0, ranges[n - 1].1)),
        }
    }
}

/// The effect of the long keywords of `input` that start at `cursor`, and the position after
/// their closing parenthesis, which is the first one in `input`.
pub open spec fn long_keywords_spec(input: Seq<u8>, cursor: int, st: KeywordState) -> Result<
    (KeywordState, int),
    ErrorView,
> {
    match find_byte(input, 41) {
        None => Err(ErrorView::MissingClosingParenthesis),
        Some(end) => {
            let inner = input.subrange(cursor, end);
            if inner.len() == 0 {
                Ok((st, end + 1))
            } else {
                let ranges = split_escaped_from(inner, 44, 0, 0);
                match keywords_upto(inner, ranges, ranges.len(), st) {
                    Ok(s) => Ok((s, end + 1)),
                    Err(e) => Err(e),
                }
            }
        },
    }
}

/// The magic read so far, as owned values.
pub struct Magic {
    pub signature: u8,
    pub search_mode: SearchMode,
    pub attributes: Vec<Assignment>,
}

impl View for Magic {
    type V = KeywordState;

    open spec fn view(&self) -> KeywordState {
        KeywordState {
            signature: self.signature,
            search_mode: self.search_mode,
            attributes: assignments_view(self.attributes@),
        }
    }
}

/// Apply the long keyword `kw`.
fn apply_keyword(m: Magic, kw: &[u8]) -> (r: Result<Magic, Error>)
    ensures
        match r {
            Ok(n) => keyword_step(m@, kw@) == Ok::<KeywordState, ErrorView>(n@),
            Err(e) => keyword_step(m@, kw@) == Err::<KeywordState, ErrorView>(e@),
        },
{
    let attr: [u8; 4] = [97, 116, 116, 114];
    let top: [u8; 3] = [116, 111, 112];
    let icase: [u8; 5] = [105, 99, 97, 115, 101];
    let exclude: [u8; 7] = [101, 120, 99, 108, 117, 100, 101];
    let literal: [u8; 7] = [108, 105, 116, 101, 114, 97, 108];
    let glob: [u8; 4] = [103, 108, 111, 98];
    let prefix: [u8; 5] = [97, 116, 116, 114, 58];
    assert(attr@ == attr_word());
    assert(top@ == top_word());
    assert(icase@ == icase_word());
    assert(exclude@ == exclude_word());
    assert(literal@ == literal_word());
    assert(glob@ == glob_word());
    assert(prefix@ == attr_prefix());
    let mut m = m;
    if kw.len() == 0 || slice_eq(kw, &attr) {
        Ok(m)
    } else if slice_eq(kw, &top) {
        m.signature = m.signature | TOP;
        Ok(m)
    } else if slice_eq(kw, &icase) {
        m.signature = m.signature | ICASE;
        Ok(m)
    } else if slice_eq(kw, &exclude) {
        m.signature = m.signature | EXCLUDE;
        Ok(m)
    } else if slice_eq(kw, &literal) {
        if m.search_mode == SearchMode::PathAwareGlob {
            Err(Error::IncompatibleSearchModes)
        } else {
            m.search_mode = SearchMode::Literal;
            Ok(m)
        }
    } else if slice_eq(kw, &glob) {
        if m.search_mode == SearchMode::Literal {
            Err(Error::IncompatibleSearchModes)
        } else {
            m.search_mode = SearchMode::PathAwareGlob;
            Ok(m)
        }
    } else if slice_starts_with(kw, &prefix) {
        if m.attributes.len() == 0 {
            match parse_attributes(&kw[5..kw.len()]) {
                Ok(a) => {
                    m.attributes = a;
                    Ok(m)
                },
                Err(e) => Err(e),
            }
        } else {
            Err(Error::MultipleAttributeSpecifications)
        }
    } else {
        let keyword = crate::bytes::copy_range(kw, 0, kw.len());
        assert(keyword@ =~= kw@);
        Err(Error::InvalidKeyword { keyword })
    }
}

/// Once the keywords run into an error, further keywords keep it.
proof fn lemma_keywords_upto_err(inner: Seq<u8>, ranges: Seq<(int, int)>, k: nat, n: nat, st: KeywordState)
    requires
        k <= n,
        keywords_upto(inner, ranges, k, st) is Err,
    ensures
        keywords_upto(inner, ranges, n, st) == keywords_upto(inner, ranges, k, st),
    decreases n - k,
{
    if k < n {
        lemma_keywords_upto_err(inner, ranges, k, (n - 1) as nat, st);
    }
}

/// Apply the long keywords of `input` that start at `cursor`, returning the magic and the
/// position after the closing parenthesis.
fn parse_long_keywords(input: &[u8], cursor: usize, magic: Magic) -> (r: Result<(Magic, usize), Error>)
    requires
        cursor <= input.len(),
        forall|j: int| 0 <= j < cursor ==> input@[j] != 41,
    ensures
        match r {
            Ok((n, c)) => long_keywords_spec(input@, cursor as int, magic@) == Ok::<(KeywordState, int), ErrorView>(
                (n@, c as int),
            ) && c <= input@.len(),
            Err(e) => long_keywords_spec(input@, cursor as int, magic@) == Err::<(KeywordState, int), ErrorView>(
                e@,
            ),
        },
{
    proof {
        lemma_find_byte_from(input@, 41, 0);
    }
    let end = match slice_find_byte_from(input, 41, 0) {
        Some(e) => e,
        None => {
            return Err(Error::MissingClosingParenthesis);
        },
    };
    assert(cursor <= end);
    let inner = &input[cursor..end];
    assert(inner@ == input@.subrange(cursor as int, end as int));
    if inner.len() == 0 {
        return Ok((magic, end + 1));
    }
    let ranges = split_on_non_escaped_char(inner, 44);
    let ghost rv = ranges_view(ranges@);
    let ghost st0 = magic@;
    let mut m = magic;
    let mut k: usize = 0;
    while k < ranges.len()
        invariant
            k <= ranges@.len() == rv.len(),
            rv == ranges_view(ranges@),
            rv == split_escaped_from(inner@, 44, 0, 0),
            inner@ == input@.subrange(cursor as int, end as int),
            inner@.len() > 0,
            find_byte(input@, 41) == Some(end as int),
            st0 == magic@,
            forall|j: int| 0 <= j < ranges@.len() ==> #[trigger] ranges@[j].0 <= ranges@[j].1 <= inner@.len(),
            keywords_upto(inner@, rv, k as nat, st0) == Ok::<KeywordState, ErrorView>(m@),
        decreases ranges.len() - k,
    {
        let (a, b) = ranges[k];
        assert(rv[k as int] == (a as int, b as int));
        let kw = &inner[a..b];
        assert(kw@ == inner@.subrange(rv[k as int].0, rv[k as int].1));
        match apply_keyword(m, kw) {
            Ok(n) => {
                m = n;
            },
            Err(e) => {
                proof {
                    assert(keywords_upto(inner@, rv, (k + 1) as nat, st0) == Err::<KeywordState, ErrorView>(e@));
                    lemma_keywords_upto_err(inner@, rv, (k + 1) as nat, rv.len(), st0);
                }
                return Err(e);
            },
        }
        k += 1;
    }
    Ok((m, end + 1))
}

// ---------------------------------------------------------------------------------------------
// Short keywords and whole patterns.

/// `true` for the short magic characters that git defines but doesn't implement.
pub open spec fn is_unimplemented_short_keyword(b: u8) -> bool {
    b == 34 || b == 35 || b == 37 || b == 38 || b == 39 || b == 45 || b == 44 || b == 59 || b == 60 || b == 61
        || b == 62 || b == 64 || b == 95 || b == 96 || b == 126
}

/// The short magic of `input` from `cursor` on, accumulated into `sig`, and the position after it:
/// `/` for top, `^` or `!` for exclude, up to a `:` that ends it or the first other byte.
pub open spec fn short_keywords_from(input: Seq<u8>, cursor: int, sig: u8) -> Result<(u8, int), ErrorView>
    decreases input.len() - cursor,
{
    if cursor < 0 || cursor >= input.len() {
        Ok((sig, cursor))
    } else {
        let b = input[cursor];
        if b == 47 {
            short_keywords_from(input, cursor + 1, sig | TOP)
        } else if b == 94 || b == 33 {
            short_keywords_from(input, cursor + 1, sig | EXCLUDE)
        } else if b == 58 {
            Ok((sig, cursor + 1))
        } else if is_unimplemented_short_keyword(b) {
            Err(ErrorView::Unimplemented { short_keyword: b })
        } else {
            Ok((sig, cursor))
        }
    }
}

/// Read the short magic of `input` from `cursor` on, returning it with the position after it.
pub fn parse_short_keywords(input: &[u8], cursor: usize) -> (r: Result<(u8, usize), Error>)
    requires
        cursor <= input.len(),
    ensures
        match r {
            Ok((sig, c)) => short_keywords_from(input@, cursor as int, 0) == Ok::<(u8, int), ErrorView>(
                (sig, c as int),
            ) && cursor <= c <= input.len() && forall|j: int| cursor <= j < c ==> input@[j] != 41,
            Err(e) => short_keywords_from(input@, cursor as int, 0) == Err::<(u8, int), ErrorView>(e@),
        },
{
    let mut sig: u8 = 0;
    let mut c = cursor;
    while c < input.len()
        invariant
            cursor <= c <= input.len(),
            short_keywords_from(input@, c as int, sig) == short_keywords_from(input@, cursor as int, 0),
            forall|j: int| cursor <= j < c ==> input@[j] != 41,
        decreases input.len() - c,
    {
        let b = input[c];
        if b == 47 {
            sig = sig | TOP;
        } else if b == 94 || b == 33 {
            sig = sig | EXCLUDE;
        } else if b == 58 {
            return Ok((sig, c + 1));
        } else if b == 34 || b == 35 || b == 37 || b == 38 || b == 39 || b == 45 || b == 44 || b == 59 || b == 60
            || b == 61 || b == 62 || b == 64 || b == 95 || b == 96 || b == 126 {
            return Err(Error::Unimplemented { short_keyword: b });
        } else {
            return Ok((sig, c));
        }
        c += 1;
    }
    Ok((sig, c))
}

/// A parsed pathspec.
#[derive(Debug, Clone, PartialEq, Eq)]
pub struct Pattern {
    /// The path part of the pattern, without its magic and without a trailing slash.
    pub path: Vec<u8>,
    /// The magic of the pattern.
    pub signature: MagicSignature,
    /// How the path is matched.
    pub search_mode: SearchMode,
    /// The attributes that matching paths must have.
    pub attributes: Vec<Assignment>,
    /// The length of a prefix of `path` that was prepended to it, none after parsing.
    pub prefix_len: usize,
    /// `true` if the pattern is `:`, which matches nothing.
    pub nil: bool,
}

/// A [`Pattern`] taken by value.
pub struct PatternView {
    pub path: Seq<u8>,
    pub signature: u8,
    pub search_mode: SearchMode,
    pub attributes: Seq<AssignmentView>,
    pub prefix_len: usize,
    pub nil: bool,
}

impl View for Pattern {
    type V = PatternView;

    open spec fn view(&self) -> PatternView {
        PatternView {
            path: self.path@,
            signature: self.signature.bits,
            search_mode: self.search_mode,
            attributes: assignments_view(self.attributes@),
            prefix_len: self.prefix_len,
            nil: self.nil,
        }
    }
}

/// The pattern that takes `input` literally, with `signature` as its magic.
pub open spec fn literal_pattern(input: Seq<u8>, signature: u8) -> PatternView {
    PatternView {
        path: input,
        signature,
        search_mode: SearchMode::Literal,
        attributes: seq![],
        prefix_len: 0,
        nil: false,
    }
}

/// The magic at the start of `input` with the position of its path, starting from `signature`.
pub open spec fn magic_spec(input: Seq<u8>, signature: u8) -> Result<(KeywordState, int), ErrorView> {
    let st0 = KeywordState { signature, search_mode: SearchMode::ShellGlob, attributes: seq![] };
    if input.len() > 0 && input[0] == 58 {
        match short_keywords_from(input, 1, 0) {
            Err(e) => Err(e),
            Ok((sig, c)) => {
                let st1 = KeywordState { signature: signature | sig, ..st0 };
                if c < input.len() && input[c] == 40 {
                    long_keywords_spec(input, c + 1, st1)
                } else {
                    Ok((st1, c))
                }
            },
        }
    } else {
        Ok((st0, 0))
    }
}

/// The pattern that `input` denotes under `defaults`.
pub open spec fn from_bytes_spec(input: Seq<u8>, defaults: Defaults) -> Result<PatternView, ErrorView> {
    if input.len() == 0 {
        Err(ErrorView::EmptyString)
    } else if defaults.literal {
        Ok(literal_pattern(input, defaults.signature.bits))
    } else if input == seq![58u8] {
        Ok(
            PatternView {
                path: seq![],
                signature: 0,
                search_mode: SearchMode::ShellGlob,
                attributes: seq![],
                prefix_len: 0,
                nil: true,
            },
        )
    } else {
        match magic_spec(input, defaults.signature.bits) {
            Err(e) => Err(e),
            Ok((st, cursor)) => {
                let search_mode = if defaults.search_mode != SearchMode::ShellGlob && st.search_mode
                    == SearchMode::ShellGlob {
                    defaults.search_mode
                } else {
                    st.search_mode
                };
                let path = input.subrange(cursor, input.len() as int);
                if path.len() > 0 && path.last() == 47 {
                    Ok(
                        PatternView {
                            path: path.drop_last(),
                            signature: st.signature | MUST_BE_DIR,
                            search_mode,
                            attributes: st.attributes,
                            prefix_len: 0,
                            nil: false,
                        },
                    )
                } else {
                    Ok(
                        PatternView {
                            path,
                            signature: st.signature,
                            search_mode,
                            attributes: st.attributes,
                            prefix_len: 0,
                            nil: false,
                        },
                    )
                }
            },
        }
    }
}

impl Pattern {
    /// Try to parse a path-spec pattern from the given `input` bytes.
    pub fn from_bytes(input: &[u8], defaults: Defaults) -> (r: Result<Pattern, Error>)
        ensures
            match r {
                Ok(p) => from_bytes_spec(input@, defaults) == Ok::<PatternView, ErrorView>(p@),
                Err(e) => from_bytes_spec(input@, defaults) == Err::<PatternView, ErrorView>(e@),
            },
    {
        if input.len() == 0 {
            return Err(Error::EmptyString);
        }
        if defaults.literal {
            return Ok(Pattern::from_literal(input, defaults.signature));
        }
        if input.len() == 1 && input[0] == 58 {
            assert(input@ =~= seq![58u8]);
            let nil = Pattern {
                path: Vec::new(),
                signature: MagicSignature { bits: 0 },
                search_mode: SearchMode::ShellGlob,
                attributes: Vec::new(),
                prefix_len: 0,
                nil: true,
            };
            assert(nil@.attributes =~= seq![]);
            assert(nil@.path =~= seq![]);
            return Ok(nil);
        }
        assert(input@ != seq![58u8]);
        let mut magic = Magic {
            signature: defaults.signature.bits,
            search_mode: SearchMode::ShellGlob,
            attributes: Vec::new(),
        };
        assert(assignments_view(magic.attributes@) =~= seq![]);
        let mut cursor: usize = 0;
        if input[0] == 58 {
            let (sig, c) = match parse_short_keywords(input, 1) {
                Ok(v) => v,
                Err(e) => {
                    return Err(e);
                },
            };
            magic.signature = magic.signature | sig;
            cursor = c;
            if cursor < input.len() && input[cursor] == 40 {
                assert forall|j: int| 0 <= j < cursor + 1 implies input@[j] != 41 by {
                    if j == 0 {
                    } else if j == cursor {
                    }
                }
                match parse_long_keywords(input, cursor + 1, magic) {
                    Ok((m, c)) => {
                        magic = m;
                        cursor = c;
                    },
                    Err(e) => {
                        return Err(e);
                    },
                }
            }
        }
        assert(magic_spec(input@, defaults.signature.bits) == Ok::<(KeywordState, int), ErrorView>(
            (magic@, cursor as int),
        ));
        let search_mode = if defaults.search_mode != SearchMode::ShellGlob && magic.search_mode
            == SearchMode::ShellGlob {
            defaults.search_mode
        } else {
            magic.search_mode
        };
        let mut signature = magic.signature;
        let mut end = input.len();
        if end > cursor && input[end - 1] == 47 {
            signature = signature | MUST_BE_DIR;
            end = end - 1;
        }
        let path = crate::bytes::copy_range(input, cursor, end);
        proof {
            let whole = input@.subrange(cursor as int, input@.len() as int);
            if whole.len() > 0 && whole.last() == 47 {
                assert(path@ =~= whole.drop_last());
            } else {
                assert(path@ =~= whole);
            }
        }
        Ok(
            Pattern {
                path,
                signature: MagicSignature { bits: signature },
                search_mode,
                attributes: magic.attributes,
                prefix_len: 0,
                nil: false,
            },
        )
    }

    /// Take `input` literally without parsing anything. This will also set our mode to `literal` to
    /// allow this pathspec to match `input` verbatim, and use `default_signature` as magic signature.
    pub fn from_literal(input: &[u8], default_signature: MagicSignature) -> (r: Pattern)
        ensures
            r@ == literal_pattern(input@, default_signature.bits),
    {
        let path = crate::bytes::copy_range(input, 0, input.len());
        assert(path@ =~= input@);
        let r = Pattern {
            path,
            signature: default_signature,
            search_mode: SearchMode::Literal,
            attributes: Vec::new(),
            prefix_len: 0,
            nil: false,
        };
        assert(r@.attributes =~= seq![]);
        r
    }
}


// ---------------------------------------------------------------------------------------------
// The two short forms of exclusion.

/// Or-ing more magic into a signature keeps the magic it has, and adds what is or-ed in.
proof fn lemma_or_keeps_bit(x: u8, y: u8, bit: u8)
    ensures
        x & bit != 0 ==> (x | y) & bit != 0,
        bit != 0 ==> (x | bit) & bit != 0,
{
    assert(x & bit != 0 ==> (x | y) & bit != 0) by (bit_vector);
    assert(bit != 0 ==> (x | bit) & bit != 0) by (bit_vector);
}

/// Short magic read from `cursor` on depends on nothing before `cursor`, never moves back, and
/// keeps the exclusion and the top magic already in `sig`.
proof fn lemma_short_keywords_suffix(a: Seq<u8>, b: Seq<u8>, cursor: int, sig: u8)
    requires
        0 <= cursor,
        a.len() == b.len(),
        forall|j: int| cursor <= j < a.len() ==> a[j] == b[j],
    ensures
        short_keywords_from(a, cursor, sig) == short_keywords_from(b, cursor, sig),
        short_keywords_from(a, cursor, sig) matches Ok((s, c)) ==> c >= cursor && (sig & 4 != 0 ==> s & 4 != 0) && (sig
            & 1 != 0 ==> s & 1 != 0) && (
        cursor <= a.len() ==> c <= a.len()) && forall|j: int| cursor <= j < c ==> a[j] != 41,
    decreases a.len() - cursor,
{
    lemma_or_keeps_bit(sig, TOP, 4);
    lemma_or_keeps_bit(sig, EXCLUDE, 4);
    lemma_or_keeps_bit(sig, TOP, 1);
    lemma_or_keeps_bit(sig, EXCLUDE, 1);
    if cursor < a.len() {
        lemma_short_keywords_suffix(a, b, cursor + 1, sig | TOP);
        lemma_short_keywords_suffix(a, b, cursor + 1, sig | EXCLUDE);
    }
}

/// Two byte strings that differ only where neither holds `needle` find it at the same place.
proof fn lemma_find_byte_agrees(a: Seq<u8>, b: Seq<u8>, needle: u8)
    requires
        a.len() == b.len(),
        forall|j: int| 0 <= j < a.len() && a[j] != b[j] ==> a[j] != needle && b[j] != needle,
    ensures
        find_byte(a, needle) == find_byte(b, needle),
{
    lemma_find_byte_from(a, needle, 0);
    lemma_find_byte_from(b, needle, 0);
    match find_byte(a, needle) {
        Some(i) => {
            assert(b[i] == needle);
        },
        None => {
            if let Some(k) = find_byte(b, needle) {
                assert(a[k] == needle);
            }
        },
    }
}

/// Long keywords keep the magic `bit` the signature already has.
proof fn lemma_keywords_keep_bit(inner: Seq<u8>, ranges: Seq<(int, int)>, n: nat, st: KeywordState, bit: u8)
    requires
        st.signature & bit != 0,
    ensures
        keywords_upto(inner, ranges, n, st) matches Ok(s) ==> s.signature & bit != 0,
    decreases n,
{
    if n > 0 {
        lemma_keywords_keep_bit(inner, ranges, (n - 1) as nat, st, bit);
        if let Ok(s) = keywords_upto(inner, ranges, (n - 1) as nat, st) {
            lemma_or_keeps_bit(s.signature, TOP, bit);
            lemma_or_keeps_bit(s.signature, ICASE, bit);
            lemma_or_keeps_bit(s.signature, EXCLUDE, bit);
        }
    }
}

/// The magic `bit` that the short magic of `input` (read after its leading `:`) gives stays in
/// the signature of the pattern that `input` parses as.
proof fn lemma_short_magic_stays(input: Seq<u8>, d: Defaults, bit: u8)
    requires
        !d.literal,
        input.len() >= 2,
        input[0] == 58,
        short_keywords_from(input, 1, 0) matches Ok((s, c)) && s & bit != 0,
    ensures
        from_bytes_spec(input, d) matches Ok(v) ==> v.signature & bit != 0,
{
    assert(input != seq![58u8]) by {
        assert(input.len() != 1);
    }
    let sig = d.signature.bits;
    if let Ok((s, c)) = short_keywords_from(input, 1, 0) {
        lemma_or_keeps_bit(s, sig, bit);
        assert((sig | s) & bit != 0) by {
            assert(s & bit != 0 ==> (sig | s) & bit != 0) by (bit_vector);
        }
        let st0 = KeywordState { signature: sig, search_mode: SearchMode::ShellGlob, attributes: seq![] };
        let st1 = KeywordState { signature: sig | s, ..st0 };
        if c < input.len() && input[c] == 40 {
            if let Some(end) = find_byte(input, 41) {
                let inner = input.subrange(c + 1, end);
                let ranges = split_escaped_from(inner, 44, 0, 0);
                lemma_keywords_keep_bit(inner, ranges, ranges.len(), st1, bit);
            }
        }
        if let Ok((st, cur)) = magic_spec(input, sig) {
            lemma_or_keeps_bit(st.signature, MUST_BE_DIR, bit);
        }
    }
}

/// The short magic `/` matches from the root: unless the input is taken literally, a pattern
/// written `:/` followed by anything has the top magic when it parses.
pub proof fn lemma_slash_means_top(p: Seq<u8>, d: Defaults)
    requires
        !d.literal,
    ensures
        from_bytes_spec(seq![58u8, 47u8] + p, d) matches Ok(v) ==> v.signature & TOP != 0,
{
    let a = seq![58u8, 47u8] + p;
    assert(a[0] == 58 && a[1] == 47);
    lemma_short_keywords_suffix(a, a, 2, 0u8 | TOP);
    lemma_or_keeps_bit(0u8, TOP, 1);
    assert(short_keywords_from(a, 1, 0) == short_keywords_from(a, 2, 0u8 | TOP));
    if short_keywords_from(a, 1, 0) is Ok {
        lemma_short_magic_stays(a, d, TOP);
    } else {
        assert(a != seq![58u8]) by {
            assert(a.len() != 1);
        }
    }
}

/// The short magic `^` excludes exactly like `!`: unless the input is taken literally, a pattern
/// written `:^` followed by anything parses as the same pattern written with `:!`, and when it
/// parses, its signature excludes.
pub proof fn lemma_caret_excludes_like_bang(p: Seq<u8>, d: Defaults)
    requires
        !d.literal,
    ensures
        from_bytes_spec(seq![58u8, 94u8] + p, d) == from_bytes_spec(seq![58u8, 33u8] + p, d),
        from_bytes_spec(seq![58u8, 94u8] + p, d) matches Ok(v) ==> v.signature & EXCLUDE != 0,
{
    let a = seq![58u8, 94u8] + p;
    let b = seq![58u8, 33u8] + p;
    assert(a[0] == 58 && b[0] == 58 && a[1] == 94 && b[1] == 33);
    assert(a != seq![58u8]) by {
        assert(a.len() != 1);
    }
    assert(b != seq![58u8]) by {
        assert(b.len() != 1);
    }
    assert forall|j: int| 2 <= j < a.len() implies a[j] == b[j] by {
        assert(a[j] == p[j - 2] && b[j] == p[j - 2]);
    }
    lemma_short_keywords_suffix(a, b, 2, 0u8 | EXCLUDE);
    lemma_or_keeps_bit(0u8, EXCLUDE, 4);
    assert(short_keywords_from(a, 1, 0) == short_keywords_from(a, 2, 0u8 | EXCLUDE));
    assert(short_keywords_from(b, 1, 0) == short_keywords_from(b, 2, 0u8 | EXCLUDE));
    let sig = d.signature.bits;
    if let Ok((s, c)) = short_keywords_from(a, 2, 0u8 | EXCLUDE) {
        let st0 = KeywordState { signature: sig, search_mode: SearchMode::ShellGlob, attributes: seq![] };
        let st1 = KeywordState { signature: sig | s, ..st0 };
        if c < a.len() && a[c] == 40 {
            lemma_find_byte_agrees(a, b, 41);
            lemma_find_byte_from(a, 41, 0);
            if let Some(end) = find_byte(a, 41) {
                assert(end > c);
                assert(a.subrange(c + 1, end) =~= b.subrange(c + 1, end));
                assert(long_keywords_spec(a, c + 1, st1) == long_keywords_spec(b, c + 1, st1));
                assert(a.subrange(end + 1, a.len() as int) =~= b.subrange(end + 1, b.len() as int));
            }
            assert(magic_spec(a, sig) == magic_spec(b, sig));
        } else {
            assert(magic_spec(a, sig) == magic_spec(b, sig));
            assert(a.subrange(c, a.len() as int) =~= b.subrange(c, b.len() as int));
        }
        lemma_short_magic_stays(a, d, EXCLUDE);
    }
}

} // verus!
