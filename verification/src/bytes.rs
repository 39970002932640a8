//! Small operations on byte strings that the parsers share.
use bstr::ByteSlice;
use vstd::prelude::*;

verus! {

/// `true` if `s` begins with `prefix`.
pub open spec fn starts_with(s: Seq<u8>, prefix: Seq<u8>) -> bool {
    prefix.len() <= s.len() && s.subrange(0, prefix.len() as int) == prefix
}

/// `true` if `s` ends with `suffix`.
pub open spec fn ends_with(s: Seq<u8>, suffix: Seq<u8>) -> bool {
    suffix.len() <= s.len() && s.subrange(s.len() - suffix.len(), s.len() as int) == suffix
}

/// The ASCII lowercase of `b`; other bytes are kept.
pub open spec fn ascii_lower(b: u8) -> u8 {
    if 65 <= b <= 90 {
        (b + 32) as u8
    } else {
        b
    }
}

/// `true` if `a` and `b` are equal when ASCII letters are compared without regard to case.
pub open spec fn eq_ignore_ascii_case(a: Seq<u8>, b: Seq<u8>) -> bool {
    a.len() == b.len() && forall|i: int| 0 <= i < a.len() ==> ascii_lower(#[trigger] a[i]) == ascii_lower(b[i])
}

/// The index of the first `needle` byte in `s` at or after `from`, if any.
pub open spec fn find_byte_from(s: Seq<u8>, needle: u8, from: int) -> Option<int>
    decreases s.len() - from,
{
    if from < 0 || from >= s.len() {
        None
    } else if s[from] == needle {
        Some(from)
    } else {
        find_byte_from(s, needle, from + 1)
    }
}

/// The index of the first `needle` byte in `s`, if any.
pub open spec fn find_byte(s: Seq<u8>, needle: u8) -> Option<int> {
    find_byte_from(s, needle, 0)
}

/// A found byte is where it is said to be, and none lies before it.
pub proof fn lemma_find_byte_from(s: Seq<u8>, needle: u8, from: int)
    requires
        0 <= from,
    ensures
        match find_byte_from(s, needle, from) {
            Some(i) => from <= i < s.len() && s[i] == needle && forall|j: int|
                from <= j < i ==> s[j] != needle,
            None => forall|j: int| from <= j < s.len() ==> s[j] != needle,
        },
    decreases s.len() - from,
{
    if from < s.len() && s[from] != needle {
        lemma_find_byte_from(s, needle, from + 1);
    }
}

/// `true` if `s` begins with `prefix`.
pub fn slice_starts_with(s: &[u8], prefix: &[u8]) -> (r: bool)
    ensures
        r == starts_with(s@, prefix@),
{
    if prefix.len() > s.len() {
        return false;
    }
    let mut i: usize = 0;
    while i < prefix.len()
        invariant
            prefix.len() <= s.len(),
            i <= prefix.len(),
            forall|j: int| 0 <= j < i ==> s@[j] == prefix@[j],
        decreases prefix.len() - i,
    {
        if s[i] != prefix[i] {
            assert(s@.subrange(0, prefix.len() as int)[i as int] != prefix@[i as int]);
            return false;
        }
        i += 1;
    }
    assert(s@.subrange(0, prefix.len() as int) =~= prefix@);
    true
}

/// `true` if `s` ends with `suffix`.
pub fn slice_ends_with(s: &[u8], suffix: &[u8]) -> (r: bool)
    ensures
        r == ends_with(s@, suffix@),
{
    if suffix.len() > s.len() {
        return false;
    }
    let offset = s.len() - suffix.len();
    let mut i: usize = 0;
    while i < suffix.len()
        invariant
            offset + suffix.len() == s.len(),
            i <= suffix.len(),
            forall|j: int| 0 <= j < i ==> s@[offset + j] == suffix@[j],
        decreases suffix.len() - i,
    {
        if s[offset + i] != suffix[i] {
            assert(s@.subrange(offset as int, s.len() as int)[i as int] != suffix@[i as int]);
            return false;
        }
        i += 1;
    }
    assert(s@.subrange(offset as int, s.len() as int) =~= suffix@);
    true
}

/// `true` if `a` and `b` hold the same bytes.
pub fn slice_eq(a: &[u8], b: &[u8]) -> (r: bool)
    ensures
        r == (a@ == b@),
{
    if a.len() != b.len() {
        return false;
    }
    let mut i: usize = 0;
    while i < a.len()
        invariant
            a.len() == b.len(),
            i <= a.len(),
            forall|j: int| 0 <= j < i ==> a@[j] == b@[j],
        decreases a.len() - i,
    {
        if a[i] != b[i] {
            return false;
        }
        i += 1;
    }
    assert(a@ =~= b@);
    true
}

/// The ASCII lowercase of `b`.
pub fn to_ascii_lower(b: u8) -> (r: u8)
    ensures
        r == ascii_lower(b),
{
    if 65 <= b && b <= 90 {
        b + 32
    } else {
        b
    }
}

/// `true` if `a` and `b` are equal when ASCII letters are compared without regard to case.
pub fn slice_eq_ignore_ascii_case(a: &[u8], b: &[u8]) -> (r: bool)
    ensures
        r == eq_ignore_ascii_case(a@, b@),
{
    if a.len() != b.len() {
        return false;
    }
    let mut i: usize = 0;
    while i < a.len()
        invariant
            a.len() == b.len(),
            i <= a.len(),
            forall|j: int| 0 <= j < i ==> ascii_lower(a@[j]) == ascii_lower(b@[j]),
        decreases a.len() - i,
    {
        if to_ascii_lower(a[i]) != to_ascii_lower(b[i]) {
            return false;
        }
        i += 1;
    }
    true
}

/// The index of the first `needle` byte in `s` at or after `from`, if any.
pub fn slice_find_byte_from(s: &[u8], needle: u8, from: usize) -> (r: Option<usize>)
    ensures
        match r {
            Some(i) => find_byte_from(s@, needle, from as int) == Some(i as int),
            None => find_byte_from(s@, needle, from as int) is None,
        },
{
    let mut i = from;
    while i < s.len()
        invariant
            from <= i,
            find_byte_from(s@, needle, from as int) == find_byte_from(s@, needle, i as int),
        decreases s.len() - i,
    {
        if s[i] == needle {
            return Some(i);
        }
        i += 1;
    }
    None
}

/// A copy of `s[start..end]`.
pub fn copy_range(s: &[u8], start: usize, end: usize) -> (r: Vec<u8>)
    requires
        start <= end <= s.len(),
    ensures
        r@ == s@.subrange(start as int, end as int),
{
    let mut r: Vec<u8> = Vec::new();
    let mut i = start;
    while i < end
        invariant
            start <= i <= end <= s.len(),
            r@ == s@.subrange(start as int, i as int),
        decreases end - i,
    {
        r.push(s[i]);
        i += 1;
        assert(r@ =~= s@.subrange(start as int, i as int));
    }
    r
}

/// `line` without a carriage return at its end.
pub open spec fn trim_cr(line: Seq<u8>) -> Seq<u8> {
    if line.len() > 0 && line.last() == 13 {
        line.drop_last()
    } else {
        line
    }
}

/// The lines of `s` without their terminators, which are `\n` or `\r\n`; a last line needs no
/// terminator, and no empty line follows a final terminator.
pub open spec fn lines_spec(s: Seq<u8>) -> Seq<Seq<u8>>
    decreases s.len(),
{
    if s.len() == 0 {
        seq![]
    } else {
        match find_byte(s, 10) {
            None => seq![s],
            Some(e) => {
                proof {
                    lemma_find_byte_from(s, 10, 0);
                }
                seq![trim_cr(s.subrange(0, e))] + lines_spec(s.subrange(e + 1, s.len() as int))
            },
        }
    }
}

/// Calls `bstr::ByteSlice::lines()`, which splits at each `\n`, removes a `\r` before it, and
/// yields no empty line after a final `\n`; the contract states those lines.
#[verifier::external_body]
pub(crate) fn lines(bytes: &[u8]) -> (r: Vec<Vec<u8>>)
    ensures
        r@.len() == lines_spec(bytes@).len(),
        forall|i: int| 0 <= i < r@.len() ==> #[trigger] r@[i]@ == lines_spec(bytes@)[i],
{
    bytes.lines().map(|line| line.to_vec()).collect()
}

/// `true` if `needle` occurs in `haystack` at index `i`.
pub open spec fn is_occurrence(haystack: Seq<u8>, needle: Seq<u8>, i: int) -> bool {
    0 <= i && i + needle.len() <= haystack.len() && haystack.subrange(i, i + needle.len()) == needle
}

/// `true` if `needle` occurs in `haystack` at index `i` and nowhere after it.
pub open spec fn is_last_occurrence(haystack: Seq<u8>, needle: Seq<u8>, i: int) -> bool {
    is_occurrence(haystack, needle, i) && forall|j: int| #[trigger]
        is_occurrence(haystack, needle, j) ==> j <= i
}

/// The index of the last occurrence of `needle` in `haystack`, if any.
pub open spec fn last_occurrence(haystack: Seq<u8>, needle: Seq<u8>) -> Option<int> {
    if exists|i: int| is_last_occurrence(haystack, needle, i) {
        Some(choose|i: int| is_last_occurrence(haystack, needle, i))
    } else {
        None
    }
}

/// Calls `bstr::ByteSlice::rsplit_once_str()`, which splits `haystack` around the last occurrence of
/// `needle`; the contract states the parts before and after it.
#[verifier::external_body]
pub(crate) fn rsplit_once_str(haystack: &[u8], needle: &[u8]) -> (r: Option<(Vec<u8>, Vec<u8>)>)
    ensures
        r is Some <==> last_occurrence(haystack@, needle@) is Some,
        r matches Some((before, after)) ==> {
            let i = last_occurrence(haystack@, needle@)->0;
            &&& before@ == haystack@.subrange(0, i)
            &&& after@ == haystack@.subrange(i + needle@.len(), haystack@.len() as int)
        },
{
    haystack.rsplit_once_str(needle).map(|(before, after)| (before.to_vec(), after.to_vec()))
}

/// What `bstr` leaves of `bytes` once leading and trailing Unicode whitespace is trimmed.
pub uninterp spec fn unicode_trim(bytes: Seq<u8>) -> Seq<u8>;

/// Calls `bstr::ByteSlice::trim()`, which removes leading and trailing characters with the Unicode
/// `White_Space` property; the contract names its result.
#[verifier::external_body]
pub(crate) fn trim(bytes: &[u8]) -> (r: Vec<u8>)
    ensures
        r@ == unicode_trim(bytes@),
{
    bytes.trim().to_vec()
}

// ---------------------------------------------------------------------------------------------
// Space-separated fields.

/// `s`, or `None` where it is empty.
pub open spec fn nonempty(s: Seq<u8>) -> Option<Seq<u8>> {
    if s.len() == 0 {
        None
    } else {
        Some(s)
    }
}

/// The end of the space-separated field of `v` that starts at `start`.
pub open spec fn field_end(v: Seq<u8>, start: int) -> int {
    match find_byte_from(v, 32, start) {
        Some(e) => e,
        None => v.len() as int,
    }
}

/// The start of the `k`-th space-separated field of `v`, counting from zero, if `v` has that many.
pub open spec fn field_start(v: Seq<u8>, k: nat) -> Option<int>
    decreases k,
{
    if k == 0 {
        Some(0)
    } else {
        match field_start(v, (k - 1) as nat) {
            None => None,
            Some(s) => match find_byte_from(v, 32, s) {
                None => None,
                Some(i) => Some(i + 1),
            },
        }
    }
}

/// The `k`-th space-separated field of `v`, counting from zero, if `v` has that many.
pub open spec fn nth_field(v: Seq<u8>, k: nat) -> Option<Seq<u8>> {
    match field_start(v, k) {
        None => None,
        Some(s) => Some(v.subrange(s, field_end(v, s))),
    }
}

/// The first space-separated field of `v`, which is all of it where it holds no space.
pub open spec fn first_field(v: Seq<u8>) -> Seq<u8> {
    v.subrange(0, field_end(v, 0))
}

/// What follows the first space of `v`, if it has one.
pub open spec fn after_first_field(v: Seq<u8>) -> Option<Seq<u8>> {
    match find_byte(v, 32) {
        Some(i) => Some(v.subrange(i + 1, v.len() as int)),
        None => None,
    }
}

pub proof fn lemma_field_start_bounds(v: Seq<u8>, k: nat)
    ensures
        field_start(v, k) matches Some(s) ==> 0 <= s <= v.len(),
    decreases k,
{
    if k > 0 {
        lemma_field_start_bounds(v, (k - 1) as nat);
        if let Some(s) = field_start(v, (k - 1) as nat) {
            lemma_find_byte_from(v, 32, s);
        }
    }
}

pub proof fn lemma_field_start_none(v: Seq<u8>, j: nat, k: nat)
    requires
        j <= k,
        field_start(v, j) is None,
    ensures
        field_start(v, k) is None,
    decreases k - j,
{
    if j < k {
        lemma_field_start_none(v, j, (k - 1) as nat);
    }
}

/// The bounds of the `k`-th space-separated field of `v`, if `v` has that many.
pub fn field_bounds(v: &[u8], k: usize) -> (r: Option<(usize, usize)>)
    ensures
        match r {
            Some((s, e)) => field_start(v@, k as nat) == Some(s as int) && e == field_end(v@, s as int) && s <= e
                <= v.len(),
            None => field_start(v@, k as nat) is None,
        },
{
    let mut start: usize = 0;
    let mut j: usize = 0;
    while j < k
        invariant
            j <= k,
            start <= v.len(),
            field_start(v@, j as nat) == Some(start as int),
        decreases k - j,
    {
        proof {
            lemma_find_byte_from(v@, 32, start as int);
        }
        match slice_find_byte_from(v, 32, start) {
            None => {
                proof {
                    lemma_field_start_none(v@, (j + 1) as nat, k as nat);
                }
                return None;
            },
            Some(i) => {
                start = i + 1;
            },
        }
        j += 1;
    }
    proof {
        lemma_find_byte_from(v@, 32, start as int);
    }
    let end = match slice_find_byte_from(v, 32, start) {
        Some(e) => e,
        None => v.len(),
    };
    Some((start, end))
}

/// `v[start..end]` as an owned value, or `None` where it is empty.
pub fn nonempty_copy(v: &[u8], start: usize, end: usize) -> (r: Option<Vec<u8>>)
    requires
        start <= end <= v.len(),
    ensures
        opt_bytes(r) == nonempty(v@.subrange(start as int, end as int)),
{
    if start == end {
        None
    } else {
        Some(copy_range(v, start, end))
    }
}

/// An optional owned byte string by value.
pub open spec fn opt_bytes(o: Option<Vec<u8>>) -> Option<Seq<u8>> {
    match o {
        Some(v) => Some(v@),
        None => None,
    }
}


} // verus!
