//! Alternate object databases: parsing `objects/info/alternates`, and telling when following
//! alternates runs in a cycle. Reading files and resolving paths is left to the caller.
use bstr::ByteSlice;
use vstd::prelude::*;

use crate::bytes::{copy_range, find_byte, lemma_find_byte_from, slice_find_byte_from};

verus! {

/// What Git's C-style unquoting makes of `input`, which starts with a double quote: the unquoted
/// bytes and the amount of input bytes up to and including the closing quote.
pub uninterp spec fn ansi_c_undo(input: Seq<u8>) -> Option<(Seq<u8>, nat)>;

/// Calls `gix_quote::ansi_c::undo()` on `input`, which starts with a double quote: it unquotes up
/// to the closing quote and returns the unquoted bytes with the amount of bytes it consumed, or
/// fails on an invalid escape or a missing closing quote. The contract names the result and
/// states that what is consumed lies within `input`, as the source shows.
#[verifier::external_body]
fn unquote(input: &[u8]) -> (r: Option<(Vec<u8>, usize)>)
    requires
        input@.len() > 0,
        input@[0] == 34,
    ensures
        match r {
            Some((unquoted, consumed)) => ansi_c_undo(input@) == Some((unquoted@, consumed as nat)) && 0 < consumed
                <= input@.len(),
            None => ansi_c_undo(input@) is None,
        },
{
    match gix_quote::ansi_c::undo(input.as_bstr()) {
        Ok((unquoted, consumed)) => Some((unquoted.to_vec(), consumed)),
        Err(_) => None,
    }
}

/// An entry of an alternates file: the path it names, and the text it was given as.
#[derive(Debug, Clone, PartialEq, Eq)]
pub struct Entry {
    /// The path, unquoted where it was quoted.
    pub path: Vec<u8>,
    /// The bytes of the entry as they stand in the file.
    pub original: Vec<u8>,
}

/// The end of the line that starts `input`.
pub open spec fn end_of_line(input: Seq<u8>) -> int {
    match find_byte(input, 10) {
        Some(i) => i,
        None => input.len() as int,
    }
}

/// The path that the entry at the start of `input` names, if any, and the amount of bytes it spans:
/// comments name none; quoted entries are unquoted, falling back to the raw line where the quoting
/// is invalid; other entries are the raw line.
pub open spec fn entry_spec(input: Seq<u8>) -> (Option<Seq<u8>>, int) {
    let eol = end_of_line(input);
    if input[0] == 35 {
        (None, eol)
    } else if input[0] == 34 {
        match ansi_c_undo(input) {
            Some((unquoted, consumed)) => if consumed <= input.len() {
                (Some(unquoted), consumed as int)
            } else {
                (Some(input.subrange(0, eol)), eol)
            },
            None => (Some(input.subrange(0, eol)), eol),
        }
    } else {
        (Some(input.subrange(0, eol)), eol)
    }
}

/// The entries of the alternates file `input`, in order, without empty entries and comments.
pub open spec fn parse_spec(input: Seq<u8>) -> Seq<(Seq<u8>, Seq<u8>)>
    decreases input.len(),
{
    if input.len() == 0 {
        seq![]
    } else {
        proof {
            lemma_find_byte_from(input, 10, 0);
        }
        let (path, consumed) = entry_spec(input);
        let original = input.subrange(0, consumed);
        let next = if consumed < input.len() {
            consumed + 1
        } else {
            consumed
        };
        let rest = parse_spec(input.subrange(next, input.len() as int));
        match path {
            Some(p) => if p.len() > 0 {
                seq![(p, original)] + rest
            } else {
                rest
            },
            None => rest,
        }
    }
}

/// Entries taken by value.
pub open spec fn entries_view(v: Seq<Entry>) -> Seq<(Seq<u8>, Seq<u8>)> {
    v.map_values(|e: Entry| (e.path@, e.original@))
}

/// Parse the raw contents of an `objects/info/alternates` file from `input` into paths.
///
/// Empty entries and comments are ignored. Entries beginning with `"` use Git's C-style quoting,
/// which permits literal newlines in paths. Invalid quoting falls back to the raw entry.
pub fn parse(input: &[u8]) -> (r: Vec<Entry>)
    ensures
        entries_view(r@) == parse_spec(input@),
{
    let mut out: Vec<Entry> = Vec::new();
    let mut pos: usize = 0;
    assert(input@.len() == input.len());
    assert(input@.subrange(0, input@.len() as int) =~= input@);
    while pos < input.len()
        invariant
            pos <= input@.len(),
            input@.len() <= usize::MAX,
            entries_view(out@) + parse_spec(input@.subrange(pos as int, input@.len() as int)) == parse_spec(input@),
        decreases input.len() - pos,
    {
        let entry = &input[pos..input.len()];
        let ghost e = entry@;
        assert(e.len() > 0);
        proof {
            lemma_find_byte_from(e, 10, 0);
        }
        let eol = match slice_find_byte_from(entry, 10, 0) {
            Some(i) => i,
            None => entry.len(),
        };
        let (path, consumed): (Option<Vec<u8>>, usize) = if entry[0] == 35 {
            (None, eol)
        } else if entry[0] == 34 {
            match unquote(entry) {
                Some((unquoted, consumed)) => (Some(unquoted), consumed),
                None => (Some(copy_range(entry, 0, eol)), eol),
            }
        } else {
            (Some(copy_range(entry, 0, eol)), eol)
        };
        let original = copy_range(entry, 0, consumed);
        let next = if consumed < entry.len() {
            consumed + 1
        } else {
            consumed
        };
        proof {
            assert(entry@.subrange(next as int, entry@.len() as int) =~= input@.subrange(
                pos + next,
                input@.len() as int,
            ));
        }
        let ghost before = out@;
        match path {
            Some(p) => {
                if p.len() > 0 {
                    let ghost pv = p@;
                    out.push(Entry { path: p, original });
                    assert(entries_view(out@) =~= entries_view(before) + seq![(pv, original@)]);
                }
            },
            None => {},
        }
        pos = pos + next;
    }
    assert(input@.subrange(pos as int, input@.len() as int) =~= Seq::<u8>::empty());
    out
}

// ---------------------------------------------------------------------------------------------
// Following alternates.

/// `true` if each directory seen was named by one seen before it.
pub open spec fn parents_precede(seen: Seq<(Vec<u8>, Option<usize>)>) -> bool {
    forall|i: int| 0 <= i < seen.len() ==> ((#[trigger] seen[i]).1 matches Some(p) ==> p < i)
}

/// `idx` and the indices of all directories it was reached through, starting at `idx`.
pub open spec fn chain_spec(seen: Seq<(Vec<u8>, Option<usize>)>, idx: int) -> Seq<int>
    decreases idx,
{
    if idx < 0 || idx >= seen.len() {
        seq![]
    } else {
        seq![idx] + match seen[idx].1 {
            Some(p) => if p < idx {
                chain_spec(seen, p as int)
            } else {
                seq![]
            },
            None => seq![],
        }
    }
}

/// Yield `idx` and the indices of all directories it was reached through, starting at `idx`.
pub fn chain(seen: &[(Vec<u8>, Option<usize>)], idx: usize) -> (r: Vec<usize>)
    requires
        parents_precede(seen@),
        idx < seen@.len(),
    ensures
        r@.map_values(|i: usize| i as int) == chain_spec(seen@, idx as int),
{
    let mut out: Vec<usize> = Vec::new();
    let mut next: Option<usize> = Some(idx);
    while next.is_some()
        invariant
            parents_precede(seen@),
            next matches Some(n) ==> n < seen@.len(),
            out@.map_values(|i: usize| i as int) + (match next {
                Some(n) => chain_spec(seen@, n as int),
                None => seq![],
            }) == chain_spec(seen@, idx as int),
        decreases match next {
            Some(n) => n + 1,
            None => 0,
        },
    {
        let n = next.unwrap();
        let ghost before = out@;
        out.push(n);
        assert(out@.map_values(|i: usize| i as int) =~= before.map_values(|i: usize| i as int).push(n as int));
        let parent = seen[n].1;
        assert(seen@[n as int].1 == parent);
        next = parent;
        proof {
            match parent {
                Some(p) => {
                    assert(p < n);
                },
                None => {},
            }
        }
    }
    out
}

/// What to do with a directory whose canonical path was computed.
#[derive(Debug, Clone, PartialEq, Eq)]
pub enum Visit {
    /// The directory wasn't seen yet: read its alternates, as the directory at this index.
    New(usize),
    /// The directory was seen before, but not on the chain that leads to it: skip it.
    Skip,
    /// The directory is on the chain that leads to it: these directories form a cycle, starting at
    /// the one seen again.
    Cycle(Vec<Vec<u8>>),
}

/// The index of the first directory in `seen` whose canonical path is `dir`, if any.
pub open spec fn position_of(seen: Seq<(Vec<u8>, Option<usize>)>, dir: Seq<u8>, from: int) -> Option<int>
    decreases seen.len() - from,
{
    if from < 0 || from >= seen.len() {
        None
    } else if seen[from].0@ == dir {
        Some(from)
    } else {
        position_of(seen, dir, from + 1)
    }
}

/// The elements of `s` before the first `x`.
pub open spec fn take_until(s: Seq<int>, x: int) -> Seq<int>
    decreases s.len(),
{
    if s.len() == 0 || s[0] == x {
        seq![]
    } else {
        seq![s[0]] + take_until(s.subrange(1, s.len() as int), x)
    }
}

/// The directories of the cycle that reaching the directory at `seen_idx` again through
/// `parent_idx` closes: the directory seen again, then the chain back down to `parent_idx`.
pub open spec fn cycle_spec(seen: Seq<(Vec<u8>, Option<usize>)>, parent_idx: int, seen_idx: int) -> Seq<Seq<u8>> {
    (take_until(chain_spec(seen, parent_idx), seen_idx).map_values(|i: int| seen[i].0@) + seq![
        seen[seen_idx].0@,
    ]).reverse()
}

/// What visiting the directory with the canonical path `dir`, reached through the directory at
/// `parent_idx`, means given the directories `seen` so far.
pub open spec fn visit_spec(seen: Seq<(Vec<u8>, Option<usize>)>, dir: Seq<u8>, parent_idx: Option<usize>) -> Option<
    Option<Seq<Seq<u8>>>,
> {
    match position_of(seen, dir, 0) {
        None => None,
        Some(k) => match parent_idx {
            Some(p) => if chain_spec(seen, p as int).contains(k) {
                Some(Some(cycle_spec(seen, p as int, k)))
            } else {
                Some(None)
            },
            None => Some(None),
        },
    }
}

proof fn lemma_take_until(s: Seq<int>, x: int, j: int)
    requires
        0 <= j <= s.len(),
        forall|i: int| 0 <= i < j ==> s[i] != x,
        j == s.len() || s[j] == x,
    ensures
        take_until(s, x) == s.subrange(0, j),
    decreases s.len(),
{
    if s.len() == 0 || s[0] == x {
        assert(j == 0);
    } else {
        let t = s.subrange(1, s.len() as int);
        lemma_take_until(t, x, j - 1);
        assert(s.subrange(0, j) =~= seq![s[0]] + t.subrange(0, j - 1));
    }
}

proof fn lemma_position_of(seen: Seq<(Vec<u8>, Option<usize>)>, dir: Seq<u8>, from: int)
    requires
        0 <= from,
    ensures
        position_of(seen, dir, from) matches Some(k) ==> from <= k < seen.len() && seen[k].0@ == dir,
    decreases seen.len() - from,
{
    if from < seen.len() && seen[from].0@ != dir {
        lemma_position_of(seen, dir, from + 1);
    }
}

proof fn lemma_chain_bounds(seen: Seq<(Vec<u8>, Option<usize>)>, idx: int)
    ensures
        forall|i: int| 0 <= i < chain_spec(seen, idx).len() ==> 0 <= #[trigger] chain_spec(seen, idx)[i] < seen.len(),
    decreases idx,
{
    if 0 <= idx < seen.len() {
        if let Some(p) = seen[idx].1 {
            if p < idx {
                lemma_chain_bounds(seen, p as int);
                let c = chain_spec(seen, idx);
                assert forall|i: int| 0 <= i < c.len() implies 0 <= #[trigger] c[i] < seen.len() by {
                    if i > 0 {
                        assert(c[i] == chain_spec(seen, p as int)[i - 1]);
                    }
                }
            }
        }
    }
}

/// Check the directory with the canonical path `dir`, reached through the directory at
/// `parent_idx`, against the directories `seen` so far, recording it as seen where it is new.
/// An object directory that was resolved before is skipped, and it is an error if an alternate
/// points back into the chain of directories that is currently being followed, as that would form
/// a cycle.
pub fn visit(seen: &mut Vec<(Vec<u8>, Option<usize>)>, dir: Vec<u8>, parent_idx: Option<usize>) -> (r: Visit)
    requires
        parents_precede(old(seen)@),
        parent_idx matches Some(p) ==> p < old(seen)@.len(),
    ensures
        parents_precede(final(seen)@),
        match visit_spec(old(seen)@, dir@, parent_idx) {
            None => r == Visit::New(old(seen)@.len() as usize) && final(seen)@ == old(seen)@.push((dir, parent_idx)),
            Some(None) => r == Visit::Skip && final(seen)@ == old(seen)@,
            Some(Some(cycle)) => r matches Visit::Cycle(c) && c@.map_values(|d: Vec<u8>| d@) == cycle
                && final(seen)@ == old(seen)@,
        },
{
    let mut k: usize = 0;
    let mut found: Option<usize> = None;
    while k < seen.len()
        invariant
            k <= seen@.len(),
            seen@ == old(seen)@,
            found is None ==> position_of(seen@, dir@, 0) == position_of(seen@, dir@, k as int),
            found is Some ==> position_of(seen@, dir@, 0) == Some(found->0 as int),
            found is Some ==> k == seen@.len(),
        decreases seen.len() - k,
    {
        if crate::bytes::slice_eq(seen[k].0.as_slice(), dir.as_slice()) {
            assert(position_of(seen@, dir@, k as int) == Some(k as int));
            found = Some(k);
            k = seen.len();
        } else {
            assert(seen@[k as int].0@ != dir@);
            assert(position_of(seen@, dir@, k as int) == position_of(seen@, dir@, k + 1));
            k += 1;
        }
    }
    let seen_idx = match found {
        None => {
            let idx = seen.len();
            seen.push((dir, parent_idx));
            return Visit::New(idx);
        },
        Some(f) => f,
    };
    proof {
        lemma_position_of(seen@, dir@, 0);
    }
    let p = match parent_idx {
        None => {
            return Visit::Skip;
        },
        Some(p) => p,
    };
    let ch = chain(seen.as_slice(), p);
    let ghost cs = chain_spec(seen@, p as int);
    proof {
        lemma_chain_bounds(seen@, p as int);
    }
    let mut j: usize = 0;
    while j < ch.len() && ch[j] != seen_idx
        invariant
            j <= ch@.len() == cs.len(),
            ch@.map_values(|i: usize| i as int) == cs,
            forall|i: int| 0 <= i < j ==> cs[i] != seen_idx,
        decreases ch.len() - j,
    {
        assert(cs[j as int] == ch@[j as int] as int);
        j += 1;
    }
    if j == ch.len() {
        assert(!cs.contains(seen_idx as int));
        return Visit::Skip;
    }
    assert(cs[j as int] == seen_idx);
    proof {
        lemma_take_until(cs, seen_idx as int, j as int);
    }
    let ghost before_part = cs.subrange(0, j as int).map_values(|i: int| seen@[i].0@);
    let ghost whole = (before_part + seq![seen@[seen_idx as int].0@]).reverse();
    let mut cycle: Vec<Vec<u8>> = Vec::new();
    cycle.push(copy_range(seen[seen_idx].0.as_slice(), 0, seen[seen_idx].0.len()));
    assert(seen@[seen_idx as int].0@.subrange(0, seen@[seen_idx as int].0@.len() as int) =~= seen@[seen_idx as int].0@);
    let mut t: usize = j;
    while t > 0
        invariant
            t <= j < ch@.len() == cs.len(),
            ch@.map_values(|i: usize| i as int) == cs,
            forall|i: int| 0 <= i < cs.len() ==> 0 <= #[trigger] cs[i] < seen@.len(),
            before_part == cs.subrange(0, j as int).map_values(|i: int| seen@[i].0@),
            cycle@.map_values(|d: Vec<u8>| d@) == seq![seen@[seen_idx as int].0@] + before_part.subrange(
                t as int,
                j as int,
            ).reverse(),
        decreases t,
    {
        t -= 1;
        let idx = ch[t];
        assert(idx as int == cs[t as int]);
        let d = copy_range(seen[idx].0.as_slice(), 0, seen[idx].0.len());
        assert(d@ =~= seen@[idx as int].0@);
        let ghost before = cycle@;
        cycle.push(d);
        proof {
            assert(before_part[t as int] == seen@[idx as int].0@);
            let x = before_part.subrange(t as int, j as int);
            let y = before_part.subrange(t + 1, j as int);
            assert(x.reverse() =~= y.reverse().push(before_part[t as int]));
            assert(cycle@.map_values(|d: Vec<u8>| d@) =~= before.map_values(|d: Vec<u8>| d@).push(d@));
            assert(cycle@.map_values(|d: Vec<u8>| d@) =~= seq![seen@[seen_idx as int].0@] + before_part.subrange(
                t as int,
                j as int,
            ).reverse());
        }
    }
    assert(cycle@.map_values(|d: Vec<u8>| d@) =~= whole);
    Visit::Cycle(cycle)
}

} // verus!
