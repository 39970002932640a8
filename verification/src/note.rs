//! Git notes: the fanout layout of notes trees, where the hexadecimal id of an annotated object is
//! split into two-digit directories as far as the tree is crowded enough, and the lookup of a note
//! along that layout.
use vstd::prelude::*;

use crate::bytes::{copy_range, slice_eq};
use crate::find::{ExistingObjectError, FindTree};
use crate::hash::{hex_decoded, is_hex_digit, is_hex_object_id, HashKind, ObjectId};
use crate::merge::tree::{kind_of, EntryKind, EntryMode};
use crate::merge::tree::utils::to_components;
use crate::object_tree::editor::{
    plain_trees, upsert_loads, upsert_walk, written_as, written_tree, Editor, Error as EditError, Trees, WalkEnd, WriteTree,
};
use crate::object_tree::editor::position_from;
use crate::object_tree::{entries_view, find_entry_from, is_blob_mode, is_tree_mode, lemma_find_entry_from, Entry, EntryView, Tree};

verus! {

// ---------------------------------------------------------------------------------------------
// The fanout of note paths.

/// The value of the hexadecimal digit `b`, if it is one.
pub open spec fn hex_nibble_spec(b: u8) -> Option<u8> {
    if 48 <= b <= 57 {
        Some((b - 48) as u8)
    } else if 97 <= b <= 102 {
        Some((b - 97 + 10) as u8)
    } else if 65 <= b <= 70 {
        Some((b - 65 + 10) as u8)
    } else {
        None
    }
}

/// The value of the hexadecimal digit `byte`, if it is one.
pub fn hex_nibble(byte: u8) -> (r: Option<u8>)
    ensures
        r == hex_nibble_spec(byte),
        r matches Some(n) ==> n < 16,
{
    if 48 <= byte && byte <= 57 {
        Some(byte - 48)
    } else if 97 <= byte && byte <= 102 {
        Some(byte - 97 + 10)
    } else if 65 <= byte && byte <= 70 {
        Some(byte - 65 + 10)
    } else {
        None
    }
}

/// The bit that the digit `b` sets in a fanout mask: one per digit value, none for a non-digit.
pub open spec fn digit_bit(b: u8) -> u16 {
    match hex_nibble_spec(b) {
        Some(n) => (1u16 << n) as u16,
        None => 0,
    }
}

/// What `hex` contributes to the mask of `prefix`: the bit of its digit right after `prefix`,
/// where `hex` starts with `prefix`, `prefix` is a whole number of two-digit directories, and at
/// least two digits follow the one after it.
pub open spec fn contribution(hex: Seq<u8>, prefix: Seq<u8>) -> u16 {
    if prefix.len() % 2 == 0 && prefix.len() + 2 < hex.len() && hex.subrange(0, prefix.len() as int) == prefix {
        digit_bit(hex[prefix.len() as int])
    } else {
        0
    }
}

/// The mask of the digits that the ids in `hexes` have right after `prefix`.
pub open spec fn mask_of(hexes: Seq<Seq<u8>>, prefix: Seq<u8>) -> u16
    decreases hexes.len(),
{
    if hexes.len() == 0 {
        0
    } else {
        mask_of(hexes.drop_last(), prefix) | contribution(hexes.last(), prefix)
    }
}

/// The masks of all prefixes, by prefix, where they aren't empty.
pub struct FanoutMasks {
    entries: Vec<(Vec<u8>, u16)>,
}

/// The mask stored for `prefix` in `entries`, if any.
pub open spec fn lookup(entries: Seq<(Vec<u8>, u16)>, prefix: Seq<u8>) -> Option<u16>
    decreases entries.len(),
{
    if entries.len() == 0 {
        None
    } else if entries.last().0@ == prefix {
        Some(entries.last().1)
    } else {
        lookup(entries.drop_last(), prefix)
    }
}

/// `mask`, where it isn't empty.
pub open spec fn nonzero(mask: u16) -> Option<u16> {
    if mask == 0 {
        None
    } else {
        Some(mask)
    }
}

impl FanoutMasks {
    /// The mask stored for `prefix`, if any.
    pub closed spec fn spec_get(&self, prefix: Seq<u8>) -> Option<u16> {
        lookup(self.entries@, prefix)
    }

    /// The mask stored for `prefix`, if any.
    pub fn get(&self, prefix: &[u8]) -> (r: Option<u16>)
        ensures
            r == self.spec_get(prefix@),
    {
        let mut i = self.entries.len();
        assert(self.entries@.take(i as int) =~= self.entries@);
        while i > 0
            invariant
                i <= self.entries@.len(),
                lookup(self.entries@, prefix@) == lookup(self.entries@.take(i as int), prefix@),
            decreases i,
        {
            assert(self.entries@.take(i as int).drop_last() =~= self.entries@.take(i - 1));
            if slice_eq(self.entries[i - 1].0.as_slice(), prefix) {
                return Some(self.entries[i - 1].1);
            }
            i -= 1;
        }
        None
    }
}

proof fn lemma_or_zero(x: u16)
    ensures
        x | 0 == x,
        0 | x == x,
{
    assert(x | 0 == x) by (bit_vector);
    assert(0 | x == x) by (bit_vector);
}

proof fn lemma_or_nonzero(x: u16, y: u16)
    requires
        y != 0,
    ensures
        x | y != 0,
{
    assert(y != 0 ==> x | y != 0) by (bit_vector);
}

proof fn lemma_digit_bit_nonzero(b: u8)
    requires
        hex_nibble_spec(b) is Some,
    ensures
        digit_bit(b) != 0,
{
    let n = hex_nibble_spec(b)->0;
    assert(n < 16);
    assert(n < 16 ==> (1u16 << n) != 0) by (bit_vector);
}

/// Storing `mask` for `prefix` where it is stored already changes just that mask.
proof fn lemma_lookup_update(entries: Seq<(Vec<u8>, u16)>, k: int, key: Vec<u8>, mask: u16, p: Seq<u8>)
    requires
        0 <= k < entries.len(),
        key@ == entries[k].0@,
        forall|i: int, j: int| 0 <= i < j < entries.len() ==> entries[i].0@ != entries[j].0@,
    ensures
        lookup(entries.update(k, (key, mask)), p) == if p == entries[k].0@ {
            Some(mask)
        } else {
            lookup(entries, p)
        },
    decreases entries.len(),
{
    let updated = entries.update(k, (key, mask));
    if k == entries.len() - 1 {
        assert(updated.drop_last() =~= entries.drop_last());
    } else {
        assert(updated.drop_last() =~= entries.drop_last().update(k, (key, mask)));
        lemma_lookup_update(entries.drop_last(), k, key, mask, p);
        if p == entries[k].0@ {
            assert(entries.last().0@ != p);
        }
    }
}

/// A stored prefix is found where it is stored.
proof fn lemma_lookup_at(entries: Seq<(Vec<u8>, u16)>, k: int)
    requires
        0 <= k < entries.len(),
        forall|i: int, j: int| 0 <= i < j < entries.len() ==> entries[i].0@ != entries[j].0@,
    ensures
        lookup(entries, entries[k].0@) == Some(entries[k].1),
    decreases entries.len(),
{
    if k < entries.len() - 1 {
        assert(entries.drop_last()[k] == entries[k]);
        lemma_lookup_at(entries.drop_last(), k);
    }
}

/// A prefix that is found is stored somewhere.
proof fn lemma_lookup_found(entries: Seq<(Vec<u8>, u16)>, p: Seq<u8>)
    ensures
        lookup(entries, p) is Some ==> exists|k: int| 0 <= k < entries.len() && entries[k].0@ == p,
    decreases entries.len(),
{
    if entries.len() > 0 && entries.last().0@ != p {
        lemma_lookup_found(entries.drop_last(), p);
        if lookup(entries, p) is Some {
            let k = choose|k: int| 0 <= k < entries.drop_last().len() && entries.drop_last()[k].0@ == p;
            assert(entries[k] == entries.drop_last()[k]);
        }
    }
}

/// The masks of the digits that follow each prefix of the hexadecimal ids in `hexes`, for each
/// prefix that is a whole number of two-digit directories.
pub fn fanout_masks(hexes: &[Vec<u8>]) -> (r: FanoutMasks)
    ensures
        forall|p: Seq<u8>| #[trigger] r.spec_get(p) == nonzero(mask_of(byte_strings(hexes@), p)),
{
    let ghost all = byte_strings(hexes@);
    let mut entries: Vec<(Vec<u8>, u16)> = Vec::new();
    let mut i: usize = 0;
    while i < hexes.len()
        invariant
            i <= hexes@.len(),
            all == byte_strings(hexes@),
            forall|a: int, b: int| 0 <= a < b < entries@.len() ==> entries@[a].0@ != entries@[b].0@,
            forall|p: Seq<u8>| #[trigger] lookup(entries@, p) == nonzero(mask_of(all.take(i as int), p)),
        decreases hexes.len() - i,
    {
        let hex = &hexes[i];
        assert(all.take(i + 1).drop_last() =~= all.take(i as int));
        assert(all.take(i + 1).last() == hex@);
        assert(hex@.len() == hex.len());
        let end: usize = if hex.len() >= 2 {
            hex.len() - 2
        } else {
            0
        };
        let mut offset: usize = 0;
        proof {
            assert forall|p: Seq<u8>| #[trigger]
                lookup(entries@, p) == nonzero(
                    mask_of(all.take(i as int), p) | (if p.len() < offset {
                        contribution(hex@, p)
                    } else {
                        0
                    }),
                ) by {
                lemma_or_zero(mask_of(all.take(i as int), p));
            }
        }
        while offset < end
            invariant
                end <= usize::MAX - 2,
                i < hexes@.len(),
                hex@ == all[i as int],
                all == byte_strings(hexes@),
                end + 2 == hex@.len() || (end == 0 && hex@.len() < 2),
                offset % 2 == 0,
                forall|a: int, b: int| 0 <= a < b < entries@.len() ==> entries@[a].0@ != entries@[b].0@,
                forall|p: Seq<u8>| #[trigger]
                    lookup(entries@, p) == nonzero(
                        mask_of(all.take(i as int), p) | (if p.len() < offset {
                            contribution(hex@, p)
                        } else {
                            0
                        }),
                    ),
            decreases end + 1 - offset,
        {
            let ghost o = offset as int;
            let ghost before = entries@;
            let ghost prefix_view = hex@.subrange(0, o);
            match hex_nibble(hex[offset]) {
                None => {
                    proof {
                        assert forall|p: Seq<u8>| #[trigger]
                            lookup(entries@, p) == nonzero(
                                mask_of(all.take(i as int), p) | (if p.len() < o + 2 {
                                    contribution(hex@, p)
                                } else {
                                    0
                                }),
                            ) by {
                            lemma_or_zero(mask_of(all.take(i as int), p));
                            if p.len() == o {
                                assert(digit_bit(hex@[o]) == 0);
                            }
                        }
                    }
                },
                Some(nibble) => {
                    let bit: u16 = 1u16 << nibble;
                    let prefix = copy_range(hex.as_slice(), 0, offset);
                    proof {
                        lemma_digit_bit_nonzero(hex@[o]);
                        assert(digit_bit(hex@[o]) == bit);
                    }
                    let mut k: usize = 0;
                    let mut found_at: Option<usize> = None;
                    while k < entries.len()
                        invariant
                            k <= entries@.len(),
                            found_at matches Some(f) ==> f < entries@.len() && entries@[f as int].0@ == prefix@,
                            found_at is None ==> forall|j: int| 0 <= j < k ==> entries@[j].0@ != prefix@,
                        decreases entries.len() - k,
                    {
                        if slice_eq(entries[k].0.as_slice(), prefix.as_slice()) {
                            found_at = Some(k);
                            k = entries.len();
                        } else {
                            k += 1;
                        }
                    }
                    let found = found_at.is_some();
                    if let Some(f) = found_at {
                        k = f;
                    }
                    let ghost kk = k as int;
                    let ghost fnd = found;
                    let mut new_mask: u16 = bit;
                    if found {
                        let old_mask = entries[k].1;
                        new_mask = old_mask | bit;
                        let key = copy_range(entries[k].0.as_slice(), 0, entries[k].0.len());
                        proof {
                            assert(key@ =~= entries@[k as int].0@);
                        }
                        entries.set(k, (key, new_mask));
                    } else {
                        entries.push((prefix, bit));
                    }
                    proof {
                        if fnd {
                            assert(entries@ == before.update(kk, (entries@[kk].0, new_mask)));
                            assert(new_mask == before[kk].1 | bit);
                            assert forall|a: int, b: int| 0 <= a < b < entries@.len() implies entries@[a].0@
                                != entries@[b].0@ by {
                                assert(entries@[a].0@ == before[a].0@);
                                assert(entries@[b].0@ == before[b].0@);
                            }
                        } else {
                            assert(entries@ == before.push((prefix, bit)));
                            assert forall|a: int, b: int| 0 <= a < b < entries@.len() implies entries@[a].0@
                                != entries@[b].0@ by {
                                if b == before.len() {
                                    assert(before[a].0@ != prefix@);
                                } else {
                                    assert(entries@[a] == before[a]);
                                    assert(entries@[b] == before[b]);
                                }
                            }
                        }
                        assert forall|p: Seq<u8>| #[trigger]
                            lookup(entries@, p) == nonzero(
                                mask_of(all.take(i as int), p) | (if p.len() < o + 2 {
                                    contribution(hex@, p)
                                } else {
                                    0
                                }),
                            ) by {
                            let m = mask_of(all.take(i as int), p);
                            lemma_or_zero(m);
                            let old_target = nonzero(m | (if p.len() < o {
                                contribution(hex@, p)
                            } else {
                                0
                            }));
                            assert(lookup(before, p) == old_target);
                            if fnd {
                                lemma_lookup_update(before, kk, entries@[kk].0, new_mask, p);
                            } else {
                                assert(entries@.drop_last() =~= before);
                            }
                            if p == prefix@ {
                                assert(contribution(hex@, p) == bit);
                                lemma_or_nonzero(m, bit);
                                lemma_or_zero(bit);
                                if fnd {
                                    lemma_lookup_at(before, kk);
                                    assert(lookup(entries@, p) == Some(new_mask));
                                } else {
                                    lemma_lookup_found(before, p);
                                    assert(lookup(before, p) is None);
                                    assert(m == 0);
                                    assert(lookup(entries@, p) == Some(bit));
                                }
                            } else {
                                assert(lookup(entries@, p) == lookup(before, p));
                                if p.len() == o {
                                    assert(hex@.subrange(0, o) != p);
                                    assert(contribution(hex@, p) == 0);
                                } else if p.len() == o + 1 {
                                    assert(contribution(hex@, p) == 0);
                                }
                            }
                        }
                    }
                },
            }
            offset += 2;
        }
        proof {
            assert forall|p: Seq<u8>| #[trigger] lookup(entries@, p) == nonzero(mask_of(all.take(i + 1), p)) by {
                lemma_or_zero(mask_of(all.take(i as int), p));
            }
        }
        i += 1;
    }
    assert(all.take(i as int) =~= all);
    FanoutMasks { entries }
}

/// Byte strings taken by value.
pub open spec fn byte_strings(v: Seq<Vec<u8>>) -> Seq<Seq<u8>> {
    v.map_values(|p: Vec<u8>| p@)
}

/// How many two-digit directories the note for `hex` is placed under, from `f` on: one more for
/// each directory whose mask is full, i.e. whose 256 possible subdirectories are all spread over.
pub open spec fn fanout_from(hex: Seq<u8>, masks: FanoutMasks, f: nat) -> nat
    decreases hex.len() - 2 * f,
{
    if 2 * f + 2 < hex.len() && masks.spec_get(hex.subrange(0, (2 * f) as int)) == Some(0xffffu16) {
        fanout_from(hex, masks, f + 1)
    } else {
        f
    }
}

/// The fanout of a note path stays within the id: at least one digit follows the directories.
pub proof fn lemma_fanout_bounds(hex: Seq<u8>, masks: FanoutMasks, f: nat)
    ensures
        fanout_from(hex, masks, f) >= f,
        fanout_from(hex, masks, f) == f || 2 * fanout_from(hex, masks, f) < hex.len(),
    decreases hex.len() - 2 * f,
{
    if 2 * f + 2 < hex.len() && masks.spec_get(hex.subrange(0, (2 * f) as int)) == Some(0xffffu16) {
        lemma_fanout_bounds(hex, masks, f + 1);
    }
}

/// How many two-digit directories the note for the hexadecimal id `hex` is placed under.
pub fn fanout(hex: &[u8], masks: &FanoutMasks) -> (r: usize)
    ensures
        r == fanout_from(hex@, *masks, 0),
{
    let mut f: usize = 0;
    assert(hex@.len() == hex.len());
    while 2 * f < hex.len() && hex.len() - 2 * f > 2
        invariant
            2 * f <= hex@.len(),
            hex@.len() <= usize::MAX,
            fanout_from(hex@, *masks, f as nat) == fanout_from(hex@, *masks, 0),
        decreases hex.len() - 2 * f,
    {
        let prefix = &hex[0..2 * f];
        match masks.get(prefix) {
            Some(m) => {
                if m != 0xffff {
                    return f;
                }
            },
            None => {
                return f;
            },
        }
        f += 1;
    }
    f
}

/// The path of the note for `hex` under `fanout` two-digit directories, as in `ab/cd/ef01...`.
pub open spec fn note_path_spec(hex: Seq<u8>, fanout: nat) -> Seq<u8>
    decreases fanout,
{
    if fanout == 0 || hex.len() < 2 {
        hex
    } else {
        hex.subrange(0, 2) + seq![47u8] + note_path_spec(hex.subrange(2, hex.len() as int), (fanout - 1) as nat)
    }
}

/// The path of the note for `hex` under `fanout` two-digit directories.
pub fn note_path(hex: &[u8], fanout: usize) -> (r: Vec<u8>)
    requires
        2 * fanout <= hex.len(),
    ensures
        r@ == note_path_spec(hex@, fanout as nat),
{
    let mut out: Vec<u8> = Vec::new();
    let mut j: usize = 0;
    assert(hex@.len() == hex.len());
    assert(hex@.subrange(0, hex@.len() as int) =~= hex@);
    while j < fanout
        invariant
            j <= fanout,
            2 * fanout <= hex@.len(),
            hex@.len() <= usize::MAX,
            out@ + note_path_spec(hex@.subrange(2 * j, hex@.len() as int), (fanout - j) as nat) == note_path_spec(
                hex@,
                fanout as nat,
            ),
        decreases fanout - j,
    {
        let ghost rest = hex@.subrange(2 * j, hex@.len() as int);
        assert(rest.subrange(2, rest.len() as int) =~= hex@.subrange(2 * j + 2, hex@.len() as int));
        assert(rest.subrange(0, 2) =~= seq![hex@[2 * j], hex@[2 * j + 1]]);
        out.push(hex[2 * j]);
        out.push(hex[2 * j + 1]);
        out.push(47);
        j += 1;
    }
    let tail = copy_range(hex, 2 * fanout, hex.len());
    let ghost before = out@;
    let mut k: usize = 0;
    while k < tail.len()
        invariant
            k <= tail@.len(),
            out@ == before + tail@.subrange(0, k as int),
        decreases tail.len() - k,
    {
        out.push(tail[k]);
        k += 1;
        assert(out@ =~= before + tail@.subrange(0, k as int));
    }
    assert(tail@.subrange(0, k as int) =~= tail@);
    out
}

/// Placing a note under a fanout only inserts the separators: the digits read in order give back
/// the id, and the path is as long as the id and its separators.
pub proof fn lemma_note_path_keeps_the_id(hex: Seq<u8>, fanout: nat)
    requires
        2 * fanout <= hex.len(),
    ensures
        note_path_spec(hex, fanout).len() == hex.len() + fanout,
        note_path_spec(hex, fanout).subrange(3 * fanout as int, (hex.len() + fanout) as int) == hex.subrange(
            2 * fanout as int,
            hex.len() as int,
        ),
        forall|j: int|
            0 <= j < fanout ==> {
                &&& #[trigger] note_path_spec(hex, fanout)[3 * j] == hex[2 * j]
                &&& note_path_spec(hex, fanout)[3 * j + 1] == hex[2 * j + 1]
                &&& note_path_spec(hex, fanout)[3 * j + 2] == 47
            },
    decreases fanout,
{
    if fanout > 0 {
        let rest = hex.subrange(2, hex.len() as int);
        lemma_note_path_keeps_the_id(rest, (fanout - 1) as nat);
        let p = note_path_spec(hex, fanout);
        let q = note_path_spec(rest, (fanout - 1) as nat);
        assert(p == hex.subrange(0, 2) + seq![47u8] + q);
        assert(p.subrange(3 * fanout as int, (hex.len() + fanout) as int) =~= q.subrange(
            3 * (fanout - 1) as int,
            (rest.len() + fanout - 1) as int,
        ));
        assert(rest.subrange(2 * (fanout - 1) as int, rest.len() as int) =~= hex.subrange(
            2 * fanout as int,
            hex.len() as int,
        ));
        assert forall|j: int| 0 <= j < fanout implies {
            &&& #[trigger] p[3 * j] == hex[2 * j]
            &&& p[3 * j + 1] == hex[2 * j + 1]
            &&& p[3 * j + 2] == 47
        } by {
            if j > 0 {
                assert(p[3 * j] == q[3 * (j - 1)]);
                assert(q[3 * (j - 1)] == rest[2 * (j - 1)]);
            }
        }
    } else {
        assert(hex.subrange(0, hex.len() as int) =~= hex);
    }
}

// ---------------------------------------------------------------------------------------------
// Looking up a note.

/// What looking at one notes tree tells about the note for an object whose hexadecimal id ends in
/// the digits that are still to be matched.
#[derive(Debug, Clone, PartialEq, Eq)]
pub enum Lookup {
    /// The note is the blob with this id.
    Found(ObjectId),
    /// There is no note.
    Missing,
    /// Continue in the subtree with this id, with the first two of the remaining digits matched.
    Descend(ObjectId),
}

/// What the notes tree `tree` tells about the note whose id ends in `remaining`: a blob named
/// `remaining` is the note; otherwise, while more than two digits remain, the subtree named by the
/// first two of them holds it, if there is one.
pub open spec fn lookup_step_spec(tree: Tree, remaining: Seq<u8>) -> Option<(bool, ObjectId)> {
    match find_entry_from(tree.entries@, remaining, false, 0) {
        Some(k) if is_blob_mode(tree.entries@[k].mode) => Some((true, tree.entries@[k].oid)),
        _ => if remaining.len() <= 2 {
            None
        } else {
            match find_entry_from(tree.entries@, remaining.subrange(0, 2), true, 0) {
                Some(k) => Some((false, tree.entries@[k].oid)),
                None => None,
            }
        },
    }
}

/// Look for the note whose id ends in `remaining` in the notes tree `tree`. Trees are loaded
/// lazily along the progressive two-digit fanout path, which the caller follows while the answer
/// is to descend, with two digits less to match each time; entries that do not conform to Git's
/// notes layout are ignored.
pub fn get_step(tree: &Tree, remaining: &[u8]) -> (r: Lookup)
    ensures
        match lookup_step_spec(*tree, remaining@) {
            Some((true, id)) => r matches Lookup::Found(n) && n@ == id@,
            Some((false, id)) => r matches Lookup::Descend(t) && t@ == id@,
            None => r is Missing,
        },
{
    proof {
        lemma_find_entry_from(tree.entries@, remaining@, false, 0);
    }
    if let Some(entry) = tree.bisect_entry(remaining, false) {
        if entry.mode.is_blob() {
            return Lookup::Found(entry.oid.copied());
        }
    }
    if remaining.len() <= 2 {
        return Lookup::Missing;
    }
    let component = &remaining[0..2];
    proof {
        lemma_find_entry_from(tree.entries@, component@, true, 0);
    }
    match tree.bisect_entry(component, true) {
        Some(subtree) => Lookup::Descend(subtree.oid.copied()),
        None => Lookup::Missing,
    }
}

/// The lowercase hexadecimal digit of the value `n`, below 16.
pub open spec fn hex_digit(n: int) -> u8 {
    if n < 10 {
        (48 + n) as u8
    } else {
        (87 + n) as u8
    }
}

/// `bytes` in lowercase hexadecimal, two digits per byte, the more significant first.
pub open spec fn hex_of(bytes: Seq<u8>) -> Seq<u8> {
    Seq::new(
        2 * bytes.len(),
        |i: int| if i % 2 == 0 {
            hex_digit(bytes[i / 2] as int / 16)
        } else {
            hex_digit(bytes[i / 2] as int % 16)
        },
    )
}

/// The lowercase hexadecimal form of `id`.
pub fn to_hex(id: &ObjectId) -> (r: Vec<u8>)
    ensures
        r@ == hex_of(id@),
{
    let mut out: Vec<u8> = Vec::new();
    let mut i: usize = 0;
    while i < id.bytes.len()
        invariant
            i <= id@.len(),
            out@ == hex_of(id@.subrange(0, i as int)),
        decreases id.bytes.len() - i,
    {
        let b = id.bytes[i];
        let high = b / 16;
        let low = b % 16;
        out.push(if high < 10 {
            48 + high
        } else {
            87 + high
        });
        out.push(if low < 10 {
            48 + low
        } else {
            87 + low
        });
        i += 1;
        assert(out@ =~= hex_of(id@.subrange(0, i as int)));
    }
    assert(id@.subrange(0, id@.len() as int) =~= id@);
    out
}

/// What the notes tree with the entries `entries` tells about the note whose id ends in
/// `remaining`, as [`lookup_step_spec`] says.
pub open spec fn step_view(entries: Seq<EntryView>, remaining: Seq<u8>) -> Option<(bool, Seq<u8>)> {
    match position_from(entries, remaining, false, 0) {
        Some(k) if is_blob_mode(entries[k].mode) => Some((true, entries[k].oid)),
        _ => if remaining.len() <= 2 {
            None
        } else {
            match position_from(entries, remaining.subrange(0, 2), true, 0) {
                Some(k) => Some((false, entries[k].oid)),
                None => None,
            }
        },
    }
}

proof fn lemma_find_entry_view(entries: Seq<Entry>, name: Seq<u8>, is_dir: bool, i: int)
    requires
        0 <= i,
    ensures
        find_entry_from(entries, name, is_dir, i) == position_from(entries_view(entries), name, is_dir, i),
    decreases entries.len() - i,
{
    if i < entries.len() {
        assert(entries_view(entries)[i] == entries[i]@);
        lemma_find_entry_view(entries, name, is_dir, i + 1);
    }
}

/// The note for the object whose hexadecimal id ends in `remaining`, in the notes tree that
/// `objects` stores under `tree_id`: `None` if a tree on the way is not stored, else what the
/// lookup finds, if anything.
pub open spec fn note_walk<F: FindTree>(objects: &F, tree_id: Seq<u8>, remaining: Seq<u8>) -> Option<Option<Seq<u8>>>
    decreases remaining.len(),
{
    match objects.stored(tree_id) {
        None => None,
        Some(entries) => match step_view(entries, remaining) {
            Some((true, id)) => Some(Some(id)),
            Some((false, id)) => if remaining.len() > 2 {
                note_walk(objects, id, remaining.subrange(2, remaining.len() as int))
            } else {
                Some(None)
            },
            None => Some(None),
        },
    }
}

/// The note of `object` in the notes tree `root`, looking up trees in `objects` along the
/// progressive two-digit fanout path; entries that do not conform to the notes layout are ignored.
/// That the note is a blob is taken from its mode, not checked in `objects`.
pub fn get<F: FindTree>(root: ObjectId, object: &ObjectId, objects: &F) -> (r: Result<Option<ObjectId>, ExistingObjectError>)
    ensures
        r matches Ok(found) ==> note_walk(objects, root@, hex_of(object@)) == Some(
            match found {
                Some(n) => Some(n@),
                None => None,
            },
        ),
{
    let hex = to_hex(object);
    let mut start: usize = 0;
    let mut tree_id = root;
    assert(hex@.subrange(0, hex@.len() as int) =~= hex@);
    loop
        invariant
            start <= hex@.len(),
            hex@ == hex_of(object@),
            note_walk(objects, root@, hex@) == note_walk(objects, tree_id@, hex@.subrange(start as int, hex@.len() as int)),
        decreases hex@.len() - start,
    {
        let tree = match objects.find_tree(&tree_id) {
            Ok(t) => t,
            Err(e) => {
                return Err(e);
            },
        };
        let remaining = copy_range(hex.as_slice(), start, hex.len());
        proof {
            lemma_find_entry_view(tree.entries@, remaining@, false, 0);
            lemma_find_entry_view(tree.entries@, remaining@.subrange(0, 2), true, 0);
            lemma_find_entry_from(tree.entries@, remaining@, false, 0);
            lemma_find_entry_from(tree.entries@, remaining@.subrange(0, 2), true, 0);
            let entries = entries_view(tree.entries@);
            if let Some(k) = find_entry_from(tree.entries@, remaining@, false, 0) {
                assert(entries[k] == tree.entries@[k]@);
            }
            if let Some(k) = find_entry_from(tree.entries@, remaining@.subrange(0, 2), true, 0) {
                assert(entries[k] == tree.entries@[k]@);
            }
        }
        match get_step(&tree, remaining.as_slice()) {
            Lookup::Found(n) => {
                return Ok(Some(n));
            },
            Lookup::Missing => {
                return Ok(None);
            },
            Lookup::Descend(t) => {
                assert(remaining@.subrange(2, remaining@.len() as int) =~= hex@.subrange(start + 2, hex@.len() as int));
                tree_id = t;
                start = start + 2;
            },
        }
    }
}

// ---------------------------------------------------------------------------------------------
// Changing notes.

/// The result of changing one note mapping.
#[derive(Debug, Clone, PartialEq, Eq)]
pub struct Edit {
    /// The root tree containing the changed notes.
    pub tree: ObjectId,
    /// The note previously associated with the annotated object, if there was one.
    pub previous: Option<ObjectId>,
}

/// The error returned when changing notes, where writing trees fails with `E`.
#[derive(Debug)]
pub enum Error<E> {
    /// Notes, annotated objects and their root tree must use the same kind of hash.
    HashKindMismatch,
    /// More than one note maps to `object`.
    MultipleNotes { object: ObjectId },
    /// A notes tree could not be loaded.
    Find(ExistingObjectError),
    /// An entry could not be placed in the new notes tree.
    Edit(EditError),
    /// A new notes tree could not be written.
    Write(E),
}

/// An entry of a notes tree that is no note, kept when the tree is rewritten.
#[derive(Debug)]
pub struct NonNote {
    /// Its path, by components.
    pub path: Vec<Vec<u8>>,
    /// Its mode.
    pub mode: EntryMode,
    /// Its id.
    pub oid: ObjectId,
}

/// What a [`NonNote`] is.
pub struct NonNoteView {
    pub path: Seq<Seq<u8>>,
    pub mode: EntryMode,
    pub oid: Seq<u8>,
}

/// The notes as pairs of annotated object and note, and the entries that are no notes.
pub type Collected = (Seq<(Seq<u8>, Seq<u8>)>, Seq<NonNoteView>);

/// `true` if every byte of `s` is a hexadecimal digit.
pub open spec fn all_hex_digits(s: Seq<u8>) -> bool {
    forall|i: int| 0 <= i < s.len() ==> is_hex_digit(#[trigger] s[i])
}

/// The notes and other entries of the notes tree that `objects` stores under `tree_id`, whose
/// path starts with `path_prefix` and the hexadecimal ids below it with `hex_prefix`, for ids of
/// `hex_len` digits; `None` if a tree on the way is not stored.
pub open spec fn collect_tree<F: FindTree>(objects: &F, tree_id: Seq<u8>, hex_prefix: Seq<u8>, path_prefix: Seq<Seq<u8>>, hex_len: int) -> Option<
    Collected,
>
    decreases hex_len - hex_prefix.len(), 1int, 0int,
{
    match objects.stored(tree_id) {
        None => None,
        Some(entries) => collect_entries(objects, entries, hex_prefix, path_prefix, hex_len),
    }
}

/// What [`collect_tree`] collects from `entries`, in their order: blobs that complete an id are
/// notes, two-digit trees that do not complete one are searched for more, and all else is kept as
/// it is.
pub open spec fn collect_entries<F: FindTree>(
    objects: &F,
    entries: Seq<EntryView>,
    hex_prefix: Seq<u8>,
    path_prefix: Seq<Seq<u8>>,
    hex_len: int,
) -> Option<Collected>
    decreases hex_len - hex_prefix.len(), 0int, entries.len(),
{
    if entries.len() == 0 {
        Some((seq![], seq![]))
    } else {
        let e = entries[0];
        let hex = hex_prefix + e.filename;
        let path = path_prefix.push(e.filename);
        let here = if is_blob_mode(e.mode) && e.filename.len() + hex_prefix.len() == hex_len && is_hex_object_id(hex) {
            Some((seq![(hex_decoded(hex), e.oid)], Seq::<NonNoteView>::empty()))
        } else if is_tree_mode(e.mode) && e.filename.len() == 2 && hex_prefix.len() + 2 < hex_len && all_hex_digits(
            e.filename,
        ) {
            collect_tree(objects, e.oid, hex, path, hex_len)
        } else {
            Some((Seq::<(Seq<u8>, Seq<u8>)>::empty(), seq![NonNoteView { path, mode: e.mode, oid: e.oid }]))
        };
        match (here, collect_entries(objects, entries.drop_first(), hex_prefix, path_prefix, hex_len)) {
            (Some((n1, m1)), Some((n2, m2))) => Some((n1 + n2, m1 + m2)),
            _ => None,
        }
    }
}

/// No two notes of `notes` annotate the same object.
pub open spec fn keys_unique(notes: Seq<(Seq<u8>, Seq<u8>)>) -> bool {
    forall|i: int, j: int| 0 <= i < j < notes.len() ==> notes[i].0 != notes[j].0
}

/// The note that `notes` maps `object` to, if any.
pub open spec fn note_of(notes: Seq<(Seq<u8>, Seq<u8>)>, object: Seq<u8>) -> Option<Seq<u8>>
    decreases notes.len(),
{
    if notes.len() == 0 {
        None
    } else if notes[0].0 == object {
        Some(notes[0].1)
    } else {
        note_of(notes.drop_first(), object)
    }
}

/// The pairs of `notes`, taken by value.
pub open spec fn notes_view(notes: Seq<(ObjectId, ObjectId)>) -> Seq<(Seq<u8>, Seq<u8>)> {
    notes.map_values(|p: (ObjectId, ObjectId)| (p.0@, p.1@))
}

/// The entries that are no notes, taken by value.
pub open spec fn non_notes_view(non_notes: Seq<NonNote>) -> Seq<NonNoteView> {
    non_notes.map_values(|n: NonNote| NonNoteView { path: n.path@.map_values(|c: Vec<u8>| c@), mode: n.mode, oid: n.oid@ })
}

/// The index of the note for `object` in `notes`.
fn note_index(notes: &Vec<(ObjectId, ObjectId)>, object: &ObjectId) -> (r: Option<usize>)
    ensures
        match r {
            Some(k) => k < notes@.len() && notes@[k as int].0@ == object@ && forall|j: int| 0 <= j < k ==> notes@[j].0@ != object@,
            None => forall|j: int| 0 <= j < notes@.len() ==> notes@[j].0@ != object@,
        },
{
    let mut i: usize = 0;
    while i < notes.len()
        invariant
            i <= notes@.len(),
            forall|j: int| 0 <= j < i ==> notes@[j].0@ != object@,
        decreases notes.len() - i,
    {
        if slice_eq(notes[i].0.bytes.as_slice(), object.bytes.as_slice()) {
            return Some(i);
        }
        i += 1;
    }
    None
}

proof fn lemma_note_of_at(notes: Seq<(Seq<u8>, Seq<u8>)>, object: Seq<u8>, k: int)
    requires
        0 <= k < notes.len(),
        notes[k].0 == object,
        forall|j: int| 0 <= j < k ==> notes[j].0 != object,
    ensures
        note_of(notes, object) == Some(notes[k].1),
    decreases k,
{
    if k > 0 {
        lemma_note_of_at(notes.drop_first(), object, k - 1);
    }
}

proof fn lemma_note_of_none(notes: Seq<(Seq<u8>, Seq<u8>)>, object: Seq<u8>)
    requires
        forall|j: int| 0 <= j < notes.len() ==> notes[j].0 != object,
    ensures
        note_of(notes, object) is None,
    decreases notes.len(),
{
    if notes.len() > 0 {
        lemma_note_of_none(notes.drop_first(), object);
    }
}

/// A copy of `s`.
fn copy_vec(s: &Vec<u8>) -> (r: Vec<u8>)
    ensures
        r@ == s@,
{
    let r = copy_range(s.as_slice(), 0, s.len());
    assert(r@ =~= s@);
    r
}

/// A copy of the path `p`.
fn copy_path(p: &Vec<Vec<u8>>) -> (r: Vec<Vec<u8>>)
    ensures
        r@.map_values(|c: Vec<u8>| c@) == p@.map_values(|c: Vec<u8>| c@),
{
    let mut out: Vec<Vec<u8>> = Vec::new();
    let mut i: usize = 0;
    while i < p.len()
        invariant
            i <= p@.len(),
            out@.map_values(|c: Vec<u8>| c@) == p@.map_values(|c: Vec<u8>| c@).subrange(0, i as int),
        decreases p.len() - i,
    {
        let c = copy_vec(&p[i]);
        let ghost before = out@.map_values(|c: Vec<u8>| c@);
        out.push(c);
        assert(out@.map_values(|c: Vec<u8>| c@) =~= before.push(c@));
        assert(p@.map_values(|c: Vec<u8>| c@).subrange(0, i + 1) =~= p@.map_values(|c: Vec<u8>| c@).subrange(0, i as int).push(
            p@[i as int]@,
        ));
        i += 1;
    }
    assert(p@.map_values(|c: Vec<u8>| c@).subrange(0, p@.len() as int) =~= p@.map_values(|c: Vec<u8>| c@));
    out
}

/// `true` if every byte of `s` is a hexadecimal digit.
fn is_all_hex(s: &[u8]) -> (r: bool)
    ensures
        r == all_hex_digits(s@),
{
    let mut i: usize = 0;
    while i < s.len()
        invariant
            i <= s@.len(),
            forall|j: int| 0 <= j < i ==> is_hex_digit(#[trigger] s@[j]),
        decreases s.len() - i,
    {
        if hex_nibble(s[i]).is_none() {
            return false;
        }
        i += 1;
    }
    true
}

/// `a` followed by `b`.
fn concat(a: &[u8], b: &[u8]) -> (r: Vec<u8>)
    ensures
        r@ == a@ + b@,
{
    let mut out = copy_range(a, 0, a.len());
    let ghost start = out@;
    let mut i: usize = 0;
    while i < b.len()
        invariant
            i <= b@.len(),
            out@ == start + b@.subrange(0, i as int),
        decreases b.len() - i,
    {
        out.push(b[i]);
        i += 1;
        assert(out@ =~= start + b@.subrange(0, i as int));
    }
    assert(b@.subrange(0, b@.len() as int) =~= b@);
    assert(start =~= a@);
    out
}

/// Collect the notes of the notes tree `tree_id` into `notes` and its other entries into
/// `non_notes`, as [`collect_tree`] says, failing where a tree cannot be loaded or two notes map
/// to one object.
fn collect<F: FindTree, E>(
    tree_id: &ObjectId,
    hex_prefix: &Vec<u8>,
    path_prefix: &Vec<Vec<u8>>,
    hex_len: usize,
    objects: &F,
    notes: &mut Vec<(ObjectId, ObjectId)>,
    non_notes: &mut Vec<NonNote>,
) -> (r: Result<(), Error<E>>)
    requires
        hex_prefix@.len() <= hex_len,
        keys_unique(notes_view(old(notes)@)),
    ensures
        keys_unique(notes_view(final(notes)@)),
        !(r matches Err(Error::HashKindMismatch)),
        r is Ok ==> (collect_tree(objects, tree_id@, hex_prefix@, path_prefix@.map_values(|c: Vec<u8>| c@), hex_len as int) matches Some(
            (n, m),
        ) && notes_view(final(notes)@) == notes_view(old(notes)@) + n && non_notes_view(final(non_notes)@)
            == non_notes_view(old(non_notes)@) + m),
    decreases hex_len - hex_prefix@.len(), 1int,
{
    let ghost pp = path_prefix@.map_values(|c: Vec<u8>| c@);
    let tree = match objects.find_tree(tree_id) {
        Ok(t) => t,
        Err(e) => {
            return Err(Error::Find(e));
        },
    };
    let ghost all = entries_view(tree.entries@);
    let ghost start_notes = notes_view(notes@);
    let ghost start_non_notes = non_notes_view(non_notes@);
    let mut i: usize = 0;
    assert(all.subrange(0, all.len() as int) =~= all);
    while i < tree.entries.len()
        invariant
            i <= tree.entries@.len(),
            all == entries_view(tree.entries@),
            hex_prefix@.len() <= hex_len,
            pp == path_prefix@.map_values(|c: Vec<u8>| c@),
            objects.stored(tree_id@) == Some(all),
            keys_unique(notes_view(notes@)),
            notes_view(notes@).len() >= start_notes.len(),
            notes_view(notes@).subrange(0, start_notes.len() as int) == start_notes,
            non_notes_view(non_notes@).len() >= start_non_notes.len(),
            non_notes_view(non_notes@).subrange(0, start_non_notes.len() as int) == start_non_notes,
            collect_entries(objects, all, hex_prefix@, pp, hex_len as int) == match collect_entries(
                objects,
                all.subrange(i as int, all.len() as int),
                hex_prefix@,
                pp,
                hex_len as int,
            ) {
                Some((n, m)) => Some((
                    notes_view(notes@).subrange(start_notes.len() as int, notes_view(notes@).len() as int) + n,
                    non_notes_view(non_notes@).subrange(start_non_notes.len() as int, non_notes_view(non_notes@).len() as int) + m,
                )),
                None => None,
            },
        decreases tree.entries@.len() - i,
    {
        let ghost rest = all.subrange(i as int, all.len() as int);
        let ghost before_notes = notes_view(notes@);
        let ghost before_non_notes = non_notes_view(non_notes@);
        let entry = &tree.entries[i];
        assert(rest[0] == entry@);
        assert(rest.drop_first() =~= all.subrange(i + 1, all.len() as int));
        let hex = concat(hex_prefix.as_slice(), entry.filename.as_slice());
        let mut path = copy_path(path_prefix);
        let ghost path_before = path@;
        path.push(copy_vec(&entry.filename));
        assert(path@.map_values(|c: Vec<u8>| c@) =~= pp.push(entry.filename@));
        let mut handled = false;
        if entry.mode.is_blob() && entry.filename.len() == hex_len - hex_prefix.len() {
            if let Some(object) = ObjectId::from_hex(hex.as_slice()) {
                match note_index(notes, &object) {
                    Some(_) => {
                        return Err(Error::MultipleNotes { object });
                    },
                    None => {},
                }
                let pair = (object, entry.oid.copied());
                notes.push(pair);
                proof {
                    assert(notes_view(notes@) =~= before_notes.push((pair.0@, pair.1@)));
                    assert(notes_view(notes@).subrange(start_notes.len() as int, notes_view(notes@).len() as int) =~= before_notes.subrange(
                        start_notes.len() as int,
                        before_notes.len() as int,
                    ) + seq![(pair.0@, pair.1@)]);
                    assert(notes_view(notes@).subrange(0, start_notes.len() as int) =~= before_notes.subrange(0, start_notes.len() as int));
                }
                handled = true;
            }
        }
        if !handled {
            if entry.mode.is_tree() && entry.filename.len() == 2 && hex_len - hex_prefix.len() > 2 && is_all_hex(
                entry.filename.as_slice(),
            ) {
                match collect(&entry.oid, &hex, &path, hex_len, objects, notes, non_notes) {
                    Ok(()) => {
                        proof {
                            let (n, m) = collect_tree(objects, entry.oid@, hex@, path@.map_values(|c: Vec<u8>| c@), hex_len as int)->0;
                            assert(notes_view(notes@).subrange(start_notes.len() as int, notes_view(notes@).len() as int) =~= before_notes.subrange(
                                start_notes.len() as int,
                                before_notes.len() as int,
                            ) + n);
                            assert(notes_view(notes@).subrange(0, start_notes.len() as int) =~= before_notes.subrange(0, start_notes.len() as int));
                            assert(non_notes_view(non_notes@).subrange(start_non_notes.len() as int, non_notes_view(non_notes@).len() as int)
                                =~= before_non_notes.subrange(start_non_notes.len() as int, before_non_notes.len() as int) + m);
                            assert(non_notes_view(non_notes@).subrange(0, start_non_notes.len() as int) =~= before_non_notes.subrange(
                                0,
                                start_non_notes.len() as int,
                            ));
                        }
                    },
                    Err(e) => {
                        return Err(e);
                    },
                }
            } else {
                let kept = NonNote { path, mode: entry.mode, oid: entry.oid.copied() };
                let ghost kept_view = NonNoteView { path: kept.path@.map_values(|c: Vec<u8>| c@), mode: kept.mode, oid: kept.oid@ };
                non_notes.push(kept);
                proof {
                    assert(non_notes_view(non_notes@) =~= before_non_notes.push(kept_view));
                    assert(non_notes_view(non_notes@).subrange(start_non_notes.len() as int, non_notes_view(non_notes@).len() as int)
                        =~= before_non_notes.subrange(start_non_notes.len() as int, before_non_notes.len() as int) + seq![kept_view]);
                    assert(non_notes_view(non_notes@).subrange(0, start_non_notes.len() as int) =~= before_non_notes.subrange(
                        0,
                        start_non_notes.len() as int,
                    ));
                }
            }
        }
        i += 1;
    }
    assert(notes_view(notes@) =~= start_notes + notes_view(notes@).subrange(start_notes.len() as int, notes_view(notes@).len() as int));
    assert(non_notes_view(non_notes@) =~= start_non_notes + non_notes_view(non_notes@).subrange(
        start_non_notes.len() as int,
        non_notes_view(non_notes@).len() as int,
    ));
    Ok(())
}

/// The components of `path` as slices.
fn component_slices(path: &Vec<Vec<u8>>) -> (r: Vec<&[u8]>)
    ensures
        r@.len() == path@.len(),
        r@.map_values(|c: &[u8]| c@) == path@.map_values(|c: Vec<u8>| c@),
{
    let mut out: Vec<&[u8]> = Vec::new();
    let mut i: usize = 0;
    while i < path.len()
        invariant
            i <= path@.len(),
            out@.len() == i,
            out@.map_values(|c: &[u8]| c@) == path@.map_values(|c: Vec<u8>| c@).subrange(0, i as int),
        decreases path.len() - i,
    {
        let ghost before = out@.map_values(|c: &[u8]| c@);
        out.push(path[i].as_slice());
        assert(out@.map_values(|c: &[u8]| c@) =~= before.push(path@[i as int]@));
        assert(path@.map_values(|c: Vec<u8>| c@).subrange(0, i + 1) =~= path@.map_values(|c: Vec<u8>| c@).subrange(
            0,
            i as int,
        ).push(path@[i as int]@));
        i += 1;
    }
    assert(path@.map_values(|c: Vec<u8>| c@).subrange(0, path@.len() as int) =~= path@.map_values(|c: Vec<u8>| c@));
    out
}

/// How many two-digit directories the note for `hex` is placed under among the notes with the
/// ids `hexes`, from `f` on: one more for each directory whose mask is full.
pub open spec fn fanout_among(hexes: Seq<Seq<u8>>, hex: Seq<u8>, f: nat) -> nat
    decreases hex.len() - 2 * f,
{
    if 2 * f + 2 < hex.len() && nonzero(mask_of(hexes, hex.subrange(0, (2 * f) as int))) == Some(0xffffu16) {
        fanout_among(hexes, hex, f + 1)
    } else {
        f
    }
}

proof fn lemma_fanout_among(hexes: Seq<Seq<u8>>, masks: FanoutMasks, hex: Seq<u8>, f: nat)
    requires
        forall|p: Seq<u8>| #[trigger] masks.spec_get(p) == nonzero(mask_of(hexes, p)),
    ensures
        fanout_from(hex, masks, f) == fanout_among(hexes, hex, f),
    decreases hex.len() - 2 * f,
{
    assert(masks.spec_get(hex.subrange(0, (2 * f) as int)) == nonzero(mask_of(hexes, hex.subrange(0, (2 * f) as int))));
    if 2 * f + 2 < hex.len() && nonzero(mask_of(hexes, hex.subrange(0, (2 * f) as int))) == Some(0xffffu16) {
        lemma_fanout_among(hexes, masks, hex, f + 1);
    }
}

/// The hexadecimal ids of the annotated objects of `notes`.
pub open spec fn note_hexes(notes: Seq<(ObjectId, ObjectId)>) -> Seq<Seq<u8>> {
    notes.map_values(|n: (ObjectId, ObjectId)| hex_of(n.0@))
}

/// The entries that writing the notes `notes` and the other entries `non_notes` places, in order,
/// each by its path's components, its kind and its id: every other entry at its path, then every
/// note at the path its annotated object's id gets along the fanout of all the notes.
pub open spec fn note_placements(notes: Seq<(ObjectId, ObjectId)>, non_notes: Seq<NonNote>) -> Seq<(Seq<Seq<u8>>, EntryKind, Seq<u8>)> {
    Seq::new(
        non_notes.len(),
        |i: int| (non_notes[i].path@.map_values(|c: Vec<u8>| c@), kind_of(non_notes[i].mode.value), non_notes[i].oid@),
    ) + Seq::new(
        notes.len(),
        |i: int|
            (
                crate::merge::tree::utils::components(
                    note_path_spec(note_hexes(notes)[i], fanout_among(note_hexes(notes), note_hexes(notes)[i], 0)),
                ),
                EntryKind::Blob,
                notes[i].1@,
            ),
    )
}

/// The trees of an editor after placing `items` one after the other, loading from `objects`, and
/// how the last walk ended: placing stops at the first walk that does not end well.
pub open spec fn place_all<F: FindTree>(objects: &F, trees: Trees, items: Seq<(Seq<Seq<u8>>, EntryKind, Seq<u8>)>) -> (
    Trees,
    WalkEnd,
)
    decreases items.len(),
{
    if items.len() == 0 {
        (trees, WalkEnd::Done)
    } else {
        let walk = upsert_walk(trees, objects, seq![], items[0].0, items[0].1, items[0].2, false);
        if walk.2 == WalkEnd::Done {
            place_all(objects, walk.0, items.drop_first())
        } else {
            (walk.0, walk.2)
        }
    }
}

/// Placing `items` one after the other loads an existing tree from `objects` on the way.
pub open spec fn place_loads<F: FindTree>(objects: &F, trees: Trees, items: Seq<(Seq<Seq<u8>>, EntryKind, Seq<u8>)>) -> bool
    decreases items.len(),
{
    if items.len() == 0 {
        false
    } else {
        let walk = upsert_walk(trees, objects, seq![], items[0].0, items[0].1, items[0].2, false);
        upsert_loads(trees, objects, seq![], items[0].0, items[0].1, items[0].2, false) || (walk.2 == WalkEnd::Done
            && place_loads(objects, walk.0, items.drop_first()))
    }
}

/// The trees of an editor that starts from an empty root tree.
pub open spec fn empty_root() -> Trees {
    Map::<Seq<u8>, Seq<EntryView>>::empty().insert(seq![], seq![])
}

/// Write a notes tree holding `notes` along Git's fanout layout and the entries `non_notes` at
/// their paths, creating trees of `hash`, through `out`.
fn write_notes<F: FindTree, W: WriteTree>(
    notes: &Vec<(ObjectId, ObjectId)>,
    non_notes: &Vec<NonNote>,
    hash: HashKind,
    objects: &F,
    out: &W,
) -> (r: Result<ObjectId, Error<W::Error>>)
    ensures
        !(r matches Err(Error::HashKindMismatch)),
        match r {
            Ok(_) => place_all(objects, empty_root(), note_placements(notes@, non_notes@)).1 == WalkEnd::Done,
            Err(Error::Edit(EditError::EmptyPathComponent)) => place_all(objects, empty_root(), note_placements(notes@, non_notes@)).1
                == WalkEnd::EmptyComponent,
            Err(Error::Edit(EditError::FindExistingObject(_))) => place_loads(objects, empty_root(), note_placements(notes@, non_notes@)),
            Err(Error::Write(_)) => place_all(objects, empty_root(), note_placements(notes@, non_notes@)).1 == WalkEnd::Done,
            Err(_) => false,
        },
        r matches Ok(id) ==> notes_tree_written(objects, out, notes@, non_notes@, id@),
{
    let ghost items = note_placements(notes@, non_notes@);
    let ghost nn = non_notes@.len();
    let ghost mut loaded = false;
    let root = Tree { entries: Vec::new() };
    assert(entries_view(root.entries@) =~= Seq::<EntryView>::empty());
    let mut editor = Editor::new(root, objects, hash);
    assert(editor.trees() =~= empty_root());
    assert(items.skip(0) =~= items);
    let mut i: usize = 0;
    while i < non_notes.len()
        invariant
            i <= non_notes@.len(),
            nn == non_notes@.len(),
            items == note_placements(notes@, non_notes@),
            editor.wf(),
            editor.objects() == objects,
            place_all(objects, empty_root(), items) == place_all(objects, editor.trees(), items.skip(i as int)),
            place_loads(objects, empty_root(), items) == (loaded || place_loads(objects, editor.trees(), items.skip(i as int))),
        decreases non_notes.len() - i,
    {
        let entry = &non_notes[i];
        let slices = component_slices(&entry.path);
        let ghost rest = items.skip(i as int);
        assert(rest[0] == items[i as int]);
        assert(rest.drop_first() =~= items.skip(i + 1));
        assert(crate::object_tree::editor::components(slices@) == items[i as int].0);
        let ghost before = editor.trees();
        let ghost step_loads = upsert_loads(before, objects, seq![], rest[0].0, rest[0].1, rest[0].2, false);
        match editor.upsert_in_place(slices.as_slice(), entry.mode.kind(), entry.oid.copied()) {
            Ok(()) => {},
            Err(e) => {
                return Err(Error::Edit(e));
            },
        }
        proof {
            loaded = loaded || step_loads;
        }
        i += 1;
    }
    let mut hexes: Vec<Vec<u8>> = Vec::new();
    let mut k: usize = 0;
    while k < notes.len()
        invariant
            k <= notes@.len(),
            hexes@.len() == k,
            forall|m: int| 0 <= m < k ==> #[trigger] hexes@[m]@ == note_hexes(notes@)[m],
        decreases notes.len() - k,
    {
        hexes.push(to_hex(&notes[k].0));
        k += 1;
    }
    assert(byte_strings(hexes@) =~= note_hexes(notes@));
    let masks = fanout_masks(hexes.as_slice());
    let mut j: usize = 0;
    while j < notes.len()
        invariant
            j <= notes@.len(),
            hexes@.len() == notes@.len(),
            forall|m: int| 0 <= m < notes@.len() ==> #[trigger] hexes@[m]@ == note_hexes(notes@)[m],
            forall|p: Seq<u8>| #[trigger] masks.spec_get(p) == nonzero(mask_of(note_hexes(notes@), p)),
            nn == non_notes@.len(),
            items == note_placements(notes@, non_notes@),
            editor.wf(),
            editor.objects() == objects,
            place_all(objects, empty_root(), items) == place_all(objects, editor.trees(), items.skip(nn + j)),
            place_loads(objects, empty_root(), items) == (loaded || place_loads(objects, editor.trees(), items.skip(nn + j))),
        decreases notes.len() - j,
    {
        let hex = hexes[j].as_slice();
        let f = fanout(hex, &masks);
        proof {
            lemma_fanout_bounds(hex@, masks, 0);
            lemma_fanout_among(note_hexes(notes@), masks, hex@, 0);
        }
        let path = note_path(hex, f);
        let comps = to_components(path.as_slice());
        let slices = component_slices(&comps);
        let ghost rest = items.skip(nn + j);
        assert(rest[0] == items[nn + j]);
        assert(rest.drop_first() =~= items.skip(nn + j + 1));
        assert(crate::object_tree::editor::components(slices@) == items[nn + j].0);
        let ghost before = editor.trees();
        let ghost step_loads = upsert_loads(before, objects, seq![], rest[0].0, rest[0].1, rest[0].2, false);
        match editor.upsert_in_place(slices.as_slice(), EntryKind::Blob, notes[j].1.copied()) {
            Ok(()) => {},
            Err(e) => {
                return Err(Error::Edit(e));
            },
        }
        proof {
            loaded = loaded || step_loads;
        }
        j += 1;
    }
    assert(items.skip((nn + notes@.len()) as int) =~= Seq::<(Seq<Seq<u8>>, EntryKind, Seq<u8>)>::empty());
    match editor.write(out) {
        Ok(id) => Ok(id),
        Err(e) => Err(Error::Write(e)),
    }
}

/// The amount of hexadecimal digits of ids of the kind of `id`.
pub open spec fn hex_len_of(id: Seq<u8>) -> int {
    if id.len() == 32 {
        64
    } else {
        40
    }
}

/// The notes of the notes tree `root` that `objects` stores, with the other entries, if all trees
/// are stored.
pub open spec fn notes_of<F: FindTree>(objects: &F, root: Seq<u8>) -> Option<Collected> {
    collect_tree(objects, root, seq![], seq![], hex_len_of(root))
}

/// An id taken by value.
pub open spec fn id_view(id: Option<ObjectId>) -> Option<Seq<u8>> {
    match id {
        Some(i) => Some(i@),
        None => None,
    }
}

/// The position of the note for `object` in `notes`, if there is one.
pub open spec fn note_position(notes: Seq<(Seq<u8>, Seq<u8>)>, object: Seq<u8>) -> Option<int>
    decreases notes.len(),
{
    if notes.len() == 0 {
        None
    } else if notes[0].0 == object {
        Some(0)
    } else {
        match note_position(notes.drop_first(), object) {
            Some(k) => Some(k + 1),
            None => None,
        }
    }
}

/// `notes` with the note of `object` set to `note`, or removed where `note` is `None`; a new note
/// comes last.
pub open spec fn edited_notes(notes: Seq<(Seq<u8>, Seq<u8>)>, object: Seq<u8>, note: Option<Seq<u8>>) -> Seq<(Seq<u8>, Seq<u8>)> {
    match note_position(notes, object) {
        Some(k) => match note {
            Some(n) => notes.update(k, (notes[k].0, n)),
            None => notes.remove(k),
        },
        None => match note {
            Some(n) => notes.push((object, n)),
            None => notes,
        },
    }
}

proof fn lemma_note_position_at(notes: Seq<(Seq<u8>, Seq<u8>)>, object: Seq<u8>, k: int)
    requires
        0 <= k < notes.len(),
        notes[k].0 == object,
        forall|j: int| 0 <= j < k ==> notes[j].0 != object,
    ensures
        note_position(notes, object) == Some(k),
    decreases k,
{
    if k > 0 {
        lemma_note_position_at(notes.drop_first(), object, k - 1);
    }
}

proof fn lemma_note_position_none(notes: Seq<(Seq<u8>, Seq<u8>)>, object: Seq<u8>)
    requires
        forall|j: int| 0 <= j < notes.len() ==> notes[j].0 != object,
    ensures
        note_position(notes, object) is None,
    decreases notes.len(),
{
    if notes.len() > 0 {
        lemma_note_position_none(notes.drop_first(), object);
    }
}

/// `id` is what `out` says it gives the root of a notes tree holding `notes` along Git's fanout
/// layout and `non_notes` at their paths, once all of it is written, where the trees on the way
/// have plain names and `out` says which ids it gives.
pub open spec fn notes_tree_written<F: FindTree, W: WriteTree>(
    objects: &F,
    out: &W,
    notes: Seq<(ObjectId, ObjectId)>,
    non_notes: Seq<NonNote>,
    id: Seq<u8>,
) -> bool {
    let trees = place_all(objects, empty_root(), note_placements(notes, non_notes)).0;
    plain_trees(trees) ==> match written_tree(trees, out, seq![]) {
        Some(w) => written_as(out.id_of(w), id),
        None => true,
    }
}

/// What changing the note of `object` to `note`, or removing it, produced, given the notes tree
/// `root`: the note it had before; the unchanged root where nothing was removed, else the root
/// that `out` gave the notes tree rewritten with the edited notes and the other entries.
pub open spec fn edited<F: FindTree, W: WriteTree>(objects: &F, out: &W, root: Seq<u8>, object: Seq<u8>, note: Option<Seq<u8>>, e: Edit) -> bool {
    exists|c: Collected|
        #[trigger] notes_of(objects, root) == Some(c) && keys_unique(c.0) && id_view(e.previous) == note_of(c.0, object) && (
        if note is None && e.previous is None {
            e.tree@ == root
        } else {
            exists|ns: Seq<(ObjectId, ObjectId)>, nn: Seq<NonNote>|
                #![trigger notes_view(ns), non_notes_view(nn)]
                notes_view(ns) == edited_notes(c.0, object, note) && non_notes_view(nn) == c.1 && notes_tree_written(
                    objects,
                    out,
                    ns,
                    nn,
                    e.tree@,
                )
        })
}

/// Set the note of `object` to `note`, or remove it, in the notes tree `root`.
fn edit<F: FindTree, W: WriteTree>(root: ObjectId, object: ObjectId, note: Option<ObjectId>, objects: &F, out: &W) -> (r: Result<
    Edit,
    Error<W::Error>,
>)
    ensures
        !(r matches Err(Error::HashKindMismatch)),
        r matches Ok(e) ==> edited(objects, out, root@, object@, id_view(note), e),
{
    let mut notes: Vec<(ObjectId, ObjectId)> = Vec::new();
    let mut non_notes: Vec<NonNote> = Vec::new();
    let hex_len = root.kind().len_in_hex();
    let prefix: Vec<u8> = Vec::new();
    let path: Vec<Vec<u8>> = Vec::new();
    assert(notes_view(notes@) =~= Seq::<(Seq<u8>, Seq<u8>)>::empty());
    assert(non_notes_view(non_notes@) =~= Seq::<NonNoteView>::empty());
    assert(prefix@ =~= Seq::<u8>::empty());
    assert(path@.map_values(|c: Vec<u8>| c@) =~= Seq::<Seq<u8>>::empty());
    match collect(&root, &prefix, &path, hex_len, objects, &mut notes, &mut non_notes) {
        Ok(()) => {},
        Err(e) => {
            return Err(e);
        },
    }
    let ghost collected = notes_of(objects, root@)->0;
    assert(notes_view(notes@) == collected.0);
    let removing = note.is_none();
    assert(collected.1 =~= non_notes_view(non_notes@));
    let ghost nv = notes_view(notes@);
    let previous = match note_index(&notes, &object) {
        Some(k) => {
            proof {
                lemma_note_of_at(notes_view(notes@), object@, k as int);
                lemma_note_position_at(notes_view(notes@), object@, k as int);
            }
            let before = notes[k].1.copied();
            match note {
                Some(n) => {
                    notes[k].1 = n;
                    assert(notes_view(notes@) =~= nv.update(k as int, (nv[k as int].0, n@)));
                },
                None => {
                    let _ = notes.remove(k);
                    assert(notes_view(notes@) =~= nv.remove(k as int));
                },
            }
            Some(before)
        },
        None => {
            proof {
                lemma_note_of_none(notes_view(notes@), object@);
                lemma_note_position_none(notes_view(notes@), object@);
            }
            match note {
                Some(n) => {
                    let added = (object.copied(), n);
                    notes.push(added);
                    assert(notes_view(notes@) =~= nv.push((object@, added.1@)));
                },
                None => {},
            }
            None
        },
    };
    assert(id_view(previous) == note_of(collected.0, object@));
    let nothing_removed = removing && previous.is_none();
    if nothing_removed {
        return Ok(Edit { tree: root, previous });
    }
    assert(notes_view(notes@) == edited_notes(collected.0, object@, id_view(note)));
    assert(non_notes_view(non_notes@) == collected.1);
    let tree = match write_notes(&notes, &non_notes, root.kind(), objects, out) {
        Ok(t) => t,
        Err(e) => {
            return Err(e);
        },
    };
    Ok(Edit { tree, previous })
}

/// The kind of hash of `id`, by its length.
pub open spec fn kind_of_id(id: Seq<u8>) -> HashKind {
    if id.len() == 32 {
        HashKind::Sha256
    } else {
        HashKind::Sha1
    }
}

/// Replace the note of `object` with `note`, or add it, in the notes tree `root`, returning the
/// new root tree and the previous note. The notes tree is rewritten along Git's fanout layout,
/// keeping entries that are no notes; trees are looked up in `objects` and written through `out`.
/// That `note` is a blob is not checked. The three ids must be of one kind of hash.
pub fn replace<F: FindTree, W: WriteTree>(root: ObjectId, object: ObjectId, note: ObjectId, objects: &F, out: &W) -> (r: Result<
    Edit,
    Error<W::Error>,
>)
    ensures
        r matches Err(Error::HashKindMismatch) <==> (kind_of_id(object@) != kind_of_id(root@) || kind_of_id(note@)
            != kind_of_id(root@)),
        r matches Ok(e) ==> edited(objects, out, root@, object@, Some(note@), e),
{
    if object.kind() != root.kind() || note.kind() != root.kind() {
        return Err(Error::HashKindMismatch);
    }
    edit(root, object, Some(note), objects, out)
}

/// Remove the note of `object` from the notes tree `root`, returning the new root tree and the
/// removed note; where there is no note, the root is returned as it is. The two ids must be of
/// one kind of hash.
pub fn remove<F: FindTree, W: WriteTree>(root: ObjectId, object: ObjectId, objects: &F, out: &W) -> (r: Result<
    Edit,
    Error<W::Error>,
>)
    ensures
        r matches Err(Error::HashKindMismatch) <==> kind_of_id(object@) != kind_of_id(root@),
        r matches Ok(e) ==> edited(objects, out, root@, object@, None, e),
{
    if object.kind() != root.kind() {
        return Err(Error::HashKindMismatch);
    }
    edit(root, object, None, objects, out)
}

} // verus!
