//! Git pack delta decoding: the delta header sizes and the copy/insert instruction stream.
use vstd::prelude::*;

verus! {

/// Returned when failing to apply deltas.
#[derive(Debug, Clone, Copy, PartialEq, Eq)]
pub enum ApplyError {
    Corrupt { message: &'static str },
    UnsupportedCommandCode,
    DeltaCopyBaseSliceMismatch,
    DeltaCopyDataSliceMismatch,
}

/// The value of the first `k` 7-bit groups of a delta header size, least significant group first,
/// as it is accumulated into a `u64`.
pub open spec fn header_size_value(d: Seq<u8>, k: nat) -> u64
    decreases k,
{
    if k == 0 {
        0
    } else {
        header_size_value(d, (k - 1) as nat) | (((d[k - 1] & 0x7f) as u64) << ((7 * (k - 1)) as u64))
    }
}

/// Index of the first byte at or after `i` whose continuation bit is clear, if any.
pub open spec fn first_terminator_from(d: Seq<u8>, i: nat) -> Option<nat>
    decreases d.len() - i,
{
    if i >= d.len() {
        None
    } else if d[i as int] & 0x80 == 0 {
        Some(i)
    } else {
        first_terminator_from(d, i + 1)
    }
}

/// What [`decode_header_size`] yields for `d`: the size and the number of consumed bytes, or the error.
pub open spec fn decode_header_size_spec(d: Seq<u8>) -> Result<(u64, usize), ApplyError> {
    match first_terminator_from(d, 0) {
        Some(t) => if t < 10 {
            Ok((header_size_value(d, t + 1), (t + 1) as usize))
        } else {
            Err(ApplyError::Corrupt { message: "delta header size uses more bits than fit into u64" })
        },
        None => if d.len() > 10 {
            Err(ApplyError::Corrupt { message: "delta header size uses more bits than fit into u64" })
        } else {
            Err(ApplyError::Corrupt { message: "delta header size is truncated" })
        },
    }
}

proof fn lemma_first_terminator_step(d: Seq<u8>, i: nat)
    requires
        i < d.len(),
        d[i as int] & 0x80 != 0,
    ensures
        first_terminator_from(d, i) == first_terminator_from(d, i + 1),
{
}

proof fn lemma_first_terminator_bounds(d: Seq<u8>, i: nat)
    ensures
        first_terminator_from(d, i) matches Some(t) ==> i <= t < d.len() && d[t as int] & 0x80 == 0,
    decreases d.len() - i,
{
    if i < d.len() && d[i as int] & 0x80 != 0 {
        lemma_first_terminator_bounds(d, i + 1);
    }
}

/// Given the decompressed pack delta `d`, decode a size in bytes (either the base object size or the result object size).
pub fn decode_header_size(d: &[u8]) -> (r: Result<(u64, usize), ApplyError>)
    ensures
        r == decode_header_size_spec(d@),
{
    let mut shift: u64 = 0;
    let mut size: u64 = 0;
    let mut consumed: usize = 0;
    while consumed < d.len()
        invariant
            consumed <= d.len(),
            consumed <= 10,
            shift == 7 * consumed,
            size == header_size_value(d@, consumed as nat),
            first_terminator_from(d@, 0) == first_terminator_from(d@, consumed as nat),
        decreases d.len() - consumed,
    {
        if shift >= 64 {
            proof {
                lemma_first_terminator_bounds(d@, consumed as nat);
            }
            return Err(ApplyError::Corrupt { message: "delta header size uses more bits than fit into u64" });
        }
        let cmd = d[consumed];
        consumed += 1;
        size = size | (((cmd & 0x7f) as u64) << shift);
        shift += 7;
        if cmd & 0x80 == 0 {
            return Ok((size, consumed));
        }
        proof {
            lemma_first_terminator_step(d@, (consumed - 1) as nat);
        }
    }
    Err(ApplyError::Corrupt { message: "delta header size is truncated" })
}

} // verus!

verus! {

/// Whether the copy command `cmd` carries its `k`-th argument byte (0..4: offset bytes, 4..7: size bytes).
pub open spec fn copy_field_present(cmd: u8, k: nat) -> bool {
    if k == 0 {
        cmd & 0x01 != 0
    } else if k == 1 {
        cmd & 0x02 != 0
    } else if k == 2 {
        cmd & 0x04 != 0
    } else if k == 3 {
        cmd & 0x08 != 0
    } else if k == 4 {
        cmd & 0x10 != 0
    } else if k == 5 {
        cmd & 0x20 != 0
    } else {
        cmd & 0x40 != 0
    }
}

/// The little-endian weight of the `k`-th copy argument byte within its field.
pub open spec fn copy_field_weight(k: nat) -> int {
    if k == 0 || k == 4 {
        1
    } else if k == 1 || k == 5 {
        0x100
    } else if k == 2 || k == 6 {
        0x10000
    } else {
        0x1000000
    }
}

/// Reads the copy arguments for fields `k..7` starting at `pos`, given the offset and size accumulated so far.
/// Yields `(offset, size, position after the arguments)`, or `None` if the arguments are truncated.
pub open spec fn copy_args(data: Seq<u8>, cmd: u8, k: nat, pos: int, ofs: int, size: int) -> Option<(int, int, int)>
    decreases 7 - k,
{
    if k >= 7 {
        Some((ofs, size, pos))
    } else if copy_field_present(cmd, k) {
        if 0 <= pos < data.len() {
            let v = data[pos] as int * copy_field_weight(k);
            if k < 4 {
                copy_args(data, cmd, k + 1, pos + 1, ofs + v, size)
            } else {
                copy_args(data, cmd, k + 1, pos + 1, ofs, size + v)
            }
        } else {
            None
        }
    } else {
        copy_args(data, cmd, k + 1, pos, ofs, size)
    }
}

/// One delta instruction at `i`: the bytes it produces and the position of the next instruction.
pub open spec fn delta_step(base: Seq<u8>, data: Seq<u8>, i: int) -> Result<(Seq<u8>, int), ApplyError> {
    let cmd = data[i];
    if cmd & 0x80 != 0 {
        match copy_args(data, cmd, 0, i + 1, 0, 0) {
            None => Err(ApplyError::Corrupt { message: "delta copy instruction is truncated" }),
            Some((ofs, size0, next)) => {
                let size = if size0 == 0 { 0x10000 } else { size0 };
                if ofs + size > usize::MAX {
                    Err(ApplyError::Corrupt { message: "delta copy range overflows" })
                } else if ofs + size > base.len() {
                    Err(ApplyError::Corrupt { message: "delta copy range exceeds base object size" })
                } else {
                    Ok((base.subrange(ofs, ofs + size), next))
                }
            },
        }
    } else if cmd == 0 {
        Err(ApplyError::Corrupt { message: "delta command 0 is reserved and invalid" })
    } else {
        let end = i + 1 + cmd as int;
        if end > usize::MAX {
            Err(ApplyError::Corrupt { message: "delta insert range overflows" })
        } else if end > data.len() {
            Err(ApplyError::Corrupt { message: "delta insert data is truncated" })
        } else {
            Ok((data.subrange(i + 1, end), end))
        }
    }
}

/// Reading copy arguments never moves backwards nor past the end of `data`.
pub proof fn lemma_copy_args_advance(data: Seq<u8>, cmd: u8, k: nat, pos: int, ofs: int, size: int)
    requires
        0 <= pos <= data.len(),
    ensures
        copy_args(data, cmd, k, pos, ofs, size) matches Some((o, s, e)) ==> pos <= e <= data.len(),
    decreases 7 - k,
{
    if k < 7 {
        if copy_field_present(cmd, k) {
            if 0 <= pos < data.len() {
                let v = data[pos] as int * copy_field_weight(k);
                if k < 4 {
                    lemma_copy_args_advance(data, cmd, k + 1, pos + 1, ofs + v, size);
                } else {
                    lemma_copy_args_advance(data, cmd, k + 1, pos + 1, ofs, size + v);
                }
            }
        } else {
            lemma_copy_args_advance(data, cmd, k + 1, pos, ofs, size);
        }
    }
}

/// Every successful instruction moves forward within `data`.
pub proof fn lemma_delta_step_advances(base: Seq<u8>, data: Seq<u8>, i: int)
    requires
        0 <= i < data.len(),
    ensures
        delta_step(base, data, i) matches Ok((chunk, next)) ==> i < next <= data.len(),
{
    let cmd = data[i];
    if cmd & 0x80 != 0 {
        lemma_copy_args_advance(data, cmd, 0, i + 1, 0, 0);
    }
}

/// Runs the instructions from `i` on, appending what they produce to `out`.
/// Yields everything produced and the error that stopped the run, if any.
pub open spec fn delta_run(base: Seq<u8>, data: Seq<u8>, i: int, out: Seq<u8>) -> (Seq<u8>, Option<ApplyError>)
    decreases data.len() - i,
{
    if i < 0 || i >= data.len() {
        (out, None)
    } else {
        match delta_step(base, data, i) {
            Err(e) => (out, Some(e)),
            Ok((chunk, next)) => {
                proof {
                    lemma_delta_step_advances(base, data, i);
                }
                delta_run(base, data, next, out + chunk)
            },
        }
    }
}

/// What a target of length `n` holds after writing `produced` into it from the start, truncating what does not fit.
pub open spec fn written_into(old_target: Seq<u8>, produced: Seq<u8>) -> Seq<u8> {
    if produced.len() >= old_target.len() {
        produced.take(old_target.len() as int)
    } else {
        produced + old_target.skip(produced.len() as int)
    }
}

/// The result of [`apply`] for a `target` of length `n`.
pub open spec fn apply_result(base: Seq<u8>, data: Seq<u8>, n: nat) -> Result<(), ApplyError> {
    let (produced, err) = delta_run(base, data, 0, Seq::empty());
    match err {
        Some(e) => Err(e),
        None => if produced.len() < n {
            Err(ApplyError::Corrupt { message: "delta instructions produced fewer bytes than promised" })
        } else {
            Ok(())
        },
    }
}

} // verus!

verus! {

fn copy_field_present_exec(cmd: u8, k: usize) -> (r: bool)
    requires
        k < 7,
    ensures
        r == copy_field_present(cmd, k as nat),
{
    let mask: u8 = if k == 0 {
        0x01
    } else if k == 1 {
        0x02
    } else if k == 2 {
        0x04
    } else if k == 3 {
        0x08
    } else if k == 4 {
        0x10
    } else if k == 5 {
        0x20
    } else {
        0x40
    };
    cmd & mask != 0
}

fn copy_field_weight_exec(k: usize) -> (r: u64)
    requires
        k < 7,
    ensures
        r == copy_field_weight(k as nat),
        r <= 0x1000000,
{
    if k == 0 || k == 4 {
        1
    } else if k == 1 || k == 5 {
        0x100
    } else if k == 2 || k == 6 {
        0x10000
    } else {
        0x1000000
    }
}

/// The largest value the fields below `k` can add up to.
spec fn field_bound(k: nat) -> int {
    if k == 0 {
        0
    } else if k == 1 {
        0xff
    } else if k == 2 {
        0xffff
    } else if k == 3 {
        0xffffff
    } else {
        0xffffffff
    }
}

/// Reads the arguments of the copy instruction `cmd` found at `i`.
fn read_copy_args(data: &[u8], cmd: u8, i: usize) -> (r: Option<(u64, u64, usize)>)
    requires
        i < data.len(),
    ensures
        match copy_args(data@, cmd, 0, i + 1, 0, 0) {
            None => r is None,
            Some((o, s, e)) => r matches Some((ro, rs, re)) && ro == o && rs == s && re == e,
        },
        r matches Some((ro, rs, re)) ==> ro <= 0xffffffff && rs <= 0xffffff && re <= data.len(),
{
    let mut k: usize = 0;
    let mut pos: usize = i + 1;
    let mut ofs: u64 = 0;
    let mut size: u64 = 0;
    while k < 7
        invariant
            k <= 7,
            i < pos <= data.len(),
            ofs <= field_bound(if k <= 4 { k as nat } else { 4 }),
            size <= field_bound(if k <= 4 { 0 } else { (k - 4) as nat }),
            copy_args(data@, cmd, 0, i + 1, 0, 0) == copy_args(data@, cmd, k as nat, pos as int, ofs as int, size as int),
        decreases 7 - k,
    {
        if copy_field_present_exec(cmd, k) {
            if pos >= data.len() {
                return None;
            }
            let b = data[pos];
            let w = copy_field_weight_exec(k);
            assert(b as int * w as int <= 255 * w as int) by (nonlinear_arith)
                requires
                    b <= 255,
            ;
            let v = (b as u64) * w;
            if k < 4 {
                ofs = ofs + v;
            } else {
                size = size + v;
            }
            pos = pos + 1;
        }
        k = k + 1;
    }
    Some((ofs, size, pos))
}

} // verus!

verus! {

/// Writes `src[start..end]` into `target` at `written`, keeping only what fits.
fn write_truncated(target: &mut Vec<u8>, written: usize, src: &[u8], start: usize, end: usize) -> (w: usize)
    requires
        written <= old(target).len(),
        start <= end <= src.len(),
    ensures
        final(target).len() == old(target).len(),
        w == if written + (end - start) <= old(target).len() { written + (end - start) } else { old(target).len() as int },
        final(target)@ == old(target)@.take(written as int) + src@.subrange(start as int, start + (w - written))
            + old(target)@.skip(w as int),
{
    let n = target.len();
    let avail = n - written;
    let count = if end - start <= avail { end - start } else { avail };
    let mut j: usize = 0;
    while j < count
        invariant
            count <= end - start,
            written + count <= n,
            n == old(target).len(),
            target.len() == n,
            start <= end <= src.len(),
            j <= count,
            target@ == old(target)@.take(written as int) + src@.subrange(start as int, start + j)
                + old(target)@.skip(written + j),
        decreases count - j,
    {
        target.set(written + j, src[start + j]);
        j = j + 1;
        assert(target@ =~= old(target)@.take(written as int) + src@.subrange(start as int, start + j)
            + old(target)@.skip(written + j));
    }
    written + count
}

proof fn lemma_written_into_step(old_target: Seq<u8>, produced: Seq<u8>, chunk: Seq<u8>, written: int)
    requires
        written == if produced.len() >= old_target.len() { old_target.len() as int } else { produced.len() as int },
    ensures
        ({
            let w = if written + chunk.len() <= old_target.len() { written + chunk.len() } else { old_target.len() as int };
            &&& w == if (produced + chunk).len() >= old_target.len() { old_target.len() as int } else { (produced + chunk).len() as int }
            &&& written_into(old_target, produced + chunk) =~= written_into(old_target, produced).take(written)
                + chunk.subrange(0, w - written) + written_into(old_target, produced).skip(w)
        }),
{
    let w = if written + chunk.len() <= old_target.len() { written + chunk.len() } else { old_target.len() as int };
    if produced.len() >= old_target.len() {
        assert(written_into(old_target, produced + chunk) =~= written_into(old_target, produced).take(written)
            + chunk.subrange(0, w - written) + written_into(old_target, produced).skip(w));
    } else {
        assert(written_into(old_target, produced + chunk) =~= written_into(old_target, produced).take(written)
            + chunk.subrange(0, w - written) + written_into(old_target, produced).skip(w));
    }
}

/// Apply the delta instructions in `data` to `base`, writing the result into `target`.
///
/// Instructions either copy a range of `base` or insert bytes carried by `data` itself.
/// Bytes that do not fit into `target` are dropped; it is an error if fewer bytes than
/// `target` holds were produced.
pub fn apply(base: &[u8], target: &mut Vec<u8>, data: &[u8]) -> (r: Result<(), ApplyError>)
    ensures
        final(target).len() == old(target).len(),
        r == apply_result(base@, data@, old(target).len() as nat),
        final(target)@ == written_into(old(target)@, delta_run(base@, data@, 0, Seq::empty()).0),
{
    let ghost old_target = target@;
    let ghost mut produced: Seq<u8> = Seq::empty();
    let n = target.len();
    let mut written: usize = 0;
    let mut i: usize = 0;
    assert(written_into(old_target, produced) =~= old_target);
    while i < data.len()
        invariant
            i <= data.len(),
            old_target == old(target)@,
            n == old_target.len(),
            target.len() == n,
            written == if produced.len() >= n { n as int } else { produced.len() as int },
            target@ == written_into(old_target, produced),
            delta_run(base@, data@, 0, Seq::empty()) == delta_run(base@, data@, i as int, produced),
        decreases data.len() - i,
    {
        let cmd = data[i];
        proof {
            lemma_delta_step_advances(base@, data@, i as int);
        }
        if cmd & 0x80 != 0 {
            let args = read_copy_args(data, cmd, i);
            match args {
                None => {
                    return Err(ApplyError::Corrupt { message: "delta copy instruction is truncated" });
                },
                Some((ofs, size0, next)) => {
                    let size: u64 = if size0 == 0 { 0x10000 } else { size0 };
                    let end64 = ofs + size;
                    if end64 > usize::MAX as u64 {
                        return Err(ApplyError::Corrupt { message: "delta copy range overflows" });
                    }
                    let end = end64 as usize;
                    let start = ofs as usize;
                    if end > base.len() {
                        return Err(ApplyError::Corrupt { message: "delta copy range exceeds base object size" });
                    }
                    proof {
                        lemma_written_into_step(old_target, produced, base@.subrange(start as int, end as int), written as int);
                    }
                    written = write_truncated(target, written, base, start, end);
                    proof {
                        produced = produced + base@.subrange(start as int, end as int);
                        assert(target@ =~= written_into(old_target, produced));
                    }
                    i = next;
                },
            }
        } else if cmd == 0 {
            return Err(ApplyError::Corrupt { message: "delta command 0 is reserved and invalid" });
        } else {
            let start = i + 1;
            if cmd as usize > usize::MAX - start {
                return Err(ApplyError::Corrupt { message: "delta insert range overflows" });
            }
            let end = start + cmd as usize;
            if end > data.len() {
                return Err(ApplyError::Corrupt { message: "delta insert data is truncated" });
            }
            proof {
                lemma_written_into_step(old_target, produced, data@.subrange(start as int, end as int), written as int);
            }
            written = write_truncated(target, written, data, start, end);
            proof {
                produced = produced + data@.subrange(start as int, end as int);
                assert(target@ =~= written_into(old_target, produced));
            }
            i = end;
        }
    }
    if written < n {
        return Err(ApplyError::Corrupt { message: "delta instructions produced fewer bytes than promised" });
    }
    Ok(())
}

} // verus!

verus! {

/// The weight of the `j`-th byte of a little-endian number: 1, 0x100, 0x10000 or 0x1000000.
pub open spec fn byte_weight(j: int) -> int {
    if j == 0 {
        1
    } else if j == 1 {
        0x100
    } else if j == 2 {
        0x10000
    } else {
        0x1000000
    }
}

/// A copy command that carries one offset byte, the `j`-th (flag 0x01, 0x02, 0x04 or 0x08), and
/// one size byte, the `m`-th (flag 0x10, 0x20 or 0x40).
pub open spec fn one_byte_copy_command(j: int, m: int) -> u8 {
    (0x80 + (if j == 0 {
        0x01int
    } else if j == 1 {
        0x02
    } else if j == 2 {
        0x04
    } else {
        0x08
    }) + (if m == 0 {
        0x10int
    } else if m == 1 {
        0x20
    } else {
        0x40
    })) as u8
}

/// A copy instruction copies from the base what its arguments say: the argument byte flagged by
/// 0x01 is the least significant byte of the offset, the one flagged by 0x02 the next, and so on,
/// and likewise the size bytes flagged by 0x10, 0x20 and 0x40. So the delta made of the command
/// with offset byte `j` and size byte `m`, followed by `b` and `c`, produces exactly the `c *
/// 256^m` bytes of the base from `b * 256^j` on, and applying it to a target of that length
/// succeeds and fills the target with them.
pub proof fn lemma_copy_instruction(base: Seq<u8>, j: int, m: int, b: u8, c: u8, target: Seq<u8>)
    requires
        0 <= j < 4,
        0 <= m < 3,
        c > 0,
        b * byte_weight(j) + c * byte_weight(m) <= base.len(),
        base.len() <= usize::MAX,
        target.len() == c * byte_weight(m),
    ensures
        ({
            let data = seq![one_byte_copy_command(j, m), b, c];
            let ofs = b * byte_weight(j);
            let size = c * byte_weight(m);
            &&& delta_run(base, data, 0, Seq::empty()) == (base.subrange(ofs, ofs + size), None::<ApplyError>)
            &&& apply_result(base, data, size as nat) is Ok
            &&& written_into(target, delta_run(base, data, 0, Seq::empty()).0) == base.subrange(ofs, ofs + size)
        }),
{
    let cmd = one_byte_copy_command(j, m);
    let data = seq![cmd, b, c];
    let ofs = b * byte_weight(j);
    let size = c * byte_weight(m);
    if j == 0 && m == 0 {
        assert(0x91u8 & 0x01u8 != 0 && 0x91u8 & 0x02u8 == 0 && 0x91u8 & 0x04u8 == 0 && 0x91u8 & 0x08u8 == 0 && 0x91u8 & 0x10u8 != 0 && 0x91u8 & 0x20u8 == 0 && 0x91u8 & 0x40u8 == 0) by (bit_vector);
        assert(copy_field_present(0x91u8, 0) && !copy_field_present(0x91u8, 1) && !copy_field_present(0x91u8, 2) && !copy_field_present(0x91u8, 3) && copy_field_present(0x91u8, 4) && !copy_field_present(0x91u8, 5) && !copy_field_present(0x91u8, 6));
    } else if j == 0 && m == 1 {
        assert(0xa1u8 & 0x01u8 != 0 && 0xa1u8 & 0x02u8 == 0 && 0xa1u8 & 0x04u8 == 0 && 0xa1u8 & 0x08u8 == 0 && 0xa1u8 & 0x10u8 == 0 && 0xa1u8 & 0x20u8 != 0 && 0xa1u8 & 0x40u8 == 0) by (bit_vector);
        assert(copy_field_present(0xa1u8, 0) && !copy_field_present(0xa1u8, 1) && !copy_field_present(0xa1u8, 2) && !copy_field_present(0xa1u8, 3) && !copy_field_present(0xa1u8, 4) && copy_field_present(0xa1u8, 5) && !copy_field_present(0xa1u8, 6));
    } else if j == 0 && m == 2 {
        assert(0xc1u8 & 0x01u8 != 0 && 0xc1u8 & 0x02u8 == 0 && 0xc1u8 & 0x04u8 == 0 && 0xc1u8 & 0x08u8 == 0 && 0xc1u8 & 0x10u8 == 0 && 0xc1u8 & 0x20u8 == 0 && 0xc1u8 & 0x40u8 != 0) by (bit_vector);
        assert(copy_field_present(0xc1u8, 0) && !copy_field_present(0xc1u8, 1) && !copy_field_present(0xc1u8, 2) && !copy_field_present(0xc1u8, 3) && !copy_field_present(0xc1u8, 4) && !copy_field_present(0xc1u8, 5) && copy_field_present(0xc1u8, 6));
    } else if j == 1 && m == 0 {
        assert(0x92u8 & 0x01u8 == 0 && 0x92u8 & 0x02u8 != 0 && 0x92u8 & 0x04u8 == 0 && 0x92u8 & 0x08u8 == 0 && 0x92u8 & 0x10u8 != 0 && 0x92u8 & 0x20u8 == 0 && 0x92u8 & 0x40u8 == 0) by (bit_vector);
        assert(!copy_field_present(0x92u8, 0) && copy_field_present(0x92u8, 1) && !copy_field_present(0x92u8, 2) && !copy_field_present(0x92u8, 3) && copy_field_present(0x92u8, 4) && !copy_field_present(0x92u8, 5) && !copy_field_present(0x92u8, 6));
    } else if j == 1 && m == 1 {
        assert(0xa2u8 & 0x01u8 == 0 && 0xa2u8 & 0x02u8 != 0 && 0xa2u8 & 0x04u8 == 0 && 0xa2u8 & 0x08u8 == 0 && 0xa2u8 & 0x10u8 == 0 && 0xa2u8 & 0x20u8 != 0 && 0xa2u8 & 0x40u8 == 0) by (bit_vector);
        assert(!copy_field_present(0xa2u8, 0) && copy_field_present(0xa2u8, 1) && !copy_field_present(0xa2u8, 2) && !copy_field_present(0xa2u8, 3) && !copy_field_present(0xa2u8, 4) && copy_field_present(0xa2u8, 5) && !copy_field_present(0xa2u8, 6));
    } else if j == 1 && m == 2 {
        assert(0xc2u8 & 0x01u8 == 0 && 0xc2u8 & 0x02u8 != 0 && 0xc2u8 & 0x04u8 == 0 && 0xc2u8 & 0x08u8 == 0 && 0xc2u8 & 0x10u8 == 0 && 0xc2u8 & 0x20u8 == 0 && 0xc2u8 & 0x40u8 != 0) by (bit_vector);
        assert(!copy_field_present(0xc2u8, 0) && copy_field_present(0xc2u8, 1) && !copy_field_present(0xc2u8, 2) && !copy_field_present(0xc2u8, 3) && !copy_field_present(0xc2u8, 4) && !copy_field_present(0xc2u8, 5) && copy_field_present(0xc2u8, 6));
    } else if j == 2 && m == 0 {
        assert(0x94u8 & 0x01u8 == 0 && 0x94u8 & 0x02u8 == 0 && 0x94u8 & 0x04u8 != 0 && 0x94u8 & 0x08u8 == 0 && 0x94u8 & 0x10u8 != 0 && 0x94u8 & 0x20u8 == 0 && 0x94u8 & 0x40u8 == 0) by (bit_vector);
        assert(!copy_field_present(0x94u8, 0) && !copy_field_present(0x94u8, 1) && copy_field_present(0x94u8, 2) && !copy_field_present(0x94u8, 3) && copy_field_present(0x94u8, 4) && !copy_field_present(0x94u8, 5) && !copy_field_present(0x94u8, 6));
    } else if j == 2 && m == 1 {
        assert(0xa4u8 & 0x01u8 == 0 && 0xa4u8 & 0x02u8 == 0 && 0xa4u8 & 0x04u8 != 0 && 0xa4u8 & 0x08u8 == 0 && 0xa4u8 & 0x10u8 == 0 && 0xa4u8 & 0x20u8 != 0 && 0xa4u8 & 0x40u8 == 0) by (bit_vector);
        assert(!copy_field_present(0xa4u8, 0) && !copy_field_present(0xa4u8, 1) && copy_field_present(0xa4u8, 2) && !copy_field_present(0xa4u8, 3) && !copy_field_present(0xa4u8, 4) && copy_field_present(0xa4u8, 5) && !copy_field_present(0xa4u8, 6));
    } else if j == 2 && m == 2 {
        assert(0xc4u8 & 0x01u8 == 0 && 0xc4u8 & 0x02u8 == 0 && 0xc4u8 & 0x04u8 != 0 && 0xc4u8 & 0x08u8 == 0 && 0xc4u8 & 0x10u8 == 0 && 0xc4u8 & 0x20u8 == 0 && 0xc4u8 & 0x40u8 != 0) by (bit_vector);
        assert(!copy_field_present(0xc4u8, 0) && !copy_field_present(0xc4u8, 1) && copy_field_present(0xc4u8, 2) && !copy_field_present(0xc4u8, 3) && !copy_field_present(0xc4u8, 4) && !copy_field_present(0xc4u8, 5) && copy_field_present(0xc4u8, 6));
    } else if j == 3 && m == 0 {
        assert(0x98u8 & 0x01u8 == 0 && 0x98u8 & 0x02u8 == 0 && 0x98u8 & 0x04u8 == 0 && 0x98u8 & 0x08u8 != 0 && 0x98u8 & 0x10u8 != 0 && 0x98u8 & 0x20u8 == 0 && 0x98u8 & 0x40u8 == 0) by (bit_vector);
        assert(!copy_field_present(0x98u8, 0) && !copy_field_present(0x98u8, 1) && !copy_field_present(0x98u8, 2) && copy_field_present(0x98u8, 3) && copy_field_present(0x98u8, 4) && !copy_field_present(0x98u8, 5) && !copy_field_present(0x98u8, 6));
    } else if j == 3 && m == 1 {
        assert(0xa8u8 & 0x01u8 == 0 && 0xa8u8 & 0x02u8 == 0 && 0xa8u8 & 0x04u8 == 0 && 0xa8u8 & 0x08u8 != 0 && 0xa8u8 & 0x10u8 == 0 && 0xa8u8 & 0x20u8 != 0 && 0xa8u8 & 0x40u8 == 0) by (bit_vector);
        assert(!copy_field_present(0xa8u8, 0) && !copy_field_present(0xa8u8, 1) && !copy_field_present(0xa8u8, 2) && copy_field_present(0xa8u8, 3) && !copy_field_present(0xa8u8, 4) && copy_field_present(0xa8u8, 5) && !copy_field_present(0xa8u8, 6));
    } else if j == 3 && m == 2 {
        assert(0xc8u8 & 0x01u8 == 0 && 0xc8u8 & 0x02u8 == 0 && 0xc8u8 & 0x04u8 == 0 && 0xc8u8 & 0x08u8 != 0 && 0xc8u8 & 0x10u8 == 0 && 0xc8u8 & 0x20u8 == 0 && 0xc8u8 & 0x40u8 != 0) by (bit_vector);
        assert(!copy_field_present(0xc8u8, 0) && !copy_field_present(0xc8u8, 1) && !copy_field_present(0xc8u8, 2) && copy_field_present(0xc8u8, 3) && !copy_field_present(0xc8u8, 4) && !copy_field_present(0xc8u8, 5) && copy_field_present(0xc8u8, 6));
    }
    assert(cmd & 0x80 != 0) by (bit_vector)
        requires
            cmd >= 0x80,
    ;
    assert(b * byte_weight(j) >= 0 && c * byte_weight(m) > 0) by (nonlinear_arith)
        requires
            byte_weight(j) >= 1,
            byte_weight(m) >= 1,
            c > 0,
    ;
    reveal_with_fuel(copy_args, 8);
    assert(copy_args(data, cmd, 0, 1, 0, 0) == Some((ofs, size, 3int)));
    reveal_with_fuel(delta_run, 2);
    assert(delta_step(base, data, 0) == Ok::<(Seq<u8>, int), ApplyError>((base.subrange(ofs, ofs + size), 3int)));
    assert(Seq::<u8>::empty() + base.subrange(ofs, ofs + size) =~= base.subrange(ofs, ofs + size));
    assert(base.subrange(ofs, ofs + size).take(size) =~= base.subrange(ofs, ofs + size));
}


/// A copy command with all seven argument bytes takes them in order as the four offset bytes and
/// the three size bytes, least significant first: `[0xff, o0, o1, o2, o3, s0, s1, s2]` produces
/// the bytes of the base from `o0 + o1 * 0x100 + o2 * 0x10000 + o3 * 0x1000000` on, as many as
/// `s0 + s1 * 0x100 + s2 * 0x10000` (0x10000 where that is zero).
pub proof fn lemma_full_copy_instruction(base: Seq<u8>, o0: u8, o1: u8, o2: u8, o3: u8, s0: u8, s1: u8, s2: u8)
    requires
        base.len() <= usize::MAX,
        ({
            let ofs = o0 + o1 * 0x100 + o2 * 0x10000 + o3 * 0x1000000;
            let size0 = s0 + s1 * 0x100 + s2 * 0x10000;
            ofs + (if size0 == 0 { 0x10000 } else { size0 }) <= base.len()
        }),
    ensures
        ({
            let ofs = o0 + o1 * 0x100 + o2 * 0x10000 + o3 * 0x1000000;
            let size0 = s0 + s1 * 0x100 + s2 * 0x10000;
            let size = if size0 == 0 { 0x10000 } else { size0 };
            delta_run(base, seq![0xffu8, o0, o1, o2, o3, s0, s1, s2], 0, Seq::empty()) == (
                base.subrange(ofs, ofs + size),
                None::<ApplyError>,
            )
        }),
{
    let data = seq![0xffu8, o0, o1, o2, o3, s0, s1, s2];
    let ofs = o0 + o1 * 0x100 + o2 * 0x10000 + o3 * 0x1000000;
    let size0 = s0 + s1 * 0x100 + s2 * 0x10000;
    let size = if size0 == 0 { 0x10000 } else { size0 };
    assert(0xffu8 & 0x01u8 != 0 && 0xffu8 & 0x02u8 != 0 && 0xffu8 & 0x04u8 != 0 && 0xffu8 & 0x08u8 != 0 && 0xffu8
        & 0x10u8 != 0 && 0xffu8 & 0x20u8 != 0 && 0xffu8 & 0x40u8 != 0 && 0xffu8 & 0x80u8 != 0) by (bit_vector);
    reveal_with_fuel(copy_args, 8);
    assert(copy_args(data, 0xffu8, 0, 1, 0, 0) == Some((ofs, size0, 8int)));
    reveal_with_fuel(delta_run, 2);
    assert(delta_step(base, data, 0) == Ok::<(Seq<u8>, int), ApplyError>((base.subrange(ofs, ofs + size), 8int)));
    assert(Seq::<u8>::empty() + base.subrange(ofs, ofs + size) =~= base.subrange(ofs, ofs + size));
}

/// An insert command `n` (1 to 127) produces the `n` bytes that follow it, whatever the base.
pub proof fn lemma_insert_instruction(base: Seq<u8>, payload: Seq<u8>)
    requires
        0 < payload.len() < 128,
    ensures
        delta_run(base, seq![payload.len() as u8] + payload, 0, Seq::empty()) == (payload, None::<ApplyError>),
{
    let n = payload.len() as u8;
    let data = seq![n] + payload;
    assert(n & 0x80 == 0) by (bit_vector)
        requires
            n < 128,
    ;
    assert(data[0] == n);
    assert(data.subrange(1, 1 + n as int) =~= payload);
    reveal_with_fuel(delta_run, 2);
    assert(delta_step(base, data, 0) == Ok::<(Seq<u8>, int), ApplyError>((payload, 1 + n as int)));
    assert(Seq::<u8>::empty() + payload =~= payload);
}

} // verus!
