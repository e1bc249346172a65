//! Block-source arithmetic: seeking, clamped reads, media length and the
//! block-aligned window of a byte-range read.
use vstd::prelude::*;

verus! {

/// Where a seek is measured from (the three forms of `embedded_io::SeekFrom`).
#[derive(Debug, Clone, Copy, PartialEq, Eq, Structural)]
pub enum SeekFrom {
    Start(u64),
    End(i64),
    Current(i64),
}

/// Why a seek was refused.
#[derive(Debug, Clone, Copy, PartialEq, Eq, Structural)]
pub enum SeekError {
    /// The length or position does not fit in an `i64`.
    BaseOverflow,
    /// The signed target overflowed.
    Overflow,
    /// The target lies before the start.
    Negative,
}

/// The position a seek moves to: from the start, the end (`len`) or the
/// current `position`, computed in `i64`. Seeking past the end is allowed.
pub open spec fn seek_spec(pos: SeekFrom, len: u64, position: u64) -> Result<u64, SeekError> {
    match pos {
        SeekFrom::Start(x) => Ok(x),
        SeekFrom::End(x) => if len > i64::MAX {
            Err(SeekError::BaseOverflow)
        } else if len + x > i64::MAX || len + x < i64::MIN {
            Err(SeekError::Overflow)
        } else if len + x < 0 {
            Err(SeekError::Negative)
        } else {
            Ok((len + x) as u64)
        },
        SeekFrom::Current(x) => if position > i64::MAX {
            Err(SeekError::BaseOverflow)
        } else if position + x > i64::MAX || position + x < i64::MIN {
            Err(SeekError::Overflow)
        } else if position + x < 0 {
            Err(SeekError::Negative)
        } else {
            Ok((position + x) as u64)
        },
    }
}

fn offset_from(base: u64, x: i64) -> (r: Result<u64, SeekError>)
    ensures
        r == (if base > i64::MAX {
            Err::<u64, SeekError>(SeekError::BaseOverflow)
        } else if base + x > i64::MAX || base + x < i64::MIN {
            Err(SeekError::Overflow)
        } else if base + x < 0 {
            Err(SeekError::Negative)
        } else {
            Ok((base + x) as u64)
        }),
{
    if base > i64::MAX as u64 {
        return Err(SeekError::BaseOverflow);
    }
    let s = base as i64;
    match s.checked_add(x) {
        None => Err(SeekError::Overflow),
        Some(t) => if t < 0 {
            Err(SeekError::Negative)
        } else {
            Ok(t as u64)
        },
    }
}

/// The position a seek moves a source of `len` bytes at `position` to.
pub fn seek_position(pos: SeekFrom, len: u64, position: u64) -> (r: Result<u64, SeekError>)
    ensures
        r == seek_spec(pos, len, position),
{
    match pos {
        SeekFrom::Start(x) => Ok(x),
        SeekFrom::End(x) => offset_from(len, x),
        SeekFrom::Current(x) => offset_from(position, x),
    }
}

/// How many bytes a read of `dst_len` bytes at `position` returns from a
/// source of `len` bytes: what is left, at most `dst_len`; 0 at or past
/// the end.
pub fn read_len(position: u64, len: u64, dst_len: usize) -> (r: usize)
    ensures
        r as int == if position >= len {
            0
        } else if dst_len < len - position {
            dst_len as int
        } else {
            len - position
        },
{
    if dst_len == 0 || position >= len {
        return 0;
    }
    let remaining = len - position;
    if (dst_len as u64) < remaining {
        dst_len
    } else {
        remaining as usize
    }
}

/// The byte length of a medium whose last block index is `last_block`:
/// `(last_block + 1) * block_size`, saturating at `u64::MAX`.
pub fn media_len(last_block: u64, block_size: u64) -> (r: u64)
    ensures
        r as int == if (if last_block == u64::MAX { u64::MAX as int } else { last_block + 1 })
            * block_size > u64::MAX {
            u64::MAX as int
        } else {
            (if last_block == u64::MAX { u64::MAX as int } else { last_block + 1 }) * block_size
        },
{
    let blocks = last_block.saturating_add(1);
    match blocks.checked_mul(block_size) {
        Some(r) => r,
        None => u64::MAX,
    }
}

/// The block-aligned window of a read of `dst_len` bytes at `start`:
/// `(first_lba, aligned_len, intra)` where blocks `first_lba..` cover the
/// range and `intra` is where it begins in them. `None` for an empty read,
/// a zero block size, or arithmetic that does not fit.
pub open spec fn aligned_read(start: u64, dst_len: usize, bs: u64) -> Option<(u64, usize, usize)> {
    if dst_len == 0 || bs == 0 || start + dst_len > u64::MAX {
        None
    } else {
        let first = start as int / (bs as int);
        let last = (start + dst_len - 1) / (bs as int);
        let bytes = (last - first + 1) * bs;
        if bytes > u64::MAX || bytes > usize::MAX {
            None
        } else {
            Some((first as u64, bytes as usize, (start - first * bs) as usize))
        }
    }
}

/// Compute the block-aligned read parameters for a byte-range read over a
/// block-granular device.
pub fn compute_aligned_read(start_byte: u64, dst_len: usize, block_size: u64) -> (r: Option<
    (u64, usize, usize),
>)
    ensures
        r == aligned_read(start_byte, dst_len, block_size),
{
    if dst_len == 0 || block_size == 0 {
        return None;
    }
    let first_lba = start_byte / block_size;
    let end_byte = match start_byte.checked_add(dst_len as u64) {
        None => return None,
        Some(e) => e,
    };
    let last_lba = (end_byte - 1) / block_size;
    assert(first_lba <= last_lba) by (nonlinear_arith)
        requires
            first_lba == start_byte as int / (block_size as int),
            last_lba == (end_byte - 1) / (block_size as int),
            start_byte <= end_byte - 1,
            block_size > 0,
    ;
    let aligned_blocks = last_lba - first_lba + 1;
    let aligned_bytes = match aligned_blocks.checked_mul(block_size) {
        None => return None,
        Some(b) => b,
    };
    if aligned_bytes > usize::MAX as u64 {
        return None;
    }
    let aligned_len = aligned_bytes as usize;
    assert(first_lba * block_size <= start_byte) by (nonlinear_arith)
        requires
            first_lba == start_byte as int / (block_size as int),
            block_size > 0,
    ;
    let intra = (start_byte - first_lba * block_size) as usize;
    proof {
        lemma_window_fits(start_byte, dst_len, block_size);
    }
    Some((first_lba, aligned_len, intra))
}

proof fn lemma_window_fits(start: u64, dst_len: usize, bs: u64)
    requires
        dst_len > 0,
        bs > 0,
        start + dst_len <= u64::MAX,
    ensures
        ({
            let first = start as int / (bs as int);
            let last = (start + dst_len - 1) / (bs as int);
            &&& first * bs <= start
            &&& start - first * bs < bs
            &&& (start - first * bs) + dst_len <= (last - first + 1) * bs
        }),
{
    let first = start as int / (bs as int);
    let end1 = start + dst_len - 1;
    let last = end1 / (bs as int);
    assert(first * bs <= start && start < first * bs + bs) by (nonlinear_arith)
        requires
            first == start as int / (bs as int),
            bs > 0,
    ;
    assert(last * bs <= end1 && end1 < last * bs + bs) by (nonlinear_arith)
        requires
            last == end1 / (bs as int),
            bs > 0,
    ;
    assert((last - first + 1) * bs == last * bs + bs - first * bs) by (nonlinear_arith);
}

/// The aligned window covers the requested range: the blocks from
/// `first_lba` hold the `dst_len` requested bytes at offset `intra`, which
/// is less than one block.
pub proof fn aligned_read_covers(start: u64, dst_len: usize, bs: u64)
    requires
        aligned_read(start, dst_len, bs) is Some,
    ensures
        ({
            let (first, len, intra) = aligned_read(start, dst_len, bs)->Some_0;
            &&& first * bs + intra == start
            &&& intra < bs
            &&& intra + dst_len <= len
            &&& (len as int) % (bs as int) == 0
        }),
{
    lemma_window_fits(start, dst_len, bs);
    let first = start as int / (bs as int);
    let last = (start + dst_len - 1) / (bs as int);
    assert(last >= first) by (nonlinear_arith)
        requires
            first == start as int / (bs as int),
            last == (start + dst_len - 1) / (bs as int),
            dst_len > 0,
            bs > 0,
    ;
    assert(((last - first + 1) * bs) % (bs as int) == 0) by (nonlinear_arith)
        requires
            bs > 0,
            last >= first,
    {
        vstd::arithmetic::div_mod::lemma_mod_multiples_basic((last - first + 1) as int, bs as int);
    }
}

} // verus!
